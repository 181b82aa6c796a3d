//! What the bridge holds and what its operations mean, as plain mathematics.
//!
//! The inode table is a sequence: the inode with number `n` stands at index
//! `n - 1`, the root directory first. A directory is listed once its
//! entries have been fetched from the device and appended; a regular file
//! may hold its content once that has been fetched.

use super::attr::{entry_attr, root_dir_attr, FileAttr, FileType, ROOT_INO};
use super::filesystem_status::{status_of, FilesystemStatus};
use super::ilistdir_item::ListingItem;
use super::literal::{trim_end, ParseError};
use super::listing_of;
use crate::repl::Failure;
use vstd::prelude::*;
use vstd::string::StringSliceAdditionalSpecFns;

verus! {

/// Separates the parts of a path.
pub const SLASH: u8 = 0x2f;

/// The byte of which the names `.` and `..` are made.
pub const DOT: u8 = 0x2e;

/// The most inodes that a table holds, so that every inode number and
/// every directory offset can be told to the host.
pub const MAX_INODES: u64 = 0x7fff_ffff_ffff_fff0;

/// One file system object.
pub struct Inode {
    /// The absolute path on the device.
    pub path: Seq<u8>,
    /// The attributes shown to the host.
    pub attr: FileAttr,
    /// The inode number of the directory that holds the object.
    pub parent: u64,
    /// The name under which that directory lists the object.
    pub name: Seq<u8>,
    /// The entries of this directory are in the table.
    pub listed: bool,
    /// The content of this file, once it has been fetched.
    pub content: Option<Seq<u8>>,
}

/// One line of a directory as the host sees it.
pub struct Entry {
    pub ino: u64,
    /// The place after this entry, from which a later call goes on.
    pub offset: i64,
    pub kind: FileType,
    pub name: Seq<u8>,
}

/// Why a file system operation has no result.
pub enum FsFailure {
    /// There is no such object, or it is not of the kind asked for.
    NotFound,
    /// The device's answer is malformed.
    Parse(ParseError),
    /// The device gave no answer.
    Session(Failure),
    /// The inode table has no room for the entries.
    TableFull,
}

/// The answer to a file system operation: the result, or the code whose
/// result the bridge needs from the device before it can tell.
pub enum Reply<T> {
    Ready(T),
    Fetch(Seq<u8>),
}

/// The code that asks the device for the statistics of its volume.
pub open spec fn statvfs_code() -> Seq<u8> {
    "os.statvfs()".spec_bytes()
}

/// The code that asks the device for the entries of a directory.
pub open spec fn listing_code(path: Seq<u8>) -> Seq<u8> {
    "list(os.ilistdir(\"".spec_bytes() + path + "\"))".spec_bytes()
}

/// The code that asks the device for the content of a file.
pub open spec fn content_code(path: Seq<u8>) -> Seq<u8> {
    "open(\"".spec_bytes() + path + "\").read()".spec_bytes()
}

/// The path of `name` in the directory at `dir`: the directory's path
/// without trailing slashes, a slash, and the name.
pub open spec fn join(dir: Seq<u8>, name: Seq<u8>) -> Seq<u8> {
    trim_end(dir, SLASH, SLASH) + seq![SLASH] + name
}

/// The part of `content` that a read of `size` bytes at `offset` gives.
pub open spec fn byte_range(content: Seq<u8>, offset: i64, size: u32) -> Seq<u8> {
    if 0 <= offset < content.len() {
        if offset + size <= content.len() {
            content.subrange(offset as int, offset + size)
        } else {
            content.subrange(offset as int, content.len() as int)
        }
    } else {
        Seq::empty()
    }
}

/// The root directory, at first not listed.
pub open spec fn root_inode() -> Inode {
    Inode {
        path: seq![SLASH],
        attr: root_dir_attr(),
        parent: ROOT_INO,
        name: Seq::empty(),
        listed: false,
        content: None,
    }
}

/// The same directory with its entries in the table.
pub open spec fn as_listed(inode: Inode) -> Inode {
    Inode {
        path: inode.path,
        attr: inode.attr,
        parent: inode.parent,
        name: inode.name,
        listed: true,
        content: inode.content,
    }
}

/// The same file with its content.
pub open spec fn with_content(inode: Inode, content: Seq<u8>) -> Inode {
    Inode {
        path: inode.path,
        attr: inode.attr,
        parent: inode.parent,
        name: inode.name,
        listed: inode.listed,
        content: Some(content),
    }
}

/// The inode for an entry of the directory `dir`, the `ino`th of the table.
pub open spec fn inode_for(
    item: ListingItem,
    ino: u64,
    dir: u64,
    dir_path: Seq<u8>,
    bsize: u64,
) -> Inode {
    Inode {
        path: join(dir_path, item.name),
        attr: entry_attr(ino, item.item_type, item.size, bsize),
        parent: dir,
        name: item.name,
        listed: false,
        content: None,
    }
}

/// The line that stands for the `k`th member of a directory.
pub open spec fn entry_at(members: Seq<(u64, FileType, Seq<u8>)>, k: int) -> Entry {
    Entry { ino: members[k].0, offset: (k + 1) as i64, kind: members[k].1, name: members[k].2 }
}

/// What the bridge holds.
pub struct Bridge {
    pub inodes: Seq<Inode>,
    /// The statistics of the device's volume, once they are known.
    pub filesystem_status: Option<FilesystemStatus>,
    /// What was wrong with the device's report of its statistics, where it
    /// was malformed. Such a bridge never starts.
    pub malformed: Option<ParseError>,
}

impl Bridge {
    /// A bridge that knows the root directory and nothing else.
    pub open spec fn fresh() -> Bridge {
        Bridge { inodes: seq![root_inode()], filesystem_status: None, malformed: None }
    }

    /// The table keeps its order and its bounds: the root comes first,
    /// every inode stands at the place of its number, every other inode
    /// lies in a listed directory that stands before it, under the path
    /// made of that directory's path and its own name; only directories
    /// are listed and only files have content; nothing was appended before
    /// the volume's statistics were known; and a bridge whose device gave a
    /// malformed report of them has none.
    pub open spec fn well_formed(self) -> bool {
        &&& 1 <= self.inodes.len() <= MAX_INODES
        &&& self.inodes[0] == root_inode() || self.inodes[0] == as_listed(root_inode())
        &&& forall|i: int|
            0 <= i < self.inodes.len() ==> (#[trigger] self.inodes[i]).attr.ino == i + 1
        &&& forall|i: int| 1 <= i < self.inodes.len() ==> #[trigger] self.placed(i)
        &&& forall|i: int|
            0 <= i < self.inodes.len() && (#[trigger] self.inodes[i]).listed
                ==> self.inodes[i].attr.kind == FileType::Directory
        &&& forall|i: int|
            0 <= i < self.inodes.len() && (#[trigger] self.inodes[i]).content is Some
                ==> self.inodes[i].attr.kind == FileType::RegularFile
        &&& self.inodes.len() > 1 ==> self.filesystem_status is Some
        &&& self.malformed is Some ==> self.filesystem_status is None
    }

    /// The inode at index `i` lies in a listed directory that stands before
    /// it, under the path made of that directory's path and its own name.
    pub open spec fn placed(self, i: int) -> bool {
        let inode = self.inodes[i];
        &&& 1 <= inode.parent <= i
        &&& self.is_dir(inode.parent)
        &&& self.inodes[inode.parent - 1].listed
        &&& inode.path == join(self.inodes[inode.parent - 1].path, inode.name)
    }

    /// The table has an inode with this number.
    pub open spec fn has(self, ino: u64) -> bool {
        1 <= ino <= self.inodes.len()
    }

    /// The table has a directory with this number.
    pub open spec fn is_dir(self, ino: u64) -> bool {
        self.has(ino) && self.inodes[ino - 1].attr.kind == FileType::Directory
    }

    /// The table has a regular file with this number.
    pub open spec fn is_file(self, ino: u64) -> bool {
        self.has(ino) && self.inodes[ino - 1].attr.kind == FileType::RegularFile
    }

    /// The block size by which sizes are counted in blocks.
    pub open spec fn bsize(self) -> u64 {
        match self.filesystem_status {
            Some(status) => status.bsize,
            None => 0,
        }
    }

    /// The bridge after the device's answer to the request for its
    /// statistics. The statistics are taken once: a bridge that has them
    /// keeps them. A malformed report is fatal: the bridge keeps what was
    /// wrong with it and fails in the same way ever after. Where the device
    /// gave no answer at all, the bridge stays as it is.
    pub open spec fn after_status(self, response: Result<Seq<u8>, Failure>) -> (
        Bridge,
        Result<(), FsFailure>,
    ) {
        if self.filesystem_status is Some {
            (self, Ok(()))
        } else if self.malformed is Some {
            (self, Err(FsFailure::Parse(self.malformed->0)))
        } else {
            match response {
                Err(e) => (self, Err(FsFailure::Session(e))),
                Ok(payload) => match status_of(payload) {
                    Err(e) => (
                        Bridge {
                            inodes: self.inodes,
                            filesystem_status: None,
                            malformed: Some(e),
                        },
                        Err(FsFailure::Parse(e)),
                    ),
                    Ok(status) => (
                        Bridge {
                            inodes: self.inodes,
                            filesystem_status: Some(status),
                            malformed: None,
                        },
                        Ok(()),
                    ),
                },
            }
        }
    }

    /// The table with the directory `dir` listed and `items` appended as
    /// its entries, numbered on from the end of the table.
    pub open spec fn expand(self, dir: u64, items: Seq<ListingItem>) -> Bridge {
        let count = self.inodes.len();
        let dir_path = self.inodes[dir - 1].path;
        Bridge {
            inodes: self.inodes.update(dir - 1, as_listed(self.inodes[dir - 1])) + Seq::new(
                items.len(),
                |k: int| inode_for(items[k], (count + k + 1) as u64, dir, dir_path, self.bsize()),
            ),
            filesystem_status: self.filesystem_status,
            malformed: self.malformed,
        }
    }

    /// The bridge after the device's answer to the request for the entries
    /// of `dir`. On any failure the bridge stays as it is. A directory that
    /// is listed already stays as it is, too.
    pub open spec fn after_listing(self, dir: u64, response: Result<Seq<u8>, Failure>) -> (
        Bridge,
        Result<(), FsFailure>,
    ) {
        if !self.is_dir(dir) {
            (self, Err(FsFailure::NotFound))
        } else if self.inodes[dir - 1].listed {
            (self, Ok(()))
        } else {
            match response {
                Err(e) => (self, Err(FsFailure::Session(e))),
                Ok(payload) => match listing_of(payload) {
                    Err(e) => (self, Err(FsFailure::Parse(e))),
                    Ok(items) => if self.inodes.len() + items.len() > MAX_INODES {
                        (self, Err(FsFailure::TableFull))
                    } else {
                        (self.expand(dir, items), Ok(()))
                    },
                },
            }
        }
    }

    /// The bridge after the device's answer to the request for the content
    /// of the file `ino`. On any failure the bridge stays as it is. A file
    /// whose content is held already keeps it.
    pub open spec fn after_content(self, ino: u64, response: Result<Seq<u8>, Failure>) -> (
        Bridge,
        Result<(), FsFailure>,
    ) {
        if !self.is_file(ino) {
            (self, Err(FsFailure::NotFound))
        } else if self.inodes[ino - 1].content is Some {
            (self, Ok(()))
        } else {
            match response {
                Err(e) => (self, Err(FsFailure::Session(e))),
                Ok(payload) => (
                    Bridge {
                        inodes: self.inodes.update(
                            ino - 1,
                            with_content(self.inodes[ino - 1], payload),
                        ),
                        filesystem_status: self.filesystem_status,
                        malformed: self.malformed,
                    },
                    Ok(()),
                ),
            }
        }
    }

    /// The attributes of the inode `ino`.
    pub open spec fn getattr(self, ino: u64) -> Result<FileAttr, FsFailure> {
        if self.has(ino) {
            Ok(self.inodes[ino - 1].attr)
        } else {
            Err(FsFailure::NotFound)
        }
    }

    /// The index of the first entry of `parent` named `name`, looking from
    /// index `from` on.
    pub open spec fn find_child(self, parent: u64, name: Seq<u8>, from: int) -> Option<int>
        decreases self.inodes.len() - from,
    {
        if from >= self.inodes.len() {
            None
        } else if from >= 1 && self.inodes[from].parent == parent && self.inodes[from].name
            == name {
            Some(from)
        } else {
            self.find_child(parent, name, from + 1)
        }
    }

    /// The attributes of the entry of the directory `parent` named `name`.
    pub open spec fn lookup(self, parent: u64, name: Seq<u8>) -> Result<Reply<FileAttr>, FsFailure> {
        if !self.is_dir(parent) {
            Err(FsFailure::NotFound)
        } else if !self.inodes[parent - 1].listed {
            Ok(Reply::Fetch(listing_code(self.inodes[parent - 1].path)))
        } else {
            match self.find_child(parent, name, 1) {
                Some(i) => Ok(Reply::Ready(self.inodes[i].attr)),
                None => Err(FsFailure::NotFound),
            }
        }
    }

    /// The entries of `dir` among the first `n` inodes, in table order,
    /// each with its number, kind and name.
    pub open spec fn children(self, dir: u64, n: int) -> Seq<(u64, FileType, Seq<u8>)>
        decreases n,
    {
        if n <= 1 {
            Seq::empty()
        } else {
            let earlier = self.children(dir, n - 1);
            let inode = self.inodes[n - 1];
            if inode.parent == dir {
                earlier.push((inode.attr.ino, inode.attr.kind, inode.name))
            } else {
                earlier
            }
        }
    }

    /// What the directory `dir` holds: itself as `.`, the directory that
    /// holds it as `..`, then its entries among the first `n` inodes.
    pub open spec fn members(self, dir: u64, n: int) -> Seq<(u64, FileType, Seq<u8>)> {
        seq![
            (dir, FileType::Directory, seq![DOT]),
            (self.inodes[dir - 1].parent, FileType::Directory, seq![DOT, DOT]),
        ] + self.children(dir, n)
    }

    /// The directory `dir` as the host sees it. Each line carries the
    /// offset that leads on to the next one.
    pub open spec fn listing(self, dir: u64) -> Seq<Entry> {
        let members = self.members(dir, self.inodes.len() as int);
        Seq::new(members.len(), |k: int| entry_at(members, k))
    }

    /// The lines of the directory `ino` from `offset` on. An offset
    /// outside the directory gives no line.
    pub open spec fn readdir(self, ino: u64, offset: i64) -> Result<Reply<Seq<Entry>>, FsFailure> {
        if !self.is_dir(ino) {
            Err(FsFailure::NotFound)
        } else if !self.inodes[ino - 1].listed {
            Ok(Reply::Fetch(listing_code(self.inodes[ino - 1].path)))
        } else if 0 <= offset <= self.listing(ino).len() {
            Ok(Reply::Ready(self.listing(ino).skip(offset as int)))
        } else {
            Ok(Reply::Ready(Seq::empty()))
        }
    }

    /// The bytes of the file `ino` that a read of `size` bytes at
    /// `offset` gives.
    pub open spec fn read(self, ino: u64, offset: i64, size: u32) -> Result<
        Reply<Seq<u8>>,
        FsFailure,
    > {
        if !self.is_file(ino) {
            Err(FsFailure::NotFound)
        } else {
            match self.inodes[ino - 1].content {
                None => Ok(Reply::Fetch(content_code(self.inodes[ino - 1].path))),
                Some(content) => Ok(Reply::Ready(byte_range(content, offset, size))),
            }
        }
    }
}

} // verus!

verus! {

/// Appending the entries of a directory keeps the table in order.
pub proof fn lemma_expand_keeps_well_formed(bridge: Bridge, dir: u64, items: Seq<ListingItem>)
    requires
        bridge.well_formed(),
        bridge.is_dir(dir),
        !bridge.inodes[dir - 1].listed,
        bridge.filesystem_status is Some,
        bridge.inodes.len() + items.len() <= MAX_INODES,
    ensures
        bridge.expand(dir, items).well_formed(),
{
    let grown = bridge.expand(dir, items);
    let count = bridge.inodes.len() as int;
    assert forall|i: int| 0 <= i < grown.inodes.len() implies (#[trigger] grown.inodes[i]).attr.ino
        == i + 1 by {
        if i < count {
            assert(grown.inodes[i].attr == bridge.inodes[i].attr);
        }
    }
    assert forall|i: int| 1 <= i < grown.inodes.len() implies #[trigger] grown.placed(i) by {
        let inode = grown.inodes[i];
        if i < count {
            let was = bridge.inodes[i];
            assert(bridge.placed(i));
            assert(inode.parent == was.parent && inode.path == was.path && inode.name == was.name);
            assert(grown.inodes[was.parent - 1].path == bridge.inodes[was.parent - 1].path);
            assert(grown.inodes[was.parent - 1].attr == bridge.inodes[was.parent - 1].attr);
        } else {
            assert(inode.parent == dir);
            assert(grown.inodes[dir - 1] == as_listed(bridge.inodes[dir - 1]));
        }
    }
    assert forall|i: int| 0 <= i < grown.inodes.len() && (#[trigger] grown.inodes[i]).listed implies
        grown.inodes[i].attr.kind == FileType::Directory by {
        if i < count && i != dir - 1 {
            assert(bridge.inodes[i].listed);
        }
    }
    assert forall|i: int|
        0 <= i < grown.inodes.len() && (#[trigger] grown.inodes[i]).content is Some implies
        grown.inodes[i].attr.kind == FileType::RegularFile by {
        if i < count {
            assert(bridge.inodes[i].content is Some);
        }
    }
}

/// Keeping the content of a file keeps the table in order.
pub proof fn lemma_content_keeps_well_formed(bridge: Bridge, ino: u64, content: Seq<u8>)
    requires
        bridge.well_formed(),
        bridge.is_file(ino),
    ensures
        (Bridge {
            inodes: bridge.inodes.update(ino - 1, with_content(bridge.inodes[ino - 1], content)),
            filesystem_status: bridge.filesystem_status,
            malformed: bridge.malformed,
        }).well_formed(),
{
    let kept = Bridge {
        inodes: bridge.inodes.update(ino - 1, with_content(bridge.inodes[ino - 1], content)),
        filesystem_status: bridge.filesystem_status,
        malformed: bridge.malformed,
    };
    assert forall|i: int| 0 <= i < kept.inodes.len() implies (#[trigger] kept.inodes[i]).attr.ino
        == i + 1 by {
        assert(kept.inodes[i].attr == bridge.inodes[i].attr);
    }
    assert forall|i: int| 1 <= i < kept.inodes.len() implies #[trigger] kept.placed(i) by {
        let was = bridge.inodes[i];
        assert(bridge.placed(i));
        assert(kept.inodes[i].parent == was.parent);
        assert(kept.inodes[was.parent - 1].attr == bridge.inodes[was.parent - 1].attr);
        assert(kept.inodes[was.parent - 1].path == bridge.inodes[was.parent - 1].path);
        assert(kept.inodes[was.parent - 1].listed == bridge.inodes[was.parent - 1].listed);
    }
    assert forall|i: int| 0 <= i < kept.inodes.len() && (#[trigger] kept.inodes[i]).listed implies
        kept.inodes[i].attr.kind == FileType::Directory by {
        assert(bridge.inodes[i].listed);
    }
    assert forall|i: int|
        0 <= i < kept.inodes.len() && (#[trigger] kept.inodes[i]).content is Some implies
        kept.inodes[i].attr.kind == FileType::RegularFile by {
        if i != ino - 1 {
            assert(bridge.inodes[i].content is Some);
        }
    }
}

} // verus!

verus! {

/// A fresh bridge is in order, and every change leaves a bridge in order.
pub proof fn lemma_changes_keep_well_formed(
    bridge: Bridge,
    ino: u64,
    response: Result<Seq<u8>, Failure>,
)
    requires
        bridge.well_formed(),
    ensures
        Bridge::fresh().well_formed(),
        bridge.after_status(response).0.well_formed(),
        bridge.filesystem_status is Some ==> bridge.after_listing(ino, response).0.well_formed(),
        bridge.after_content(ino, response).0.well_formed(),
{
    assert(Bridge::fresh().inodes[0] == root_inode());
    let started = bridge.after_status(response).0;
    assert forall|i: int| 1 <= i < started.inodes.len() implies #[trigger] started.placed(i) by {
        assert(bridge.placed(i));
    }
    if bridge.filesystem_status is Some && bridge.after_listing(ino, response).1 is Ok
        && !bridge.inodes[ino - 1].listed {
        lemma_expand_keeps_well_formed(bridge, ino, listing_of(response->Ok_0)->Ok_0);
    }
    if bridge.after_content(ino, response).1 is Ok && bridge.inodes[ino - 1].content is None {
        lemma_content_keeps_well_formed(bridge, ino, response->Ok_0);
    }
}

/// The table only grows: taking a directory listing leaves every inode
/// that was there at its place, with its number, path, name and attributes,
/// and every inode that is new gets the next number in turn, from the end
/// of the old table on.
pub proof fn lemma_listing_only_appends(
    bridge: Bridge,
    dir: u64,
    response: Result<Seq<u8>, Failure>,
)
    requires
        bridge.well_formed(),
        bridge.filesystem_status is Some,
    ensures
        ({
            let after = bridge.after_listing(dir, response).0;
            &&& after.inodes.len() >= bridge.inodes.len()
            &&& forall|i: int|
                0 <= i < bridge.inodes.len() ==> {
                    &&& (#[trigger] after.inodes[i]).attr == bridge.inodes[i].attr
                    &&& after.inodes[i].path == bridge.inodes[i].path
                    &&& after.inodes[i].name == bridge.inodes[i].name
                    &&& after.inodes[i].parent == bridge.inodes[i].parent
                    &&& after.inodes[i].content == bridge.inodes[i].content
                }
            &&& forall|i: int|
                bridge.inodes.len() <= i < after.inodes.len() ==> {
                    &&& (#[trigger] after.inodes[i]).attr.ino == i + 1
                    &&& after.inodes[i].attr.ino >= 2
                    &&& after.inodes[i].parent == dir
                }
            &&& forall|ino: u64| bridge.has(ino) ==> after.getattr(ino) == bridge.getattr(ino)
        }),
{
    let after = bridge.after_listing(dir, response).0;
    if after != bridge {
        let items = listing_of(response->Ok_0)->Ok_0;
        assert(after == bridge.expand(dir, items));
        assert forall|i: int| 0 <= i < bridge.inodes.len() implies {
            &&& (#[trigger] after.inodes[i]).attr == bridge.inodes[i].attr
            &&& after.inodes[i].path == bridge.inodes[i].path
            &&& after.inodes[i].name == bridge.inodes[i].name
            &&& after.inodes[i].parent == bridge.inodes[i].parent
            &&& after.inodes[i].content == bridge.inodes[i].content
        } by {}
        assert forall|ino: u64| bridge.has(ino) implies after.getattr(ino) == bridge.getattr(
            ino,
        ) by {
            assert(after.inodes[ino - 1].attr == bridge.inodes[ino - 1].attr);
        }
    }
}

/// The names and kinds that a listing reports, numbered from `first` on.
pub open spec fn reported(items: Seq<ListingItem>, first: int) -> Seq<(u64, FileType, Seq<u8>)> {
    Seq::new(items.len(), |k: int| ((first + k) as u64, items[k].item_type, items[k].name))
}

/// A directory that is not listed has no entry in the table.
pub proof fn lemma_unlisted_has_no_children(bridge: Bridge, dir: u64, n: int)
    requires
        bridge.well_formed(),
        bridge.is_dir(dir),
        !bridge.inodes[dir - 1].listed,
        0 <= n <= bridge.inodes.len(),
    ensures
        bridge.children(dir, n) == Seq::<(u64, FileType, Seq<u8>)>::empty(),
    decreases n,
{
    if n > 1 {
        lemma_unlisted_has_no_children(bridge, dir, n - 1);
        assert(bridge.placed(n - 1));
    }
}

/// A directory holds what the device reported for it, no more and no less,
/// in the order of the report: once a listing is taken, the directory shows
/// itself, the directory that holds it, and then the reported entries, each
/// under the number that the table gave it.
pub proof fn lemma_directory_shows_the_report(bridge: Bridge, dir: u64, items: Seq<ListingItem>)
    requires
        bridge.well_formed(),
        bridge.is_dir(dir),
        !bridge.inodes[dir - 1].listed,
        bridge.inodes.len() + items.len() <= MAX_INODES,
    ensures
        bridge.expand(dir, items).children(dir, (bridge.inodes.len() + items.len()) as int)
            == reported(items, (bridge.inodes.len() + 1) as int),
        bridge.expand(dir, items).members(dir, (bridge.inodes.len() + items.len()) as int) == seq![
            (dir, FileType::Directory, seq![DOT]),
            (bridge.inodes[dir - 1].parent, FileType::Directory, seq![DOT, DOT]),
        ] + reported(items, (bridge.inodes.len() + 1) as int),
{
    let grown = bridge.expand(dir, items);
    let count = bridge.inodes.len() as int;
    lemma_children_of_grown(bridge, dir, items, items.len() as int);
    assert(reported(items.subrange(0, items.len() as int), count + 1) =~= reported(
        items,
        count + 1,
    ));
    assert(grown.inodes[dir - 1].parent == bridge.inodes[dir - 1].parent);
}

/// The entries of a newly listed directory among the old table and the
/// first `k` appended inodes are the first `k` reported entries.
proof fn lemma_children_of_grown(bridge: Bridge, dir: u64, items: Seq<ListingItem>, k: int)
    requires
        bridge.well_formed(),
        bridge.is_dir(dir),
        !bridge.inodes[dir - 1].listed,
        bridge.inodes.len() + items.len() <= MAX_INODES,
        0 <= k <= items.len(),
    ensures
        bridge.expand(dir, items).children(dir, bridge.inodes.len() + k) == reported(
            items.subrange(0, k),
            (bridge.inodes.len() + 1) as int,
        ),
    decreases k,
{
    let grown = bridge.expand(dir, items);
    let count = bridge.inodes.len() as int;
    if k == 0 {
        lemma_children_agree(bridge, grown, dir, count);
        lemma_unlisted_has_no_children(bridge, dir, count);
        assert(reported(items.subrange(0, 0), count + 1) =~= Seq::empty());
    } else {
        lemma_children_of_grown(bridge, dir, items, k - 1);
        let inode = grown.inodes[count + k - 1];
        assert(inode == inode_for(
            items[k - 1],
            (count + k) as u64,
            dir,
            bridge.inodes[dir - 1].path,
            bridge.bsize(),
        ));
        assert(reported(items.subrange(0, k), count + 1) =~= reported(
            items.subrange(0, k - 1),
            count + 1,
        ).push((inode.attr.ino, inode.attr.kind, inode.name)));
    }
}

/// Two tables that agree on parents, numbers, kinds and names agree on the
/// entries of a directory.
proof fn lemma_children_agree(a: Bridge, b: Bridge, dir: u64, n: int)
    requires
        0 <= n <= a.inodes.len(),
        n <= b.inodes.len(),
        forall|i: int|
            0 <= i < n ==> {
                &&& (#[trigger] a.inodes[i]).parent == b.inodes[i].parent
                &&& a.inodes[i].attr == b.inodes[i].attr
                &&& a.inodes[i].name == b.inodes[i].name
            },
    ensures
        a.children(dir, n) == b.children(dir, n),
    decreases n,
{
    if n > 1 {
        lemma_children_agree(a, b, dir, n - 1);
        assert(a.inodes[n - 1].parent == b.inodes[n - 1].parent);
    }
}

/// A call that goes on from an offset never goes back: the lines that it
/// gives are those of the whole directory from that place on, each with an
/// offset beyond the one asked for, so that no line comes twice.
pub proof fn lemma_readdir_goes_on(bridge: Bridge, ino: u64, offset: i64)
    requires
        bridge.well_formed(),
        bridge.is_dir(ino),
        bridge.inodes[ino - 1].listed,
        0 <= offset <= bridge.listing(ino).len(),
    ensures
        bridge.readdir(ino, offset) is Ok,
        bridge.readdir(ino, offset)->Ok_0 is Ready,
        ({
            let lines = bridge.readdir(ino, offset)->Ok_0->Ready_0;
            &&& bridge.listing(ino) == bridge.listing(ino).take(offset as int) + lines
            &&& forall|j: int|
                0 <= j < lines.len() ==> (#[trigger] lines[j]).offset == offset + j + 1
        }),
{
    let listing = bridge.listing(ino);
    let lines = listing.skip(offset as int);
    assert(listing =~= listing.take(offset as int) + lines);
    lemma_children_are_few(bridge, ino, bridge.inodes.len() as int);
}

/// A directory has no more entries than the table has inodes besides the
/// root.
pub proof fn lemma_children_are_few(bridge: Bridge, dir: u64, n: int)
    requires
        1 <= n,
    ensures
        bridge.children(dir, n).len() <= n - 1,
    decreases n,
{
    if n > 1 {
        lemma_children_are_few(bridge, dir, n - 1);
    }
}

/// The root directory is always there, as a directory with the inode
/// number one. A call for its lines from offset one on begins with `..`
/// and never gives `.` again.
pub proof fn lemma_root_directory(bridge: Bridge)
    requires
        bridge.well_formed(),
    ensures
        bridge.getattr(ROOT_INO) == Ok::<FileAttr, FsFailure>(root_dir_attr()),
        bridge.is_dir(ROOT_INO),
        bridge.inodes[0].listed ==> {
            let whole = bridge.readdir(ROOT_INO, 0)->Ok_0->Ready_0;
            let rest = bridge.readdir(ROOT_INO, 1)->Ok_0->Ready_0;
            &&& bridge.readdir(ROOT_INO, 0) is Ok && bridge.readdir(ROOT_INO, 0)->Ok_0 is Ready
            &&& bridge.readdir(ROOT_INO, 1) is Ok && bridge.readdir(ROOT_INO, 1)->Ok_0 is Ready
            &&& whole.len() >= 2
            &&& whole[0] == (Entry {
                ino: ROOT_INO,
                offset: 1,
                kind: FileType::Directory,
                name: seq![DOT],
            })
            &&& whole[1] == (Entry {
                ino: ROOT_INO,
                offset: 2,
                kind: FileType::Directory,
                name: seq![DOT, DOT],
            })
            &&& rest == whole.skip(1)
            &&& rest[0] == whole[1]
            &&& forall|j: int| 0 <= j < rest.len() ==> (#[trigger] rest[j]).offset > 1
        },
{
    if bridge.inodes[0].listed {
        lemma_readdir_goes_on(bridge, ROOT_INO, 0);
        lemma_readdir_goes_on(bridge, ROOT_INO, 1);
        let listing = bridge.listing(ROOT_INO);
        assert(listing.skip(0) =~= listing);
    }
}

} // verus!
