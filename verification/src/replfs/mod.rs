//! The inode table built from the device's answers, and the file system
//! operations answered from it.

pub mod attr;
pub mod filesystem_status;
pub mod ilistdir_item;
pub mod literal;
pub mod model;

use crate::repl::{outcome_view, SessionError};
use attr::{make_entry_attr, root_dir_attr, FileAttr, FileType, ROOT_INO};
use filesystem_status::{status_of, FilesystemStatus};
use ilistdir_item::{item_of, IListDirItem, ListingItem};
use literal::{
    fields, same_bytes, split_fields, trim, trim_end_matches, trim_matches, ParseError,
    CLOSE_BRACKET, OPEN_BRACKET,
};
use model::{
    as_listed, content_code, inode_for, join, entry_at, listing_code, root_inode, statvfs_code,
    with_content, Bridge, Entry, FsFailure, Inode, Reply, DOT, MAX_INODES, SLASH,
};
use vstd::prelude::*;
use vstd::slice::{slice_subrange, slice_to_vec};

verus! {

/// What each entry of a list says, in order.
pub open spec fn item_views(items: Seq<IListDirItem>) -> Seq<ListingItem> {
    Seq::new(items.len(), |k: int| items[k]@)
}

/// The entries that a run of tuples states, or what is wrong with the first
/// tuple that states none.
pub open spec fn items_of(tuples: Seq<Seq<u8>>) -> Result<Seq<ListingItem>, ParseError>
    decreases tuples.len(),
{
    if tuples.len() == 0 {
        Ok(Seq::empty())
    } else {
        match items_of(tuples.drop_last()) {
            Err(e) => Err(e),
            Ok(items) => match item_of(tuples.last()) {
                Err(e) => Err(e),
                Ok(item) => Ok(items.push(item)),
            },
        }
    }
}

/// The entries that a directory listing states: tuples separated by a comma
/// and a space, with or without square brackets around them.
pub open spec fn listing_of(list: Seq<u8>) -> Result<Seq<ListingItem>, ParseError> {
    items_of(fields(trim(list, OPEN_BRACKET, CLOSE_BRACKET)))
}

/// Reads a directory listing.
pub fn parse_list(list_str: &[u8]) -> (list: Result<Vec<IListDirItem>, ParseError>)
    ensures
        match list {
            Ok(items) => listing_of(list_str@) == Ok::<Seq<ListingItem>, ParseError>(
                item_views(items@),
            ),
            Err(e) => listing_of(list_str@) == Err::<Seq<ListingItem>, ParseError>(e),
        },
{
    let inner = trim_matches(list_str, OPEN_BRACKET, CLOSE_BRACKET);
    let ranges = split_fields(inner);
    let ghost tuples = fields(inner@);
    let mut items: Vec<IListDirItem> = Vec::new();
    let mut k: usize = 0;
    proof {
        assert(item_views(items@) =~= Seq::<ListingItem>::empty());
        assert(tuples.subrange(0, 0).len() == 0);
    }
    while k < ranges.len()
        invariant
            k <= ranges@.len() == tuples.len(),
            inner@ == trim(list_str@, OPEN_BRACKET, CLOSE_BRACKET),
            tuples == fields(inner@),
            forall|j: int|
                0 <= j < ranges@.len() ==> {
                    &&& (#[trigger] ranges@[j]).0 <= ranges@[j].1 <= inner@.len()
                    &&& inner@.subrange(ranges@[j].0 as int, ranges@[j].1 as int) == tuples[j]
                },
            items_of(tuples.subrange(0, k as int)) == Ok::<Seq<ListingItem>, ParseError>(
                item_views(items@),
            ),
        decreases ranges@.len() - k,
    {
        let (first, last) = ranges[k];
        let ghost read = item_views(items@);
        proof {
            assert(tuples.subrange(0, k + 1).drop_last() == tuples.subrange(0, k as int));
            assert(tuples.subrange(0, k + 1).last() == tuples[k as int]);
        }
        match IListDirItem::try_from(slice_subrange(inner, first, last)) {
            Ok(item) => {
                items.push(item);
                proof {
                    assert(item_views(items@) =~= read.push(item@));
                }
            },
            Err(e) => {
                proof {
                    assert(item_of(tuples[k as int]) == Err::<ListingItem, ParseError>(e));
                    assert(items_of(tuples.subrange(0, k + 1)) == Err::<
                        Seq<ListingItem>,
                        ParseError,
                    >(e));
                    lemma_items_of_fails_on(tuples, k + 1);
                }
                return Err(e);
            },
        }
        k += 1;
    }
    proof {
        assert(tuples.subrange(0, tuples.len() as int) == tuples);
    }
    Ok(items)
}

/// A run of tuples fails as its first part does, where that part fails.
proof fn lemma_items_of_fails_on(tuples: Seq<Seq<u8>>, n: int)
    requires
        0 <= n <= tuples.len(),
        items_of(tuples.subrange(0, n)) is Err,
    ensures
        items_of(tuples) == items_of(tuples.subrange(0, n)),
    decreases tuples.len() - n,
{
    if n == tuples.len() {
        assert(tuples.subrange(0, n) == tuples);
    } else {
        assert(tuples.drop_last().subrange(0, n) == tuples.subrange(0, n));
        lemma_items_of_fails_on(tuples.drop_last(), n);
    }
}

} // verus!

verus! {

/// One file system object of the inode table.
pub struct File {
    path: Vec<u8>,
    attr: FileAttr,
    parent: u64,
    name: Vec<u8>,
    listed: bool,
    content: Option<Vec<u8>>,
}

impl View for File {
    type V = Inode;

    closed spec fn view(&self) -> Inode {
        Inode {
            path: self.path@,
            attr: self.attr,
            parent: self.parent,
            name: self.name@,
            listed: self.listed,
            content: match self.content {
                Some(bytes) => Some(bytes@),
                None => None,
            },
        }
    }
}

/// One line of a directory as the host sees it.
#[derive(Debug)]
pub struct DirEntry {
    pub ino: u64,
    /// The place after this entry, from which a later call goes on.
    pub offset: i64,
    pub kind: FileType,
    pub name: Vec<u8>,
}

impl View for DirEntry {
    type V = Entry;

    open spec fn view(&self) -> Entry {
        Entry { ino: self.ino, offset: self.offset, kind: self.kind, name: self.name@ }
    }
}

/// What each line of a directory says, in order.
pub open spec fn entry_views(entries: Seq<DirEntry>) -> Seq<Entry> {
    Seq::new(entries.len(), |k: int| entries[k]@)
}

/// Why a file system operation has no result.
#[derive(Debug)]
pub enum FsError {
    /// There is no such object, or it is not of the kind asked for.
    NotFound,
    /// The device's answer is malformed.
    Parse(ParseError),
    /// The device gave no answer.
    Session(SessionError),
    /// The inode table has no room for the entries.
    TableFull,
}

impl View for FsError {
    type V = FsFailure;

    open spec fn view(&self) -> FsFailure {
        match self {
            FsError::NotFound => FsFailure::NotFound,
            FsError::Parse(e) => FsFailure::Parse(*e),
            FsError::Session(e) => FsFailure::Session(e@),
            FsError::TableFull => FsFailure::TableFull,
        }
    }
}

/// What the result of a change to the bridge says.
pub open spec fn done_view(done: Result<(), FsError>) -> Result<(), FsFailure> {
    match done {
        Ok(()) => Ok(()),
        Err(e) => Err(e@),
    }
}

/// The answer to a file system operation: the result, or the code whose
/// result the bridge needs from the device before it can tell.
#[derive(Debug)]
pub enum Answer<T> {
    Ready(T),
    Fetch(Vec<u8>),
}

/// The inode table and the statistics of the device's volume.
pub struct ReplFS {
    inodes: Vec<File>,
    filesystem_status: Option<FilesystemStatus>,
    malformed: Option<ParseError>,
}

impl View for ReplFS {
    type V = Bridge;

    closed spec fn view(&self) -> Bridge {
        Bridge {
            inodes: Seq::new(self.inodes@.len(), |k: int| self.inodes@[k]@),
            filesystem_status: self.filesystem_status,
            malformed: self.malformed,
        }
    }
}

/// The code that asks the device for the entries of the directory at `path`.
pub fn listing_command(path: &[u8]) -> (code: Vec<u8>)
    ensures
        code@ == listing_code(path@),
{
    let mut code = slice_to_vec("list(os.ilistdir(\"".as_bytes());
    code.extend_from_slice(path);
    code.extend_from_slice("\"))".as_bytes());
    code
}

/// The code that asks the device for the content of the file at `path`.
pub fn content_command(path: &[u8]) -> (code: Vec<u8>)
    ensures
        code@ == content_code(path@),
{
    let mut code = slice_to_vec("open(\"".as_bytes());
    code.extend_from_slice(path);
    code.extend_from_slice("\").read()".as_bytes());
    code
}

/// The path of `name` in the directory at `dir`.
pub fn child_path(dir: &[u8], name: &[u8]) -> (path: Vec<u8>)
    ensures
        path@ == join(dir@, name@),
{
    let mut path = slice_to_vec(trim_end_matches(dir, SLASH, SLASH));
    path.push(SLASH);
    path.extend_from_slice(name);
    path
}

impl ReplFS {
    /// A bridge that knows the root directory and nothing else.
    pub fn new() -> (fs: ReplFS)
        ensures
            fs@ == Bridge::fresh(),
            fs@.well_formed(),
    {
        let mut path: Vec<u8> = Vec::new();
        path.push(SLASH);
        let mut inodes: Vec<File> = Vec::new();
        inodes.push(
            File {
                path,
                attr: root_dir_attr(),
                parent: ROOT_INO,
                name: Vec::new(),
                listed: false,
                content: None,
            },
        );
        let fs = ReplFS { inodes, filesystem_status: None, malformed: None };
        proof {
            assert(fs.inodes@[0]@.path =~= seq![SLASH]);
            assert(fs.inodes@[0]@.name =~= Seq::<u8>::empty());
            assert(fs@.inodes =~= seq![root_inode()]);
        }
        fs
    }

    /// The code that asks the device for the statistics of its volume.
    pub fn vfs_info_command() -> (code: Vec<u8>)
        ensures
            code@ == statvfs_code(),
    {
        slice_to_vec("os.statvfs()".as_bytes())
    }

    /// Whether the statistics of the volume are known.
    pub fn is_started(&self) -> (started: bool)
        ensures
            started == self@.filesystem_status is Some,
    {
        self.filesystem_status.is_some()
    }

    /// The statistics of the volume, once they are known.
    pub fn filesystem_status(&self) -> (status: Option<FilesystemStatus>)
        ensures
            status == self@.filesystem_status,
    {
        self.filesystem_status
    }

    /// The number of inodes in the table.
    pub fn inode_count(&self) -> (count: usize)
        ensures
            count == self@.inodes.len(),
    {
        self.inodes.len()
    }

    /// Takes the device's answer to [`ReplFS::vfs_info_command`]. This
    /// comes before any other operation. A malformed answer is fatal to
    /// the bridge.
    pub fn start(&mut self, response: Result<Vec<u8>, SessionError>) -> (done: Result<(), FsError>)
        requires
            old(self)@.well_formed(),
        ensures
            final(self)@.well_formed(),
            (final(self)@, done_view(done)) == old(self)@.after_status(outcome_view(response)),
    {
        if self.filesystem_status.is_some() {
            return Ok(());
        }
        if let Some(e) = self.malformed {
            return Err(FsError::Parse(e));
        }
        match ReplFS::get_vfs_info(response) {
            Ok(status) => {
                self.filesystem_status = Some(status);
                Ok(())
            },
            Err(FsError::Parse(e)) => {
                self.malformed = Some(e);
                Err(FsError::Parse(e))
            },
            Err(e) => Err(e),
        }
    }

    /// The statistics that the device's answer states.
    fn get_vfs_info(response: Result<Vec<u8>, SessionError>) -> (status: Result<
        FilesystemStatus,
        FsError,
    >)
        ensures
            match status {
                Ok(s) => outcome_view(response) is Ok && status_of(outcome_view(response)->Ok_0)
                    == Ok::<FilesystemStatus, ParseError>(s),
                Err(e) => match outcome_view(response) {
                    Err(failure) => e@ == FsFailure::Session(failure),
                    Ok(payload) => status_of(payload) is Err && e@ == FsFailure::Parse(
                        status_of(payload)->Err_0,
                    ),
                },
            },
    {
        match response {
            Err(e) => Err(FsError::Session(e)),
            Ok(payload) => match FilesystemStatus::try_from(payload.as_slice()) {
                Ok(status) => Ok(status),
                Err(e) => Err(FsError::Parse(e)),
            },
        }
    }

    /// The attributes of the inode `ino`.
    pub fn getattr(&self, ino: u64) -> (attr: Result<FileAttr, FsError>)
        ensures
            match attr {
                Ok(a) => self@.getattr(ino) == Ok::<FileAttr, FsFailure>(a),
                Err(e) => self@.getattr(ino) == Err::<FileAttr, FsFailure>(e@),
            },
    {
        if ino >= 1 && ino <= self.inodes.len() as u64 {
            Ok(self.inodes[(ino - 1) as usize].attr)
        } else {
            Err(FsError::NotFound)
        }
    }
}

} // verus!

verus! {

impl ReplFS {
    /// Takes the device's answer to the request for the entries of the
    /// directory `dir`, and appends them to the table. The statistics of
    /// the volume must be known.
    pub fn build_inodes(&mut self, dir: u64, response: Result<Vec<u8>, SessionError>) -> (done:
        Result<(), FsError>)
        requires
            old(self)@.well_formed(),
            old(self)@.filesystem_status is Some,
        ensures
            final(self)@.well_formed(),
            (final(self)@, done_view(done)) == old(self)@.after_listing(dir, outcome_view(response)),
    {
        if dir < 1 || dir > self.inodes.len() as u64 {
            return Err(FsError::NotFound);
        }
        let index = (dir - 1) as usize;
        match self.inodes[index].attr.kind {
            FileType::Directory => {},
            FileType::RegularFile => {
                return Err(FsError::NotFound);
            },
        }
        if self.inodes[index].listed {
            return Ok(());
        }
        let payload = match response {
            Ok(payload) => payload,
            Err(e) => {
                return Err(FsError::Session(e));
            },
        };
        let items = match parse_list(payload.as_slice()) {
            Ok(items) => items,
            Err(e) => {
                return Err(FsError::Parse(e));
            },
        };
        let count = self.inodes.len();
        if items.len() as u64 > MAX_INODES - count as u64 {
            return Err(FsError::TableFull);
        }
        let bsize = match self.filesystem_status {
            Some(status) => status.bsize,
            None => 0,
        };
        let dir_path = slice_to_vec(self.inodes[index].path.as_slice());
        let ghost before = self@;
        let ghost listed = before.inodes.update(index as int, as_listed(before.inodes[index as int]));
        let ghost said = item_views(items@);
        self.inodes[index].listed = true;
        proof {
            assert(self@.inodes =~= listed);
        }
        let mut k: usize = 0;
        while k < items.len()
            invariant
                k <= items@.len(),
                count + items@.len() <= MAX_INODES,
                count == old(self)@.inodes.len(),
                1 <= dir <= count,
                said == item_views(items@),
                listed.len() == count,
                dir_path@ == before.inodes[dir - 1].path,
                bsize == before.bsize(),
                self@.filesystem_status == before.filesystem_status,
                self@.malformed == before.malformed,
                self@.inodes == listed + Seq::new(
                    k as nat,
                    |j: int| inode_for(said[j], (count + j + 1) as u64, dir, dir_path@, bsize),
                ),
            decreases items@.len() - k,
        {
            let item = &items[k];
            let ghost held = self@.inodes;
            let file = File {
                path: child_path(dir_path.as_slice(), item.name.as_slice()),
                attr: make_entry_attr(
                    count as u64 + k as u64 + 1,
                    item.item_type,
                    item.size,
                    bsize,
                ),
                parent: dir,
                name: slice_to_vec(item.name.as_slice()),
                listed: false,
                content: None,
            };
            proof {
                assert(file@ == inode_for(said[k as int], (count + k + 1) as u64, dir, dir_path@, bsize));
            }
            self.inodes.push(file);
            proof {
                assert(self@.inodes =~= held.push(file@));
                assert(self@.inodes =~= listed + Seq::new(
                    (k + 1) as nat,
                    |j: int| inode_for(said[j], (count + j + 1) as u64, dir, dir_path@, bsize),
                ));
            }
            k += 1;
        }
        proof {
            assert(self@.inodes =~= before.expand(dir, said).inodes);
            model::lemma_expand_keeps_well_formed(before, dir, said);
        }
        Ok(())
    }

    /// Takes the device's answer to the request for the content of the file
    /// `ino`, and keeps it.
    pub fn store_content(&mut self, ino: u64, response: Result<Vec<u8>, SessionError>) -> (done:
        Result<(), FsError>)
        requires
            old(self)@.well_formed(),
        ensures
            final(self)@.well_formed(),
            (final(self)@, done_view(done)) == old(self)@.after_content(ino, outcome_view(response)),
    {
        if ino < 1 || ino > self.inodes.len() as u64 {
            return Err(FsError::NotFound);
        }
        let index = (ino - 1) as usize;
        match self.inodes[index].attr.kind {
            FileType::RegularFile => {},
            FileType::Directory => {
                return Err(FsError::NotFound);
            },
        }
        if self.inodes[index].content.is_some() {
            return Ok(());
        }
        match response {
            Err(e) => Err(FsError::Session(e)),
            Ok(payload) => {
                let ghost before = self@;
                self.inodes[index].content = Some(payload);
                proof {
                    assert(self@.inodes =~= before.inodes.update(
                        index as int,
                        with_content(before.inodes[index as int], payload@),
                    ));
                    model::lemma_content_keeps_well_formed(before, ino, payload@);
                }
                Ok(())
            },
        }
    }

    /// The attributes of the entry of the directory `parent` named `name`,
    /// or the code that fetches the directory's entries where the table
    /// does not hold them yet.
    pub fn lookup(&self, parent: u64, name: &[u8]) -> (answer: Result<Answer<FileAttr>, FsError>)
        ensures
            match answer {
                Ok(Answer::Ready(attr)) => self@.lookup(parent, name@) == Ok::<
                    Reply<FileAttr>,
                    FsFailure,
                >(Reply::Ready(attr)),
                Ok(Answer::Fetch(code)) => self@.lookup(parent, name@) == Ok::<
                    Reply<FileAttr>,
                    FsFailure,
                >(Reply::Fetch(code@)),
                Err(e) => self@.lookup(parent, name@) == Err::<Reply<FileAttr>, FsFailure>(e@),
            },
    {
        if parent < 1 || parent > self.inodes.len() as u64 {
            return Err(FsError::NotFound);
        }
        let dir = &self.inodes[(parent - 1) as usize];
        match dir.attr.kind {
            FileType::Directory => {},
            FileType::RegularFile => {
                return Err(FsError::NotFound);
            },
        }
        if !dir.listed {
            return Ok(Answer::Fetch(listing_command(dir.path.as_slice())));
        }
        let mut i: usize = 1;
        while i < self.inodes.len()
            invariant
                1 <= i <= self.inodes@.len(),
                self@.is_dir(parent),
                self@.inodes[parent - 1].listed,
                self@.find_child(parent, name@, 1) == self@.find_child(parent, name@, i as int),
            decreases self.inodes@.len() - i,
        {
            let file = &self.inodes[i];
            if file.parent == parent && same_bytes(file.name.as_slice(), name) {
                proof {
                    assert(self@.inodes[i as int] == file@);
                }
                return Ok(Answer::Ready(file.attr));
            }
            proof {
                assert(self@.inodes[i as int] == file@);
            }
            i += 1;
        }
        Err(FsError::NotFound)
    }

    /// The bytes of the file `ino` that a read of `size` bytes at `offset`
    /// gives, or the code that fetches the file's content where the bridge
    /// does not hold it yet.
    pub fn read(&self, ino: u64, offset: i64, size: u32) -> (answer: Result<Answer<Vec<u8>>, FsError>)
        ensures
            match answer {
                Ok(Answer::Ready(bytes)) => self@.read(ino, offset, size) == Ok::<
                    Reply<Seq<u8>>,
                    FsFailure,
                >(Reply::Ready(bytes@)),
                Ok(Answer::Fetch(code)) => self@.read(ino, offset, size) == Ok::<
                    Reply<Seq<u8>>,
                    FsFailure,
                >(Reply::Fetch(code@)),
                Err(e) => self@.read(ino, offset, size) == Err::<Reply<Seq<u8>>, FsFailure>(e@),
            },
    {
        if ino < 1 || ino > self.inodes.len() as u64 {
            return Err(FsError::NotFound);
        }
        let file = &self.inodes[(ino - 1) as usize];
        match file.attr.kind {
            FileType::RegularFile => {},
            FileType::Directory => {
                return Err(FsError::NotFound);
            },
        }
        match &file.content {
            None => Ok(Answer::Fetch(content_command(file.path.as_slice()))),
            Some(content) => {
                if offset < 0 || offset as u64 >= content.len() as u64 {
                    return Ok(Answer::Ready(Vec::new()));
                }
                let first = offset as usize;
                let last = if size as u64 <= (content.len() - first) as u64 {
                    first + size as usize
                } else {
                    content.len()
                };
                Ok(Answer::Ready(slice_to_vec(slice_subrange(content.as_slice(), first, last))))
            },
        }
    }

    /// The lines of the directory `ino` from `offset` on, or the code that
    /// fetches the directory's entries where the table does not hold them
    /// yet.
    pub fn readdir(&self, ino: u64, offset: i64) -> (answer: Result<Answer<Vec<DirEntry>>, FsError>)
        requires
            self@.well_formed(),
        ensures
            match answer {
                Ok(Answer::Ready(entries)) => self@.readdir(ino, offset) == Ok::<
                    Reply<Seq<Entry>>,
                    FsFailure,
                >(Reply::Ready(entry_views(entries@))),
                Ok(Answer::Fetch(code)) => self@.readdir(ino, offset) == Ok::<
                    Reply<Seq<Entry>>,
                    FsFailure,
                >(Reply::Fetch(code@)),
                Err(e) => self@.readdir(ino, offset) == Err::<Reply<Seq<Entry>>, FsFailure>(e@),
            },
    {
        if ino < 1 || ino > self.inodes.len() as u64 {
            return Err(FsError::NotFound);
        }
        let dir = &self.inodes[(ino - 1) as usize];
        match dir.attr.kind {
            FileType::Directory => {},
            FileType::RegularFile => {
                return Err(FsError::NotFound);
            },
        }
        if !dir.listed {
            return Ok(Answer::Fetch(listing_command(dir.path.as_slice())));
        }
        let mut entries: Vec<DirEntry> = Vec::new();
        if offset < 0 {
            proof {
                assert(entry_views(entries@) =~= Seq::<Entry>::empty());
            }
            return Ok(Answer::Ready(entries));
        }
        let skip = offset as u64;
        let ghost first = self@.members(ino, 1);
        proof {
            assert(self@.children(ino, 1) =~= Seq::empty());
            assert(first.len() == 2);
        }
        if skip == 0 {
            let mut name: Vec<u8> = Vec::new();
            name.push(DOT);
            proof {
                assert(name@ =~= seq![DOT]);
            }
            entries.push(DirEntry { ino, offset: 1, kind: FileType::Directory, name });
        }
        if skip <= 1 {
            let mut name: Vec<u8> = Vec::new();
            name.push(DOT);
            name.push(DOT);
            proof {
                assert(name@ =~= seq![DOT, DOT]);
            }
            entries.push(DirEntry { ino: dir.parent, offset: 2, kind: FileType::Directory, name });
        }
        let mut position: u64 = 2;
        let mut i: usize = 1;
        while i < self.inodes.len()
            invariant
                1 <= i <= self.inodes@.len() <= MAX_INODES,
                self@.is_dir(ino),
                skip == offset,
                position == self@.members(ino, i as int).len(),
                position <= i + 1,
                entries@.len() == (if position > skip {
                    position - skip
                } else {
                    0
                }),
                forall|j: int|
                    0 <= j < entries@.len() ==> (#[trigger] entries@[j])@ == entry_at(
                        self@.members(ino, i as int),
                        skip + j,
                    ),
            decreases self.inodes@.len() - i,
        {
            let file = &self.inodes[i];
            let ghost earlier = self@.members(ino, i as int);
            let ghost held = entries@;
            proof {
                assert(self@.inodes[i as int] == file@);
                assert forall|k: int| 0 <= k < earlier.len() implies self@.members(ino, i + 1)[k]
                    == earlier[k] by {}
            }
            if file.parent == ino {
                if position >= skip {
                    entries.push(
                        DirEntry {
                            ino: file.attr.ino,
                            offset: (position + 1) as i64,
                            kind: file.attr.kind,
                            name: slice_to_vec(file.name.as_slice()),
                        },
                    );
                }
                position += 1;
            }
            proof {
                assert forall|j: int| 0 <= j < entries@.len() implies (#[trigger] entries@[j])@
                    == entry_at(self@.members(ino, i + 1), skip + j) by {
                    if j < held.len() {
                        assert(entries@[j] == held[j]);
                    }
                }
            }
            i += 1;
        }
        proof {
            let listing = self@.listing(ino);
            if offset <= listing.len() {
                assert(entry_views(entries@) =~= listing.skip(offset as int));
            } else {
                assert(entry_views(entries@) =~= Seq::<Entry>::empty());
            }
        }
        Ok(Answer::Ready(entries))
    }
}

} // verus!

verus! {

/// How a failure is signalled to the host.
#[derive(Clone, Copy, Debug, PartialEq, Eq, Structural)]
pub enum Signal {
    /// There is no such file or directory.
    NotFound,
    /// Input or output failed.
    Io,
}

impl FsError {
    /// The signal that tells the host of this failure: a missing object is
    /// reported as not found, and every other failure as an input/output
    /// error.
    pub fn signal(&self) -> (signal: Signal)
        ensures
            signal == (if self@ is NotFound {
                Signal::NotFound
            } else {
                Signal::Io
            }),
    {
        match self {
            FsError::NotFound => Signal::NotFound,
            _ => Signal::Io,
        }
    }
}

} // verus!
