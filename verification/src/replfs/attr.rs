//! What the host is told about a file: its kind and its attributes.

use vstd::prelude::*;

verus! {

/// The kind of a file system object.
#[derive(Clone, Copy, Debug, PartialEq, Eq, Structural)]
pub enum FileType {
    Directory,
    RegularFile,
}

/// A point in time: seconds and nanoseconds since the epoch.
#[derive(Clone, Copy, Debug, PartialEq, Eq, Structural)]
pub struct Timespec {
    pub sec: i64,
    pub nsec: i32,
}

/// The attributes of one file system object.
#[derive(Clone, Copy, Debug, PartialEq, Eq, Structural)]
pub struct FileAttr {
    /// Inode number.
    pub ino: u64,
    /// Size in bytes.
    pub size: u64,
    /// Size in blocks.
    pub blocks: u64,
    /// Time of last access.
    pub atime: Timespec,
    /// Time of last modification.
    pub mtime: Timespec,
    /// Time of last change.
    pub ctime: Timespec,
    /// Time of creation.
    pub crtime: Timespec,
    /// Kind of file.
    pub kind: FileType,
    /// Permissions.
    pub perm: u16,
    /// Number of hard links.
    pub nlink: u32,
    /// User id.
    pub uid: u32,
    /// Group id.
    pub gid: u32,
    /// Rdev.
    pub rdev: u32,
    /// Flags.
    pub flags: u32,
}

/// The inode number of the root directory.
pub const ROOT_INO: u64 = 1;

/// The permissions that every object is shown with.
pub const PERMISSIONS: u16 = 0o755;

/// The owner that every object is shown with.
pub const OWNER_UID: u32 = 501;

/// The group that every object is shown with.
pub const OWNER_GID: u32 = 20;

/// The start of the epoch, which stands for every time stamp.
#[verifier::allow_in_spec]
pub fn epoch() -> Timespec
    returns
        (Timespec { sec: 0, nsec: 0 }),
{
    Timespec { sec: 0, nsec: 0 }
}

/// How long the host may keep an answer: one second.
#[verifier::allow_in_spec]
pub fn ttl() -> Timespec
    returns
        (Timespec { sec: 1, nsec: 0 }),
{
    Timespec { sec: 1, nsec: 0 }
}

/// The attributes of the root directory.
#[verifier::allow_in_spec]
pub fn root_dir_attr() -> FileAttr
    returns
        (FileAttr {
            ino: ROOT_INO,
            size: 0,
            blocks: 0,
            atime: epoch(),
            mtime: epoch(),
            ctime: epoch(),
            crtime: epoch(),
            kind: FileType::Directory,
            perm: PERMISSIONS,
            nlink: 2,
            uid: OWNER_UID,
            gid: OWNER_GID,
            rdev: 0,
            flags: 0,
        }),
{
    FileAttr {
        ino: ROOT_INO,
        size: 0,
        blocks: 0,
        atime: epoch(),
        mtime: epoch(),
        ctime: epoch(),
        crtime: epoch(),
        kind: FileType::Directory,
        perm: PERMISSIONS,
        nlink: 2,
        uid: OWNER_UID,
        gid: OWNER_GID,
        rdev: 0,
        flags: 0,
    }
}

/// The number of blocks of `bsize` bytes that `size` bytes take: the
/// quotient rounded up, and none where the block size is unknown.
pub open spec fn blocks_for(size: u64, bsize: u64) -> int {
    if bsize == 0 {
        0
    } else {
        (size + bsize - 1) / (bsize as int)
    }
}

/// The attributes of an object that a directory listing names.
pub open spec fn entry_attr(ino: u64, kind: FileType, size: Option<u64>, bsize: u64) -> FileAttr {
    let bytes = match size {
        Some(n) => n,
        None => 0,
    };
    FileAttr {
        ino,
        size: bytes,
        blocks: blocks_for(bytes, bsize) as u64,
        atime: epoch(),
        mtime: epoch(),
        ctime: epoch(),
        crtime: epoch(),
        kind,
        perm: PERMISSIONS,
        nlink: 1,
        uid: OWNER_UID,
        gid: OWNER_GID,
        rdev: 0,
        flags: 0,
    }
}

/// The number of blocks of `bsize` bytes that `size` bytes take.
pub fn block_count(size: u64, bsize: u64) -> (blocks: u64)
    ensures
        blocks == blocks_for(size, bsize),
{
    if bsize == 0 {
        0
    } else {
        let whole = size / bsize;
        let rest = size % bsize;
        proof {
            lemma_blocks(size as int, bsize as int);
        }
        if rest == 0 {
            whole
        } else {
            whole + 1
        }
    }
}

/// Rounding a quotient up, by cases on the remainder.
proof fn lemma_blocks(size: int, bsize: int)
    requires
        0 <= size,
        0 < bsize,
    ensures
        size % bsize == 0 ==> (size + bsize - 1) / bsize == size / bsize,
        size % bsize != 0 ==> (size + bsize - 1) / bsize == size / bsize + 1,
        size % bsize != 0 ==> size / bsize < size,
{
    let q = size / bsize;
    let r = size % bsize;
    assert(size == q * bsize + r && 0 <= r < bsize) by (nonlinear_arith)
        requires
            q == size / bsize,
            r == size % bsize,
            0 < bsize,
    ;
    if r == 0 {
        assert((q * bsize + bsize - 1) / bsize == q) by (nonlinear_arith)
            requires
                0 < bsize,
        ;
    } else {
        assert((q * bsize + r + bsize - 1) / bsize == q + 1) by (nonlinear_arith)
            requires
                0 < bsize,
                0 < r < bsize,
        ;
        assert(q < q * bsize + r) by (nonlinear_arith)
            requires
                0 < bsize,
                0 < r,
                0 <= q,
        ;
    }
}

/// The attributes of an object that a directory listing names.
pub fn make_entry_attr(ino: u64, kind: FileType, size: Option<u64>, bsize: u64) -> (attr: FileAttr)
    ensures
        attr == entry_attr(ino, kind, size, bsize),
{
    let bytes = match size {
        Some(n) => n,
        None => 0,
    };
    FileAttr {
        ino,
        size: bytes,
        blocks: block_count(bytes, bsize),
        atime: epoch(),
        mtime: epoch(),
        ctime: epoch(),
        crtime: epoch(),
        kind,
        perm: PERMISSIONS,
        nlink: 1,
        uid: OWNER_UID,
        gid: OWNER_GID,
        rdev: 0,
        flags: 0,
    }
}

} // verus!
