//! Fixed attributes of the tree's nodes and the placeholder content of files.

use vstd::prelude::*;
use crate::tree::ROOT_INO;

verus! {

/// The two kinds of node in the tree.
#[derive(Clone, Copy, Debug, PartialEq, Eq, Structural)]
pub enum FileKind {
    Directory,
    RegularFile,
}

/// The attributes reported for a node. Every timestamp is the Unix epoch.
#[derive(Clone, Copy, Debug, PartialEq, Eq, Structural)]
pub struct FileAttr {
    pub ino: u64,
    pub size: u64,
    pub blocks: u64,
    pub kind: FileKind,
    pub perm: u16,
    pub nlink: u32,
    pub uid: u32,
    pub gid: u32,
    pub rdev: u32,
    pub flags: u32,
}

/// The size declared for every file: the longest placeholder content.
pub const FILE_SIZE: u64 = 32;

/// Owner and group of every node.
pub const OWNER_ID: u32 = 1000;

pub open spec fn root_attr() -> FileAttr {
    FileAttr {
        ino: ROOT_INO,
        size: 0,
        blocks: 0,
        kind: FileKind::Directory,
        perm: 0o755,
        nlink: 2,
        uid: OWNER_ID,
        gid: OWNER_ID,
        rdev: 0,
        flags: 0,
    }
}

pub open spec fn dir_attr(ino: u64) -> FileAttr {
    FileAttr {
        ino,
        size: 0,
        blocks: 1,
        kind: FileKind::Directory,
        perm: 0o755,
        nlink: 1,
        uid: OWNER_ID,
        gid: OWNER_ID,
        rdev: ino as u32,
        flags: 0,
    }
}

pub open spec fn file_attr(ino: u64) -> FileAttr {
    FileAttr {
        ino,
        size: FILE_SIZE,
        blocks: 1,
        kind: FileKind::RegularFile,
        perm: 0o644,
        nlink: 1,
        uid: OWNER_ID,
        gid: OWNER_ID,
        rdev: ino as u32,
        flags: 0,
    }
}

/// The attributes of the mount root.
pub fn root_dir_attr() -> (r: FileAttr)
    ensures
        r == root_attr(),
{
    FileAttr {
        ino: ROOT_INO,
        size: 0,
        blocks: 0,
        kind: FileKind::Directory,
        perm: 0o755,
        nlink: 2,
        uid: OWNER_ID,
        gid: OWNER_ID,
        rdev: 0,
        flags: 0,
    }
}

/// The attributes of a tag directory.
pub fn create_dir_attr(ino: u64) -> (r: FileAttr)
    ensures
        r == dir_attr(ino),
{
    FileAttr {
        ino,
        size: 0,
        blocks: 1,
        kind: FileKind::Directory,
        perm: 0o755,
        nlink: 1,
        uid: OWNER_ID,
        gid: OWNER_ID,
        rdev: #[verifier::truncate] (ino as u32),
        flags: 0,
    }
}

/// The attributes of an asset file.
pub fn create_file_attr(ino: u64) -> (r: FileAttr)
    ensures
        r == file_attr(ino),
{
    FileAttr {
        ino,
        size: FILE_SIZE,
        blocks: 1,
        kind: FileKind::RegularFile,
        perm: 0o644,
        nlink: 1,
        uid: OWNER_ID,
        gid: OWNER_ID,
        rdev: #[verifier::truncate] (ino as u32),
        flags: 0,
    }
}

/// ASCII decimal digits of `n`, most significant first, without leading zeros.
pub open spec fn decimal(n: nat) -> Seq<u8>
    decreases n,
{
    if n < 10 {
        seq![(48 + n) as u8]
    } else {
        decimal(n / 10).push((48 + n % 10) as u8)
    }
}

/// The text that opens every placeholder: `HelloWorld-` in ASCII.
pub open spec fn placeholder_prefix() -> Seq<u8> {
    seq![72u8, 101, 108, 108, 111, 87, 111, 114, 108, 100, 45]
}

/// The placeholder content of file `ino`: `HelloWorld-<ino>` and a newline.
pub open spec fn placeholder(ino: u64) -> Seq<u8> {
    placeholder_prefix() + decimal(ino as nat) + seq![10u8]
}

/// The decimal digits of `n`.
pub fn decimal_digits(n: u64) -> (r: Vec<u8>)
    ensures
        r@ == decimal(n as nat),
    decreases n,
{
    if n < 10 {
        let mut v: Vec<u8> = Vec::new();
        v.push(48 + n as u8);
        v
    } else {
        let mut v = decimal_digits(n / 10);
        v.push(48 + (n % 10) as u8);
        v
    }
}

/// The placeholder content of file `ino`.
pub fn placeholder_content(ino: u64) -> (r: Vec<u8>)
    ensures
        r@ == placeholder(ino),
{
    let mut v: Vec<u8> = vec![72u8, 101, 108, 108, 111, 87, 111, 114, 108, 100, 45];
    assert(v@ == placeholder_prefix());
    let mut digits = decimal_digits(ino);
    v.append(&mut digits);
    v.push(10u8);
    v
}

} // verus!
