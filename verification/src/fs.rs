//! What the syscall layer knows of an open file.

use vstd::prelude::*;

verus! {

/// An open file, as far as the file syscalls read it.
#[derive(Copy, Clone, PartialEq, Eq, Structural, Debug)]
pub struct OpenFile {
    /// Whether the file may be read from.
    pub readable: bool,
    /// Whether the file may be written to.
    pub writable: bool,
    /// The number of the file's inode.
    pub id: u64,
    /// How many names the file has.
    pub links: u32,
}

/// The kind of a file.
#[derive(Copy, Clone, PartialEq, Eq, Structural, Debug)]
pub enum StatMode {
    /// No kind given.
    Null,
    /// A directory.
    Dir,
    /// An ordinary file.
    File,
}

/// What `fstat` tells of a file.
#[derive(Copy, Clone, PartialEq, Eq, Structural, Debug)]
pub struct Stat {
    /// The device that holds the file.
    pub dev: u64,
    /// The number of the file's inode.
    pub ino: u64,
    /// The kind of the file.
    pub mode: StatMode,
    /// How many names the file has.
    pub nlink: u32,
}

} // verus!
