//! The syscalls, as far as they decide anything: what they count, check and
//! answer before and after the file system, the memory manager or the
//! scheduler has done its part.

use crate::fs::OpenFile;
use vstd::prelude::*;

pub mod fs;
pub mod process;

verus! {

/// The number of `unlinkat`.
pub const SYSCALL_UNLINKAT: usize = 35;

/// The number of `linkat`.
pub const SYSCALL_LINKAT: usize = 37;

/// The number of `open`.
pub const SYSCALL_OPEN: usize = 56;

/// The number of `close`.
pub const SYSCALL_CLOSE: usize = 57;

/// The number of `read`.
pub const SYSCALL_READ: usize = 63;

/// The number of `write`.
pub const SYSCALL_WRITE: usize = 64;

/// The number of `fstat`.
pub const SYSCALL_FSTAT: usize = 80;

/// The number of `exit`.
pub const SYSCALL_EXIT: usize = 93;

/// The number of `yield`.
pub const SYSCALL_YIELD: usize = 124;

/// The number of `get_time`.
pub const SYSCALL_GET_TIME: usize = 169;

/// The number of `task_info`.
pub const SYSCALL_TASK_INFO: usize = 410;

/// What a file syscall has decided: its answer, or what the file system is
/// asked to do, whose result is then the answer.
#[derive(Copy, Clone, PartialEq, Eq, Structural, Debug)]
pub enum FileRequest {
    /// The call is answered with this value.
    Done(isize),
    /// Read from this file into the caller's buffer.
    Read(OpenFile),
    /// Write the caller's buffer to this file.
    Write(OpenFile),
    /// Give the file of the old name the new name as well.
    Link,
    /// Take the name from its file.
    Unlink,
}

} // verus!
