//! The kernel's fixed sizes.

use vstd::prelude::*;

verus! {

/// One more than the largest syscall number.
pub const MAX_SYSCALL_NUM: usize = 500;

/// The size of a page of memory, in bytes.
pub const PAGE_SIZE: usize = 4096;

} // verus!
