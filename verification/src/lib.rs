//! Synchronisation primitives of a small cooperative kernel, with deadlock
//! detection over the wait-for graph, stated and proved in Verus.

use vstd::prelude::*;

pub mod config;
pub mod fs;
pub mod graph;
pub mod kernel;
pub mod laws;
pub mod sync;
pub mod syscall;
pub mod task;

verus! {

/// Status code that `lock` and `down` return when blocking would close a cycle.
pub const DEADLOCK: isize = -0xdead;

} // verus!
