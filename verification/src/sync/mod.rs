//! Mutual exclusion and counting semaphores that refuse to block into a cycle.

use vstd::prelude::*;

pub mod mutex;
pub mod semaphore;

pub use mutex::{Mutex, MutexBlocking, MutexBlockingInner, MutexSpin, MutexView};
pub use semaphore::{Semaphore, SemaphoreInner, SemaphoreView};

verus! {

/// What the scheduler is asked to do once an operation has returned.
#[derive(Copy, Clone, PartialEq, Eq, Structural, Debug)]
pub enum Action {
    /// Nothing: the caller goes on running.
    Continue,
    /// Give the processor up once and make the same call again.
    Yield,
    /// Take the caller off the ready set until another task wakes it.
    Block,
    /// Make the task with this id ready again.
    Wake(usize),
}

/// The status that an acquiring call hands to its caller, with what the
/// scheduler has to do before the caller sees it.
#[derive(Copy, Clone, PartialEq, Eq, Structural, Debug)]
pub struct Outcome {
    /// 0 once the resource is the caller's, [`crate::DEADLOCK`] where the
    /// call was refused.
    pub status: isize,
    /// What the scheduler does before the caller goes on.
    pub action: Action,
}

} // verus!
