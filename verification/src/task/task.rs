//! The task control block and its mathematical view.

use crate::fs::OpenFile;
use crate::kernel::{first_place, lemma_first_place};
use vstd::prelude::*;

verus! {

/// Where a task stands in its life cycle.
#[derive(Copy, Clone, PartialEq, Eq, Structural, Debug)]
pub enum TaskStatus {
    /// Not yet initialised.
    UnInit,
    /// Ready to run.
    Ready,
    /// Running on the processor.
    Running,
    /// Waiting for a mutex or a semaphore.
    Blocked,
    /// Finished.
    Exited,
}

/// How often one syscall was made. A record whose `id` is 0 is a free slot.
#[derive(Copy, Clone, PartialEq, Eq, Structural, Debug)]
pub struct SyscallInfo {
    /// The syscall's number.
    pub id: usize,
    /// How many times it was called.
    pub times: u32,
}

/// What the kernel keeps for each task.
#[derive(Clone, Debug)]
pub struct TaskControlBlock {
    /// The task's identity, by which mutexes and semaphores name it.
    pub id: usize,
    /// The task's status in its life cycle.
    pub task_status: TaskStatus,
    /// When the task first ran, in milliseconds.
    pub task_launch_time: usize,
    /// The syscalls the task has made so far.
    pub task_syscall_times: Vec<SyscallInfo>,
    /// The ids of the blocking mutexes the task holds or waits for; a vacated
    /// slot is `None`.
    pub block_mutex_list: Vec<Option<usize>>,
    /// The ids of the semaphores the task holds a unit of; a vacated slot is
    /// `None`.
    pub sema_list: Vec<Option<usize>>,
    /// The task's open files by descriptor; a closed descriptor is `None`.
    pub fd_table: Vec<Option<OpenFile>>,
    /// The code the task exited with.
    pub exit_code: i32,
}

/// The mathematical value of a [`TaskControlBlock`].
pub struct TaskView {
    pub id: usize,
    pub status: TaskStatus,
    pub launch_time: usize,
    pub syscalls: Seq<SyscallInfo>,
    pub mutexes: Seq<Option<usize>>,
    pub semaphores: Seq<Option<usize>>,
    pub files: Seq<Option<OpenFile>>,
    pub exit_code: i32,
}

impl View for TaskControlBlock {
    type V = TaskView;

    open spec fn view(&self) -> TaskView {
        TaskView {
            id: self.id,
            status: self.task_status,
            launch_time: self.task_launch_time,
            syscalls: self.task_syscall_times@,
            mutexes: self.block_mutex_list@,
            semaphores: self.sema_list@,
            files: self.fd_table@,
            exit_code: self.exit_code,
        }
    }
}

impl TaskControlBlock {
    /// A task that has not run yet: no syscall recorded, nothing held,
    /// no file open.
    pub fn init() -> (task: Self)
        ensures
            task@ == (TaskView {
                id: 0,
                status: TaskStatus::UnInit,
                launch_time: 0,
                syscalls: Seq::empty(),
                mutexes: Seq::empty(),
                semaphores: Seq::empty(),
                files: Seq::empty(),
                exit_code: 0,
            }),
    {
        TaskControlBlock {
            id: 0,
            task_status: TaskStatus::UnInit,
            task_launch_time: 0,
            task_syscall_times: Vec::new(),
            block_mutex_list: Vec::new(),
            sema_list: Vec::new(),
            fd_table: Vec::new(),
            exit_code: 0,
        }
    }
}


/// `list` with every slot that holds `id` vacated.
pub open spec fn vacated(list: Seq<Option<usize>>, id: usize) -> Seq<Option<usize>> {
    Seq::new(list.len(), |i: int| if list[i] == Some(id) { None } else { list[i] })
}

/// `list` with the first slot that holds `id` vacated, where there is one.
pub open spec fn vacated_first(list: Seq<Option<usize>>, id: usize) -> Seq<Option<usize>> {
    if list.contains(Some(id)) {
        list.update(first_place(list, Some(id)), None)
    } else {
        list
    }
}

/// Vacates every slot of `list` that holds `id`.
pub fn vacate(list: &mut Vec<Option<usize>>, id: usize)
    ensures
        final(list)@ == vacated(old(list)@, id),
{
    let n: usize = list.len();
    let mut i: usize = 0;
    while i < n
        invariant
            n == list@.len(),
            n == old(list)@.len(),
            i <= n,
            forall|j: int| 0 <= j < i ==> list@[j] == vacated(old(list)@, id)[j],
            forall|j: int| i <= j < n ==> list@[j] == old(list)@[j],
        decreases n - i,
    {
        if list[i] == Some(id) {
            list[i] = None;
        }
        i += 1;
    }
    assert(list@ =~= vacated(old(list)@, id));
}

/// Vacates the first slot of `list` that holds `id`, and tells whether there
/// was one.
pub fn vacate_first(list: &mut Vec<Option<usize>>, id: usize) -> (found: bool)
    ensures
        found == old(list)@.contains(Some(id)),
        final(list)@ == vacated_first(old(list)@, id),
{
    let n: usize = list.len();
    let mut i: usize = 0;
    while i < n
        invariant
            n == list@.len(),
            list@ == old(list)@,
            i <= n,
            forall|j: int| 0 <= j < i ==> list@[j] != Some(id),
        decreases n - i,
    {
        if list[i] == Some(id) {
            proof {
                lemma_first_place(list@, Some(id), i as int);
            }
            list[i] = None;
            return true;
        }
        i += 1;
    }
    false
}

} // verus!
