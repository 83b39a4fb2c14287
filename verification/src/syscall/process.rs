//! The process syscalls.

use crate::config::{MAX_SYSCALL_NUM, PAGE_SIZE};
use crate::syscall::{SYSCALL_EXIT, SYSCALL_GET_TIME, SYSCALL_TASK_INFO, SYSCALL_YIELD};
use crate::task::task::{TaskControlBlock, TaskStatus, TaskView};
use crate::task::{
    add_syscall_count, calc_task_time, counted, exit_current_and_run_next, live, mmap, munmap,
    page_count, permission_of, port_valid, suspend_current_and_run_next, syscall_statistics,
    tallied, task_status, MemoryOutcome, MemoryRequest,
};
use vstd::prelude::*;

verus! {

/// A time of day, in seconds and the microseconds of the second begun.
#[derive(Copy, Clone, PartialEq, Eq, Structural, Debug)]
pub struct TimeVal {
    /// Whole seconds.
    pub sec: usize,
    /// Microseconds, below a million.
    pub usec: usize,
}

/// What a task is told of itself.
#[derive(Clone, Debug)]
pub struct TaskInfo {
    /// The task's status.
    pub status: TaskStatus,
    /// How often the task has made each syscall, by the syscall's number.
    pub syscall_times: [u32; MAX_SYSCALL_NUM],
    /// How long the task has run, in milliseconds.
    pub time: usize,
}

/// Counts the call and ends the task with `exit_code`.
pub fn sys_exit(task: &mut TaskControlBlock, exit_code: i32)
    ensures
        final(task)@ == (TaskView {
            syscalls: counted(old(task)@.syscalls, SYSCALL_EXIT),
            status: TaskStatus::Exited,
            exit_code,
            files: Seq::empty(),
            ..old(task)@
        }),
{
    add_syscall_count(task, SYSCALL_EXIT);
    exit_current_and_run_next(task, exit_code);
}

/// Counts the call and gives the processor up; the answer is 0.
pub fn sys_yield(task: &mut TaskControlBlock) -> (status: isize)
    ensures
        final(task)@ == (TaskView {
            syscalls: counted(old(task)@.syscalls, SYSCALL_YIELD),
            status: TaskStatus::Ready,
            ..old(task)@
        }),
        status == 0,
{
    add_syscall_count(task, SYSCALL_YIELD);
    suspend_current_and_run_next(task);
    0
}

/// Counts the call and writes the time `us`, given in microseconds, to
/// `ts`; the answer is 0.
pub fn sys_get_time(task: &mut TaskControlBlock, ts: &mut TimeVal, us: usize) -> (status: isize)
    ensures
        final(task)@ == (TaskView {
            syscalls: counted(old(task)@.syscalls, SYSCALL_GET_TIME),
            ..old(task)@
        }),
        *final(ts) == (TimeVal { sec: us / 1_000_000, usec: us % 1_000_000 }),
        status == 0,
{
    add_syscall_count(task, SYSCALL_GET_TIME);
    ts.sec = us / 1_000_000;
    ts.usec = us % 1_000_000;
    0
}

/// Counts the call and writes to `ti` the task's status, its syscall
/// counts, this call among them, and how long it has run at the time `now`,
/// given in milliseconds; the answer is 0.
pub fn sys_task_info(task: &mut TaskControlBlock, ti: &mut TaskInfo, now: usize) -> (status: isize)
    requires
        old(task).task_launch_time <= now,
        forall|i: int|
            0 <= i < live(counted(old(task)@.syscalls, SYSCALL_TASK_INFO)) ==> (#[trigger] counted(
                old(task)@.syscalls,
                SYSCALL_TASK_INFO,
            )[i]).id < MAX_SYSCALL_NUM,
    ensures
        final(task)@ == (TaskView {
            syscalls: counted(old(task)@.syscalls, SYSCALL_TASK_INFO),
            ..old(task)@
        }),
        final(ti).status == old(task).task_status,
        final(ti).syscall_times@ == tallied(
            final(task)@.syscalls,
            old(ti).syscall_times@,
            live(final(task)@.syscalls),
        ),
        final(ti).time == now - old(task).task_launch_time,
        status == 0,
{
    add_syscall_count(task, SYSCALL_TASK_INFO);
    ti.status = task_status(task);
    syscall_statistics(task, &mut ti.syscall_times);
    ti.time = calc_task_time(task, now);
    0
}

/// Asks for `len` bytes from `start` on to be mapped as `port` says. With
/// `len` 0 there is nothing to do and the answer is 0. `mapped[i]` tells
/// whether the page at `start + i * PAGE_SIZE` is mapped.
pub fn sys_mmap(start: usize, len: usize, port: usize, mapped: &Vec<bool>) -> (out: MemoryOutcome)
    requires
        start + len <= usize::MAX,
        mapped@.len() == page_count(start, (start + len) as usize),
    ensures
        out == if len == 0 {
            MemoryOutcome { status: 0, request: MemoryRequest::Nothing }
        } else if start % PAGE_SIZE == 0 && port_valid(port) && !mapped@.contains(true) {
            MemoryOutcome {
                status: 0,
                request: MemoryRequest::Insert {
                    start,
                    end: (start + len) as usize,
                    permission: permission_of(port),
                },
            }
        } else {
            MemoryOutcome { status: -1isize, request: MemoryRequest::Nothing }
        },
{
    if len == 0 {
        return MemoryOutcome { status: 0, request: MemoryRequest::Nothing };
    }
    mmap(start, start + len, port, mapped)
}

/// Asks for the mapping of `len` bytes from `start` on to be taken away.
/// With `len` 0 there is nothing to do and the answer is 0. `mapped[i]`
/// tells whether the page at `start + i * PAGE_SIZE` is mapped.
pub fn sys_munmap(start: usize, len: usize, mapped: &Vec<bool>) -> (out: MemoryOutcome)
    requires
        start + len <= usize::MAX,
        mapped@.len() == page_count(start, (start + len) as usize),
    ensures
        out == if len == 0 {
            MemoryOutcome { status: 0, request: MemoryRequest::Nothing }
        } else if start % PAGE_SIZE == 0 && !mapped@.contains(false) {
            MemoryOutcome {
                status: 0,
                request: MemoryRequest::Delete { start, end: (start + len) as usize },
            }
        } else {
            MemoryOutcome { status: -1isize, request: MemoryRequest::Nothing }
        },
{
    if len == 0 {
        return MemoryOutcome { status: 0, request: MemoryRequest::Nothing };
    }
    munmap(start, start + len, mapped)
}

/// The answer of `sbrk`: the break as it was before the change, or -1 where
/// the change was refused.
pub fn sys_sbrk(old_brk: Option<usize>) -> (answer: isize)
    requires
        old_brk is Some ==> old_brk->0 <= isize::MAX,
    ensures
        answer == match old_brk {
            Some(brk) => brk as int,
            None => -1,
        },
{
    if let Some(brk) = old_brk {
        brk as isize
    } else {
        -1
    }
}

} // verus!
