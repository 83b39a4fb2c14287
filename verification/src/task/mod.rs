//! Tasks as the synchronisation primitives and the syscall layer see them:
//! their status, their syscall counts, and the checks on what they ask of
//! memory.

use crate::config::{MAX_SYSCALL_NUM, PAGE_SIZE};
use crate::kernel::{first_place, lemma_contains_first, lemma_first_place};
use vstd::prelude::*;

pub mod task;

pub use task::{SyscallInfo, TaskControlBlock, TaskStatus, TaskView};

verus! {

/// The record `info` is the one to count a call of syscall `id` in: it
/// counts that syscall already, or it is free.
pub open spec fn takes(info: SyscallInfo, id: usize) -> bool {
    info.id == id || info.id == 0
}

/// For each record of `list`, whether it takes a call of syscall `id`.
pub open spec fn slots(list: Seq<SyscallInfo>, id: usize) -> Seq<bool> {
    Seq::new(list.len(), |i: int| takes(list[i], id))
}

/// The count after `times`; it starts again at 0 after the largest.
pub open spec fn next_times(times: u32) -> u32 {
    if times == u32::MAX {
        0
    } else {
        (times + 1) as u32
    }
}

/// `list` after one more call of syscall `id`: the first record that takes
/// the call counts it; where none does, a new record comes last.
pub open spec fn counted(list: Seq<SyscallInfo>, id: usize) -> Seq<SyscallInfo> {
    if slots(list, id).contains(true) {
        let i = first_place(slots(list, id), true);
        list.update(i, SyscallInfo { id, times: next_times(list[i].times) })
    } else {
        list.push(SyscallInfo { id, times: 1 })
    }
}

/// Counts one more call of syscall `id` by the task.
pub fn add_syscall_count(task: &mut TaskControlBlock, id: usize)
    ensures
        final(task)@ == (TaskView { syscalls: counted(old(task)@.syscalls, id), ..old(task)@ }),
{
    let n: usize = task.task_syscall_times.len();
    let mut i: usize = 0;
    while i < n
        invariant
            n == task.task_syscall_times@.len(),
            *task == *old(task),
            i <= n,
            forall|j: int| 0 <= j < i ==> !slots(task@.syscalls, id)[j],
        decreases n - i,
    {
        let info = task.task_syscall_times[i];
        if info.id == id || info.id == 0 {
            proof {
                lemma_first_place(slots(task@.syscalls, id), true, i as int);
            }
            task.task_syscall_times[i] = SyscallInfo { id, times: info.times.wrapping_add(1) };
            return ;
        }
        i += 1;
    }
    task.task_syscall_times.push(SyscallInfo { id, times: 1 });
}

/// How many records of `list` come before the first free one.
pub open spec fn live(list: Seq<SyscallInfo>) -> int {
    let ids = Seq::new(list.len(), |i: int| list[i].id);
    if ids.contains(0usize) {
        first_place(ids, 0usize)
    } else {
        list.len() as int
    }
}

/// The records before the first free one are records of the list.
pub proof fn lemma_live_bounds(list: Seq<SyscallInfo>)
    ensures
        0 <= live(list) <= list.len(),
        forall|j: int| 0 <= j < live(list) ==> (#[trigger] list[j]).id != 0,
        live(list) < list.len() ==> list[live(list)].id == 0,
{
    let ids = Seq::new(list.len(), |i: int| list[i].id);
    if ids.contains(0usize) {
        lemma_contains_first(ids, 0usize);
        let f = first_place(ids, 0usize);
        assert forall|j: int| 0 <= j < f implies (#[trigger] list[j]).id != 0 by {
            assert(ids[j] != 0);
        }
        assert(ids[f] == 0);
    } else {
        assert forall|j: int| 0 <= j < list.len() implies (#[trigger] list[j]).id != 0 by {
            assert(ids[j] == list[j].id);
        }
    }
}

/// `dst` after the counts of the first `n` records of `list` have been
/// written to it, each at the place of its syscall's number.
pub open spec fn tallied(list: Seq<SyscallInfo>, dst: Seq<u32>, n: int) -> Seq<u32>
    decreases n,
{
    if n <= 0 {
        dst
    } else {
        tallied(list, dst, n - 1).update(list[n - 1].id as int, list[n - 1].times)
    }
}

/// Writes the task's syscall counts to `dst`, each at the place of its
/// syscall's number, up to the first free record.
pub fn syscall_statistics(task: &TaskControlBlock, dst: &mut [u32; MAX_SYSCALL_NUM])
    requires
        forall|i: int|
            0 <= i < live(task@.syscalls) ==> (#[trigger] task@.syscalls[i]).id < MAX_SYSCALL_NUM,
    ensures
        final(dst)@ == tallied(task@.syscalls, old(dst)@, live(task@.syscalls)),
{
    let ghost list = task@.syscalls;
    let ghost ids = Seq::new(list.len(), |i: int| list[i].id);
    proof {
        lemma_live_bounds(list);
    }
    let n: usize = task.task_syscall_times.len();
    let mut i: usize = 0;
    while i < n
        invariant
            n == list.len(),
            list == task@.syscalls,
            ids == Seq::new(list.len(), |i: int| list[i].id),
            i <= n,
            i <= live(list),
            forall|j: int| 0 <= j < i ==> ids[j] != 0,
            forall|j: int| 0 <= j < live(list) ==> (#[trigger] list[j]).id < MAX_SYSCALL_NUM,
            dst@ == tallied(list, old(dst)@, i as int),
        decreases n - i,
    {
        let info = task.task_syscall_times[i];
        if info.id == 0 {
            proof {
                lemma_first_place(ids, 0usize, i as int);
            }
            return ;
        }
        proof {
            if ids.contains(0usize) {
                let f = first_place(ids, 0usize);
                lemma_contains_first(ids, 0usize);
                assert(ids[f] == 0);
                assert(f > i);
            }
            assert(i < live(list));
            assert(list[i as int].id < MAX_SYSCALL_NUM);
        }
        dst[info.id] = info.times;
        i += 1;
    }
    proof {
        if ids.contains(0usize) {
            lemma_contains_first(ids, 0usize);
            let f = first_place(ids, 0usize);
            assert(ids[f] == 0);
        }
    }
}

/// How long the task has run at the time `now`, in milliseconds.
pub fn calc_task_time(task: &TaskControlBlock, now: usize) -> (time: usize)
    requires
        task.task_launch_time <= now,
    ensures
        time == now - task.task_launch_time,
{
    now - task.task_launch_time
}

/// The task's status.
pub fn task_status(task: &TaskControlBlock) -> (status: TaskStatus)
    ensures
        status == task.task_status,
{
    task.task_status
}

/// The task gives the processor up and is ready to run again.
pub fn suspend_current_and_run_next(task: &mut TaskControlBlock)
    ensures
        final(task)@ == (TaskView { status: TaskStatus::Ready, ..old(task)@ }),
{
    task.task_status = TaskStatus::Ready;
}

/// The task leaves the ready set until it is woken.
pub fn block_current_and_run_next(task: &mut TaskControlBlock)
    ensures
        final(task)@ == (TaskView { status: TaskStatus::Blocked, ..old(task)@ }),
{
    task.task_status = TaskStatus::Blocked;
}

/// The task is ready to run again.
pub fn wakeup_task(task: &mut TaskControlBlock)
    ensures
        final(task)@ == (TaskView { status: TaskStatus::Ready, ..old(task)@ }),
{
    task.task_status = TaskStatus::Ready;
}

/// The task has finished with `exit_code`: its descriptors are closed.
pub fn exit_current_and_run_next(task: &mut TaskControlBlock, exit_code: i32)
    ensures
        final(task)@ == (TaskView {
            status: TaskStatus::Exited,
            exit_code,
            files: Seq::empty(),
            ..old(task)@
        }),
{
    task.task_status = TaskStatus::Exited;
    task.exit_code = exit_code;
    task.fd_table.clear();
}


/// What a mapped page may be used for.
#[derive(Copy, Clone, PartialEq, Eq, Structural, Debug)]
pub struct MapPermission {
    /// User code may reach the page.
    pub user: bool,
    /// The page may be read.
    pub read: bool,
    /// The page may be written.
    pub write: bool,
    /// Code on the page may run.
    pub execute: bool,
}

/// What the memory manager is asked to do once a call has returned.
#[derive(Copy, Clone, PartialEq, Eq, Structural, Debug)]
pub enum MemoryRequest {
    /// Nothing.
    Nothing,
    /// Map the addresses from `start` up to `end` with fresh frames.
    Insert { start: usize, end: usize, permission: MapPermission },
    /// Take the mapping of the addresses from `start` up to `end` away.
    Delete { start: usize, end: usize },
}

/// The status that a memory call hands to its caller, with what the memory
/// manager has to do before the caller sees it.
#[derive(Copy, Clone, PartialEq, Eq, Structural, Debug)]
pub struct MemoryOutcome {
    /// 0 where the call was accepted, -1 where it was refused.
    pub status: isize,
    /// What the memory manager does before the caller goes on.
    pub request: MemoryRequest,
}

/// How many pages begin at `start`, `start + PAGE_SIZE`, ... below `end`.
pub open spec fn page_count(start: usize, end: usize) -> int {
    if start < end {
        (end - start) / (PAGE_SIZE as int) + if (end - start) % (PAGE_SIZE as int) != 0 {
            1int
        } else {
            0int
        }
    } else {
        0
    }
}

/// How many pages begin at `start`, `start + PAGE_SIZE`, ... below `end`.
pub fn pages(start: usize, end: usize) -> (n: usize)
    ensures
        n == page_count(start, end),
{
    if start < end {
        let span: usize = end - start;
        let whole: usize = span / PAGE_SIZE;
        if span % PAGE_SIZE != 0 {
            whole + 1
        } else {
            whole
        }
    } else {
        0
    }
}

/// `port` asks for at least one of reading, writing and running, and for
/// nothing else.
pub open spec fn port_valid(port: usize) -> bool {
    port & !0x7usize == 0 && port & 0x7usize != 0
}

/// The permission that `port` asks for: bit 0 to read, bit 1 to write, bit 2
/// to run code; user code may always reach the page.
pub open spec fn permission_of(port: usize) -> MapPermission {
    MapPermission {
        user: true,
        read: port & 1usize != 0,
        write: port & 2usize != 0,
        execute: port & 4usize != 0,
    }
}

/// Whether some page of the range is in the state `state`.
fn any_page(flags: &Vec<bool>, state: bool) -> (found: bool)
    ensures
        found == flags@.contains(state),
{
    let n: usize = flags.len();
    let mut i: usize = 0;
    while i < n
        invariant
            n == flags@.len(),
            i <= n,
            forall|j: int| 0 <= j < i ==> flags@[j] != state,
        decreases n - i,
    {
        if flags[i] == state {
            return true;
        }
        i += 1;
    }
    false
}

/// Whether the addresses from `start` up to `end` may be mapped as `port`
/// asks: `start` lies on a page boundary, `port` is valid, and no page of
/// the range is mapped yet. `mapped[i]` tells whether the page at
/// `start + i * PAGE_SIZE` is mapped.
pub fn is_mmap_valid(start: usize, end: usize, port: usize, mapped: &Vec<bool>) -> (ok: bool)
    requires
        mapped@.len() == page_count(start, end),
    ensures
        ok == (start % PAGE_SIZE == 0 && port_valid(port) && !mapped@.contains(true)),
{
    if start % PAGE_SIZE != 0 || port & !0x7 != 0 || port & 0x7 == 0 {
        return false;
    }
    !any_page(mapped, true)
}

/// Whether the mapping of the addresses from `start` up to `end` may be
/// taken away: `start` lies on a page boundary and every page of the range
/// is mapped. `mapped[i]` tells whether the page at `start + i * PAGE_SIZE`
/// is mapped.
pub fn is_munmap_valid(start: usize, end: usize, mapped: &Vec<bool>) -> (ok: bool)
    requires
        mapped@.len() == page_count(start, end),
    ensures
        ok == (start % PAGE_SIZE == 0 && !mapped@.contains(false)),
{
    if start % PAGE_SIZE != 0 {
        return false;
    }
    !any_page(mapped, false)
}

/// Asks for the addresses from `start` up to `end` to be mapped as `port`
/// says, or refuses with -1.
pub fn mmap(start: usize, end: usize, port: usize, mapped: &Vec<bool>) -> (out: MemoryOutcome)
    requires
        mapped@.len() == page_count(start, end),
    ensures
        out == if start % PAGE_SIZE == 0 && port_valid(port) && !mapped@.contains(true) {
            MemoryOutcome {
                status: 0,
                request: MemoryRequest::Insert { start, end, permission: permission_of(port) },
            }
        } else {
            MemoryOutcome { status: -1isize, request: MemoryRequest::Nothing }
        },
{
    if !is_mmap_valid(start, end, port, mapped) {
        return MemoryOutcome { status: -1, request: MemoryRequest::Nothing };
    }
    let permission = MapPermission {
        user: true,
        read: port & (1 << 0) != 0,
        write: port & (1 << 1) != 0,
        execute: port & (1 << 2) != 0,
    };
    assert(1usize << 0usize == 1usize) by (bit_vector);
    assert(1usize << 1usize == 2usize) by (bit_vector);
    assert(1usize << 2usize == 4usize) by (bit_vector);
    MemoryOutcome { status: 0, request: MemoryRequest::Insert { start, end, permission } }
}

/// Asks for the mapping of the addresses from `start` up to `end` to be
/// taken away, or refuses with -1.
pub fn munmap(start: usize, end: usize, mapped: &Vec<bool>) -> (out: MemoryOutcome)
    requires
        mapped@.len() == page_count(start, end),
    ensures
        out == if start % PAGE_SIZE == 0 && !mapped@.contains(false) {
            MemoryOutcome { status: 0, request: MemoryRequest::Delete { start, end } }
        } else {
            MemoryOutcome { status: -1isize, request: MemoryRequest::Nothing }
        },
{
    if !is_munmap_valid(start, end, mapped) {
        return MemoryOutcome { status: -1, request: MemoryRequest::Nothing };
    }
    MemoryOutcome { status: 0, request: MemoryRequest::Delete { start, end } }
}

} // verus!
