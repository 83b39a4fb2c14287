use ksync::config::{MAX_SYSCALL_NUM, PAGE_SIZE};
use ksync::task::task::{vacate, vacate_first};
use ksync::task::{
    add_syscall_count, block_current_and_run_next, calc_task_time, exit_current_and_run_next,
    is_mmap_valid, is_munmap_valid, mmap, munmap, pages, suspend_current_and_run_next,
    syscall_statistics, task_status, wakeup_task, MapPermission, MemoryOutcome, MemoryRequest,
    SyscallInfo, TaskControlBlock, TaskStatus,
};
use ksync::fs::OpenFile;

const REFUSED: MemoryOutcome = MemoryOutcome { status: -1, request: MemoryRequest::Nothing };

#[test]
fn init_gives_a_task_that_has_done_nothing() {
    let t = TaskControlBlock::init();
    assert_eq!(t.id, 0);
    assert_eq!(t.task_status, TaskStatus::UnInit);
    assert_eq!(t.task_launch_time, 0);
    assert!(t.task_syscall_times.is_empty());
    assert!(t.block_mutex_list.is_empty());
    assert!(t.sema_list.is_empty());
    assert!(t.fd_table.is_empty());
    assert_eq!(t.exit_code, 0);
}

#[test]
fn first_call_of_a_syscall_adds_a_record() {
    let mut t = TaskControlBlock::init();
    add_syscall_count(&mut t, 64);
    assert_eq!(t.task_syscall_times, vec![SyscallInfo { id: 64, times: 1 }]);
    add_syscall_count(&mut t, 93);
    assert_eq!(
        t.task_syscall_times,
        vec![SyscallInfo { id: 64, times: 1 }, SyscallInfo { id: 93, times: 1 }]
    );
}

#[test]
fn later_calls_count_in_the_same_record() {
    let mut t = TaskControlBlock::init();
    add_syscall_count(&mut t, 64);
    add_syscall_count(&mut t, 93);
    add_syscall_count(&mut t, 64);
    add_syscall_count(&mut t, 64);
    assert_eq!(
        t.task_syscall_times,
        vec![SyscallInfo { id: 64, times: 3 }, SyscallInfo { id: 93, times: 1 }]
    );
}

#[test]
fn a_free_record_is_taken_before_a_later_record_of_the_same_syscall() {
    let mut t = TaskControlBlock::init();
    t.task_syscall_times = vec![
        SyscallInfo { id: 64, times: 2 },
        SyscallInfo { id: 0, times: 0 },
        SyscallInfo { id: 93, times: 5 },
    ];
    add_syscall_count(&mut t, 93);
    assert_eq!(
        t.task_syscall_times,
        vec![
            SyscallInfo { id: 64, times: 2 },
            SyscallInfo { id: 93, times: 1 },
            SyscallInfo { id: 93, times: 5 },
        ]
    );
}

#[test]
fn the_count_starts_again_after_the_largest() {
    let mut t = TaskControlBlock::init();
    t.task_syscall_times = vec![SyscallInfo { id: 64, times: u32::MAX }];
    add_syscall_count(&mut t, 64);
    assert_eq!(t.task_syscall_times, vec![SyscallInfo { id: 64, times: 0 }]);
}

#[test]
fn statistics_stop_at_the_first_free_record() {
    let mut t = TaskControlBlock::init();
    t.task_syscall_times = vec![
        SyscallInfo { id: 64, times: 2 },
        SyscallInfo { id: 499, times: 7 },
        SyscallInfo { id: 64, times: 9 },
        SyscallInfo { id: 0, times: 4 },
        SyscallInfo { id: 93, times: 5 },
    ];
    let mut dst = [1u32; MAX_SYSCALL_NUM];
    syscall_statistics(&t, &mut dst);
    for (id, times) in dst.iter().enumerate() {
        let expected = match id {
            64 => 9,
            499 => 7,
            _ => 1,
        };
        assert_eq!(*times, expected, "syscall {}", id);
    }
}

#[test]
fn statistics_of_a_task_without_calls_change_nothing() {
    let t = TaskControlBlock::init();
    let mut dst = [3u32; MAX_SYSCALL_NUM];
    syscall_statistics(&t, &mut dst);
    assert!(dst.iter().all(|v| *v == 3));
}

#[test]
fn running_time_is_now_less_launch() {
    let mut t = TaskControlBlock::init();
    t.task_launch_time = 1500;
    assert_eq!(calc_task_time(&t, 1500), 0);
    assert_eq!(calc_task_time(&t, 4200), 2700);
}

#[test]
fn status_follows_the_scheduler() {
    let mut t = TaskControlBlock::init();
    assert_eq!(task_status(&t), TaskStatus::UnInit);
    t.task_status = TaskStatus::Running;
    block_current_and_run_next(&mut t);
    assert_eq!(task_status(&t), TaskStatus::Blocked);
    wakeup_task(&mut t);
    assert_eq!(task_status(&t), TaskStatus::Ready);
    t.task_status = TaskStatus::Running;
    suspend_current_and_run_next(&mut t);
    assert_eq!(task_status(&t), TaskStatus::Ready);
}

#[test]
fn exit_records_the_code_and_closes_the_files() {
    let mut t = TaskControlBlock::init();
    t.id = 4;
    t.sema_list.push(Some(2));
    t.fd_table.push(Some(OpenFile { readable: true, writable: false, id: 9, links: 1 }));
    exit_current_and_run_next(&mut t, -3);
    assert_eq!(t.task_status, TaskStatus::Exited);
    assert_eq!(t.exit_code, -3);
    assert!(t.fd_table.is_empty());
    assert_eq!(t.id, 4);
    assert_eq!(t.sema_list, vec![Some(2)]);
}

#[test]
fn vacate_empties_every_matching_slot() {
    let mut list = vec![Some(3), None, Some(4), Some(3)];
    vacate(&mut list, 3);
    assert_eq!(list, vec![None, None, Some(4), None]);
    vacate(&mut list, 7);
    assert_eq!(list, vec![None, None, Some(4), None]);
}

#[test]
fn vacate_first_empties_one_slot() {
    let mut list = vec![Some(4), Some(3), None, Some(3)];
    assert!(vacate_first(&mut list, 3));
    assert_eq!(list, vec![Some(4), None, None, Some(3)]);
    assert!(vacate_first(&mut list, 3));
    assert_eq!(list, vec![Some(4), None, None, None]);
    assert!(!vacate_first(&mut list, 3));
    assert_eq!(list, vec![Some(4), None, None, None]);
}

#[test]
fn pages_counts_page_starts_below_the_end() {
    assert_eq!(pages(0, 0), 0);
    assert_eq!(pages(4096, 4096), 0);
    assert_eq!(pages(8192, 4096), 0);
    assert_eq!(pages(0, 1), 1);
    assert_eq!(pages(0, PAGE_SIZE), 1);
    assert_eq!(pages(0, PAGE_SIZE + 1), 2);
    assert_eq!(pages(4096, 3 * 4096), 2);
    assert_eq!(pages(0, usize::MAX), usize::MAX / 4096 + 1);
}

#[test]
fn mmap_is_valid_on_an_aligned_free_range_with_a_known_port() {
    assert!(is_mmap_valid(0x10000, 0x12000, 3, &vec![false, false]));
    assert!(!is_mmap_valid(0x10001, 0x12000, 3, &vec![false, false]));
    assert!(!is_mmap_valid(0x10000, 0x12000, 0, &vec![false, false]));
    assert!(!is_mmap_valid(0x10000, 0x12000, 8, &vec![false, false]));
    assert!(!is_mmap_valid(0x10000, 0x12000, 9, &vec![false, false]));
    assert!(!is_mmap_valid(0x10000, 0x12000, 3, &vec![false, true]));
    assert!(is_mmap_valid(0x10000, 0x10000, 1, &vec![]));
}

#[test]
fn munmap_is_valid_on_an_aligned_range_that_is_all_mapped() {
    assert!(is_munmap_valid(0x10000, 0x12000, &vec![true, true]));
    assert!(!is_munmap_valid(0x10000, 0x12000, &vec![true, false]));
    assert!(!is_munmap_valid(0x10010, 0x12000, &vec![true, true]));
}

#[test]
fn mmap_asks_for_the_permission_that_the_port_names() {
    let flags = vec![false];
    for port in 1..8usize {
        let expected = MemoryOutcome {
            status: 0,
            request: MemoryRequest::Insert {
                start: 0x10000,
                end: 0x11000,
                permission: MapPermission {
                    user: true,
                    read: port & 1 != 0,
                    write: port & 2 != 0,
                    execute: port & 4 != 0,
                },
            },
        };
        assert_eq!(mmap(0x10000, 0x11000, port, &flags), expected);
    }
    assert_eq!(mmap(0x10000, 0x11000, 0, &flags), REFUSED);
    assert_eq!(mmap(0x10000, 0x11000, 16, &flags), REFUSED);
    assert_eq!(mmap(0x10000, 0x11000, 1, &vec![true]), REFUSED);
    assert_eq!(mmap(0x10008, 0x11000, 1, &flags), REFUSED);
}

#[test]
fn munmap_asks_for_the_range_to_be_deleted() {
    assert_eq!(
        munmap(0x10000, 0x12000, &vec![true, true]),
        MemoryOutcome { status: 0, request: MemoryRequest::Delete { start: 0x10000, end: 0x12000 } }
    );
    assert_eq!(munmap(0x10000, 0x12000, &vec![false, true]), REFUSED);
    assert_eq!(munmap(0x10004, 0x12000, &vec![true, true]), REFUSED);
}
