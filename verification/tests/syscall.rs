use ksync::config::MAX_SYSCALL_NUM;
use ksync::fs::{OpenFile, Stat, StatMode};
use ksync::syscall::fs::{
    sys_close, sys_fstat, sys_linkat, sys_open, sys_read, sys_unlinkat, sys_write,
};
use ksync::syscall::process::{
    sys_exit, sys_get_time, sys_mmap, sys_munmap, sys_sbrk, sys_task_info, sys_yield, TaskInfo,
    TimeVal,
};
use ksync::syscall::FileRequest;
use ksync::task::{
    MapPermission, MemoryOutcome, MemoryRequest, SyscallInfo, TaskControlBlock, TaskStatus,
};

const READ_ONLY: OpenFile = OpenFile { readable: true, writable: false, id: 11, links: 1 };
const WRITE_ONLY: OpenFile = OpenFile { readable: false, writable: true, id: 12, links: 3 };

fn task_with_files() -> TaskControlBlock {
    let mut t = TaskControlBlock::init();
    t.fd_table = vec![Some(READ_ONLY), None, Some(WRITE_ONLY)];
    t
}

fn calls(t: &TaskControlBlock) -> Vec<(usize, u32)> {
    t.task_syscall_times.iter().map(|s| (s.id, s.times)).collect()
}

#[test]
fn write_goes_to_a_writable_open_file_only() {
    let mut t = task_with_files();
    assert_eq!(sys_write(&mut t, 2), FileRequest::Write(WRITE_ONLY));
    assert_eq!(sys_write(&mut t, 0), FileRequest::Done(-1));
    assert_eq!(sys_write(&mut t, 1), FileRequest::Done(-1));
    assert_eq!(sys_write(&mut t, 3), FileRequest::Done(-1));
    assert_eq!(calls(&t), vec![(64, 4)]);
    assert_eq!(t.fd_table, vec![Some(READ_ONLY), None, Some(WRITE_ONLY)]);
}

#[test]
fn read_comes_from_a_readable_open_file_only() {
    let mut t = task_with_files();
    assert_eq!(sys_read(&mut t, 0), FileRequest::Read(READ_ONLY));
    assert_eq!(sys_read(&mut t, 2), FileRequest::Done(-1));
    assert_eq!(sys_read(&mut t, 1), FileRequest::Done(-1));
    assert_eq!(sys_read(&mut t, 17), FileRequest::Done(-1));
    assert_eq!(calls(&t), vec![(63, 4)]);
}

#[test]
fn open_gives_the_lowest_closed_descriptor() {
    let mut t = task_with_files();
    let f = OpenFile { readable: true, writable: true, id: 20, links: 1 };
    assert_eq!(sys_open(&mut t, Some(f)), 1);
    assert_eq!(t.fd_table, vec![Some(READ_ONLY), Some(f), Some(WRITE_ONLY)]);
    assert_eq!(sys_open(&mut t, Some(f)), 3);
    assert_eq!(t.fd_table, vec![Some(READ_ONLY), Some(f), Some(WRITE_ONLY), Some(f)]);
    assert_eq!(sys_open(&mut t, None), -1);
    assert_eq!(t.fd_table.len(), 4);
    assert_eq!(calls(&t), vec![(56, 3)]);
}

#[test]
fn open_on_an_empty_table_gives_descriptor_zero() {
    let mut t = TaskControlBlock::init();
    assert_eq!(sys_open(&mut t, Some(READ_ONLY)), 0);
    assert_eq!(t.fd_table, vec![Some(READ_ONLY)]);
}

#[test]
fn close_closes_an_open_descriptor_once() {
    let mut t = task_with_files();
    assert_eq!(sys_close(&mut t, 0), 0);
    assert_eq!(t.fd_table, vec![None, None, Some(WRITE_ONLY)]);
    assert_eq!(sys_close(&mut t, 0), -1);
    assert_eq!(sys_close(&mut t, 1), -1);
    assert_eq!(sys_close(&mut t, 3), -1);
    assert_eq!(t.fd_table, vec![None, None, Some(WRITE_ONLY)]);
    assert_eq!(calls(&t), vec![(57, 4)]);
}

#[test]
fn fstat_tells_inode_and_links_of_an_open_file() {
    let mut t = task_with_files();
    let mut st = Stat { dev: 5, ino: 6, mode: StatMode::Null, nlink: 7 };
    assert_eq!(sys_fstat(&mut t, 2, &mut st), 0);
    assert_eq!(st, Stat { dev: 0, ino: 12, mode: StatMode::File, nlink: 3 });
    let mut st = Stat { dev: 5, ino: 6, mode: StatMode::Dir, nlink: 7 };
    assert_eq!(sys_fstat(&mut t, 1, &mut st), -1);
    assert_eq!(st, Stat { dev: 5, ino: 6, mode: StatMode::Dir, nlink: 7 });
    assert_eq!(sys_fstat(&mut t, 9, &mut st), -1);
    assert_eq!(st, Stat { dev: 5, ino: 6, mode: StatMode::Dir, nlink: 7 });
    assert_eq!(calls(&t), vec![(80, 3)]);
}

#[test]
fn linkat_refuses_a_name_for_itself() {
    let mut t = TaskControlBlock::init();
    let a = String::from("a.txt");
    let b = String::from("b.txt");
    assert_eq!(sys_linkat(&mut t, &a, &b), FileRequest::Link);
    assert_eq!(sys_linkat(&mut t, &a, &String::from("a.txt")), FileRequest::Done(-1));
    assert_eq!(sys_linkat(&mut t, &String::new(), &String::new()), FileRequest::Done(-1));
    assert_eq!(calls(&t), vec![(37, 3)]);
}

#[test]
fn unlinkat_is_counted_and_passed_on() {
    let mut t = TaskControlBlock::init();
    assert_eq!(sys_unlinkat(&mut t), FileRequest::Unlink);
    assert_eq!(calls(&t), vec![(35, 1)]);
}

#[test]
fn exit_is_counted_and_ends_the_task() {
    let mut t = task_with_files();
    t.task_status = TaskStatus::Running;
    sys_exit(&mut t, 7);
    assert_eq!(t.task_status, TaskStatus::Exited);
    assert_eq!(t.exit_code, 7);
    assert!(t.fd_table.is_empty());
    assert_eq!(calls(&t), vec![(93, 1)]);
}

#[test]
fn yield_is_counted_and_makes_the_task_ready() {
    let mut t = TaskControlBlock::init();
    t.task_status = TaskStatus::Running;
    assert_eq!(sys_yield(&mut t), 0);
    assert_eq!(t.task_status, TaskStatus::Ready);
    assert_eq!(calls(&t), vec![(124, 1)]);
}

#[test]
fn get_time_splits_microseconds() {
    let mut t = TaskControlBlock::init();
    let mut ts = TimeVal { sec: 9, usec: 9 };
    assert_eq!(sys_get_time(&mut t, &mut ts, 3_000_042), 0);
    assert_eq!(ts, TimeVal { sec: 3, usec: 42 });
    assert_eq!(sys_get_time(&mut t, &mut ts, 999_999), 0);
    assert_eq!(ts, TimeVal { sec: 0, usec: 999_999 });
    assert_eq!(sys_get_time(&mut t, &mut ts, 0), 0);
    assert_eq!(ts, TimeVal { sec: 0, usec: 0 });
    assert_eq!(calls(&t), vec![(169, 3)]);
}

#[test]
fn task_info_counts_itself() {
    let mut t = TaskControlBlock::init();
    t.task_status = TaskStatus::Running;
    t.task_launch_time = 100;
    t.task_syscall_times =
        vec![SyscallInfo { id: 64, times: 5 }, SyscallInfo { id: 169, times: 2 }];
    let mut ti = TaskInfo { status: TaskStatus::UnInit, syscall_times: [0; MAX_SYSCALL_NUM], time: 0 };
    assert_eq!(sys_task_info(&mut t, &mut ti, 350), 0);
    assert_eq!(ti.status, TaskStatus::Running);
    assert_eq!(ti.time, 250);
    for (id, times) in ti.syscall_times.iter().enumerate() {
        let expected = match id {
            64 => 5,
            169 => 2,
            410 => 1,
            _ => 0,
        };
        assert_eq!(*times, expected, "syscall {}", id);
    }
    assert_eq!(sys_task_info(&mut t, &mut ti, 351), 0);
    assert_eq!(ti.syscall_times[410], 2);
    assert_eq!(ti.time, 251);
}

#[test]
fn mmap_of_nothing_is_accepted_without_a_look() {
    let nothing = MemoryOutcome { status: 0, request: MemoryRequest::Nothing };
    assert_eq!(sys_mmap(0x10001, 0, 0, &vec![]), nothing);
    assert_eq!(sys_munmap(0x10001, 0, &vec![]), nothing);
}

#[test]
fn mmap_asks_for_start_to_start_plus_len() {
    let refused = MemoryOutcome { status: -1, request: MemoryRequest::Nothing };
    assert_eq!(
        sys_mmap(0x10000, 4097, 5, &vec![false, false]),
        MemoryOutcome {
            status: 0,
            request: MemoryRequest::Insert {
                start: 0x10000,
                end: 0x10000 + 4097,
                permission: MapPermission { user: true, read: true, write: false, execute: true },
            },
        }
    );
    assert_eq!(sys_mmap(0x10000, 4097, 5, &vec![false, true]), refused);
    assert_eq!(sys_mmap(0x10000, 4096, 0, &vec![false]), refused);
    assert_eq!(sys_mmap(0x10100, 4096, 1, &vec![false, false]), refused);
}

#[test]
fn munmap_asks_for_start_to_start_plus_len() {
    let refused = MemoryOutcome { status: -1, request: MemoryRequest::Nothing };
    assert_eq!(
        sys_munmap(0x10000, 8192, &vec![true, true]),
        MemoryOutcome { status: 0, request: MemoryRequest::Delete { start: 0x10000, end: 0x12000 } }
    );
    assert_eq!(sys_munmap(0x10000, 8192, &vec![true, false]), refused);
    assert_eq!(sys_munmap(0x10001, 4096, &vec![true, true]), refused);
}

#[test]
fn sbrk_answers_the_old_break_or_minus_one() {
    assert_eq!(sys_sbrk(Some(0x4000)), 0x4000);
    assert_eq!(sys_sbrk(Some(0)), 0);
    assert_eq!(sys_sbrk(None), -1);
}
