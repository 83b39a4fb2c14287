//! The file syscalls.

use crate::fs::{OpenFile, Stat, StatMode};
use crate::kernel::{first_place, lemma_first_place};
use crate::syscall::{
    FileRequest, SYSCALL_CLOSE, SYSCALL_FSTAT, SYSCALL_LINKAT, SYSCALL_OPEN, SYSCALL_READ,
    SYSCALL_UNLINKAT, SYSCALL_WRITE,
};
use crate::task::task::{TaskControlBlock, TaskView};
use crate::task::{add_syscall_count, counted};
use vstd::prelude::*;

verus! {

/// The file that the descriptor `fd` stands for, where it is open.
pub open spec fn open_at(files: Seq<Option<OpenFile>>, fd: usize) -> Option<OpenFile> {
    if fd < files.len() {
        files[fd as int]
    } else {
        None
    }
}

/// The file that the descriptor `fd` of the task stands for, where it is
/// open.
fn file_at(task: &TaskControlBlock, fd: usize) -> (file: Option<OpenFile>)
    ensures
        file == open_at(task@.files, fd),
{
    if fd >= task.fd_table.len() {
        return None;
    }
    task.fd_table[fd]
}

/// Counts the call and asks for the caller's buffer to be written to the
/// file of descriptor `fd`; answers -1 where the descriptor is not open or
/// the file may not be written.
pub fn sys_write(task: &mut TaskControlBlock, fd: usize) -> (request: FileRequest)
    ensures
        final(task)@ == (TaskView {
            syscalls: counted(old(task)@.syscalls, SYSCALL_WRITE),
            ..old(task)@
        }),
        request == match open_at(old(task)@.files, fd) {
            Some(file) => if file.writable {
                FileRequest::Write(file)
            } else {
                FileRequest::Done(-1isize)
            },
            None => FileRequest::Done(-1isize),
        },
{
    add_syscall_count(task, SYSCALL_WRITE);
    match file_at(task, fd) {
        Some(file) => {
            if !file.writable {
                return FileRequest::Done(-1isize);
            }
            FileRequest::Write(file)
        },
        None => FileRequest::Done(-1isize),
    }
}

/// Counts the call and asks for the file of descriptor `fd` to be read into
/// the caller's buffer; answers -1 where the descriptor is not open or the
/// file may not be read.
pub fn sys_read(task: &mut TaskControlBlock, fd: usize) -> (request: FileRequest)
    ensures
        final(task)@ == (TaskView {
            syscalls: counted(old(task)@.syscalls, SYSCALL_READ),
            ..old(task)@
        }),
        request == match open_at(old(task)@.files, fd) {
            Some(file) => if file.readable {
                FileRequest::Read(file)
            } else {
                FileRequest::Done(-1isize)
            },
            None => FileRequest::Done(-1isize),
        },
{
    add_syscall_count(task, SYSCALL_READ);
    match file_at(task, fd) {
        Some(file) => {
            if !file.readable {
                return FileRequest::Done(-1isize);
            }
            FileRequest::Read(file)
        },
        None => FileRequest::Done(-1isize),
    }
}

/// The descriptor table after `file` has been given the lowest closed
/// descriptor, or a new one where none is closed.
pub open spec fn opened_in(files: Seq<Option<OpenFile>>, file: OpenFile) -> Seq<Option<OpenFile>> {
    if files.contains(None) {
        files.update(first_place(files, None), Some(file))
    } else {
        files.push(Some(file))
    }
}

/// The descriptor that the next file opened gets.
pub open spec fn next_fd(files: Seq<Option<OpenFile>>) -> int {
    if files.contains(None) {
        first_place(files, None)
    } else {
        files.len() as int
    }
}

/// The lowest closed descriptor of the task; a new one where none is closed.
fn alloc_fd(task: &mut TaskControlBlock) -> (fd: usize)
    ensures
        fd == next_fd(old(task)@.files),
        fd < final(task)@.files.len(),
        final(task)@ == (TaskView {
            files: if old(task)@.files.contains(None) {
                old(task)@.files
            } else {
                old(task)@.files.push(None)
            },
            ..old(task)@
        }),
{
    let n: usize = task.fd_table.len();
    let mut i: usize = 0;
    while i < n
        invariant
            n == task.fd_table@.len(),
            *task == *old(task),
            i <= n,
            forall|j: int| 0 <= j < i ==> task.fd_table@[j] is Some,
        decreases n - i,
    {
        if task.fd_table[i].is_none() {
            proof {
                lemma_first_place(task@.files, None, i as int);
            }
            return i;
        }
        i += 1;
    }
    task.fd_table.push(None);
    n
}

/// Counts the call and gives the file that was opened a descriptor, which
/// is the answer; answers -1 where no file was opened.
pub fn sys_open(task: &mut TaskControlBlock, opened: Option<OpenFile>) -> (fd: isize)
    requires
        old(task)@.files.len() < isize::MAX,
    ensures
        final(task)@ == (TaskView {
            syscalls: counted(old(task)@.syscalls, SYSCALL_OPEN),
            files: match opened {
                Some(file) => opened_in(old(task)@.files, file),
                None => old(task)@.files,
            },
            ..old(task)@
        }),
        fd == match opened {
            Some(file) => next_fd(old(task)@.files),
            None => -1,
        },
{
    add_syscall_count(task, SYSCALL_OPEN);
    match opened {
        Some(inode) => {
            let fd = alloc_fd(task);
            task.fd_table[fd] = Some(inode);
            assert(task@.files =~= opened_in(old(task)@.files, inode));
            fd as isize
        },
        None => -1,
    }
}

/// Counts the call and closes the descriptor `fd`; answers -1 where it is
/// not open.
pub fn sys_close(task: &mut TaskControlBlock, fd: usize) -> (status: isize)
    ensures
        final(task)@ == (TaskView {
            syscalls: counted(old(task)@.syscalls, SYSCALL_CLOSE),
            files: if open_at(old(task)@.files, fd) is Some {
                old(task)@.files.update(fd as int, None)
            } else {
                old(task)@.files
            },
            ..old(task)@
        }),
        status == if open_at(old(task)@.files, fd) is Some {
            0isize
        } else {
            -1isize
        },
{
    add_syscall_count(task, SYSCALL_CLOSE);
    if fd >= task.fd_table.len() {
        return -1;
    }
    if task.fd_table[fd].is_none() {
        return -1;
    }
    task.fd_table[fd] = None;
    0
}

/// Counts the call and writes to `st` what is known of the file of
/// descriptor `fd`; answers -1, and leaves `st` as it is, where the
/// descriptor is not open.
pub fn sys_fstat(task: &mut TaskControlBlock, fd: usize, st: &mut Stat) -> (status: isize)
    ensures
        final(task)@ == (TaskView {
            syscalls: counted(old(task)@.syscalls, SYSCALL_FSTAT),
            ..old(task)@
        }),
        status == if open_at(old(task)@.files, fd) is Some {
            0isize
        } else {
            -1isize
        },
        *final(st) == match open_at(old(task)@.files, fd) {
            Some(file) => Stat { dev: 0, ino: file.id, mode: StatMode::File, nlink: file.links },
            None => *old(st),
        },
{
    add_syscall_count(task, SYSCALL_FSTAT);
    match file_at(task, fd) {
        Some(file) => {
            st.dev = 0;
            st.ino = file.id;
            st.mode = StatMode::File;
            st.nlink = file.links;
            0
        },
        None => -1,
    }
}

/// Counts the call and asks for the file of `old_name` to be given
/// `new_name` as well; answers -1 where the two names are the same.
pub fn sys_linkat(task: &mut TaskControlBlock, old_name: &String, new_name: &String) -> (request:
    FileRequest)
    ensures
        final(task)@ == (TaskView {
            syscalls: counted(old(task)@.syscalls, SYSCALL_LINKAT),
            ..old(task)@
        }),
        request == if old_name@ == new_name@ {
            FileRequest::Done(-1isize)
        } else {
            FileRequest::Link
        },
{
    add_syscall_count(task, SYSCALL_LINKAT);
    if *old_name == *new_name {
        FileRequest::Done(-1isize)
    } else {
        FileRequest::Link
    }
}

/// Counts the call and asks for the name to be taken from its file.
pub fn sys_unlinkat(task: &mut TaskControlBlock) -> (request: FileRequest)
    ensures
        final(task)@ == (TaskView {
            syscalls: counted(old(task)@.syscalls, SYSCALL_UNLINKAT),
            ..old(task)@
        }),
        request == FileRequest::Unlink,
{
    add_syscall_count(task, SYSCALL_UNLINKAT);
    FileRequest::Unlink
}

} // verus!
