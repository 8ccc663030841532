//! The system calls that act on a task's descriptor table. What a file
//! does when it is read, written, linked or unlinked is not decided here:
//! these calls check the descriptor and say which file the caller may use.

use vstd::prelude::*;
use crate::config::MAX_FD;
use crate::family::lemma_current_update_keeps_family;
use crate::kernel::Kernel;
use crate::task::{FileHandle, TaskControlBlock};

verus! {

/// The file behind descriptor `fd`, where that slot exists and is open.
pub open spec fn file_at(table: Seq<Option<FileHandle>>, fd: usize) -> Option<FileHandle> {
    if fd < table.len() {
        table[fd as int]
    } else {
        None
    }
}

/// Position `fd` is the first free slot of `table`, or its length where
/// every slot is taken.
pub open spec fn is_alloc_slot(table: Seq<Option<FileHandle>>, fd: int) -> bool {
    &&& 0 <= fd <= table.len()
    &&& fd < table.len() ==> table[fd] is None
    &&& forall|j: int| 0 <= j < fd ==> (#[trigger] table[j]) is Some
}

/// The table after the file `file` took the slot `fd`.
pub open spec fn with_slot(table: Seq<Option<FileHandle>>, fd: int, file: FileHandle) -> Seq<
    Option<FileHandle>,
> {
    if fd < table.len() {
        table.update(fd, Some(file))
    } else {
        table.push(Some(file))
    }
}

/// Finds the slot that the next open file takes: the first free one, or
/// the table's length.
pub fn alloc_fd(table: &Vec<Option<FileHandle>>) -> (fd: usize)
    ensures
        is_alloc_slot(table@, fd as int),
{
    let mut i: usize = 0;
    while i < table.len()
        invariant
            0 <= i <= table.len(),
            forall|j: int| 0 <= j < i ==> (#[trigger] table@[j]) is Some,
        decreases table.len() - i,
    {
        if table[i].is_none() {
            return i;
        }
        i += 1;
    }
    i
}

/// Looks the descriptor `fd` of the calling task up.
fn lookup_fd(kernel: &Kernel, fd: usize) -> (r: Option<FileHandle>)
    requires
        kernel.current is Some,
    ensures
        r == file_at(kernel.current.unwrap().fd_table@, fd),
{
    match &kernel.current {
        Some(t) => {
            if fd < t.fd_table.len() {
                t.fd_table[fd]
            } else {
                None
            }
        },
        None => None,
    }
}

/// Decides a write to descriptor `fd`: the file to write to, or the error
/// -1 where the descriptor is not open or its file is not writable.
pub fn sys_write(kernel: &Kernel, fd: usize) -> (r: Result<FileHandle, isize>)
    requires
        kernel.wf(),
        kernel.current is Some,
    ensures
        match file_at(kernel.current.unwrap().fd_table@, fd) {
            Some(file) => if file.writable {
                r == Ok::<FileHandle, isize>(file)
            } else {
                r == Err::<FileHandle, isize>(-1isize)
            },
            None => r == Err::<FileHandle, isize>(-1isize),
        },
{
    match lookup_fd(kernel, fd) {
        Some(file) => {
            if file.writable {
                Ok(file)
            } else {
                Err(-1)
            }
        },
        None => Err(-1),
    }
}

/// Decides a read from descriptor `fd`: the file to read from, or the
/// error -1 where the descriptor is not open or its file is not readable.
pub fn sys_read(kernel: &Kernel, fd: usize) -> (r: Result<FileHandle, isize>)
    requires
        kernel.wf(),
        kernel.current is Some,
    ensures
        match file_at(kernel.current.unwrap().fd_table@, fd) {
            Some(file) => if file.readable {
                r == Ok::<FileHandle, isize>(file)
            } else {
                r == Err::<FileHandle, isize>(-1isize)
            },
            None => r == Err::<FileHandle, isize>(-1isize),
        },
{
    match lookup_fd(kernel, fd) {
        Some(file) => {
            if file.readable {
                Ok(file)
            } else {
                Err(-1)
            }
        },
        None => Err(-1),
    }
}

/// Decides a status query on descriptor `fd`: the file to ask, or the
/// error -1 where the descriptor is not open.
pub fn sys_fstat(kernel: &Kernel, fd: usize) -> (r: Result<FileHandle, isize>)
    requires
        kernel.wf(),
        kernel.current is Some,
    ensures
        match file_at(kernel.current.unwrap().fd_table@, fd) {
            Some(file) => r == Ok::<FileHandle, isize>(file),
            None => r == Err::<FileHandle, isize>(-1isize),
        },
{
    match lookup_fd(kernel, fd) {
        Some(file) => Ok(file),
        None => Err(-1),
    }
}

/// Gives the file that was opened, if one was, a descriptor in the calling
/// task: the first free slot of its table, or a new slot at its end. Returns
/// the descriptor; or -1 with nothing changed where no file was opened or
/// the table is full.
pub fn sys_open(kernel: &mut Kernel, opened: Option<FileHandle>) -> (r: isize)
    requires
        old(kernel).wf(),
        old(kernel).current is Some,
    ensures
        final(kernel).wf(),
        ({
            let before = old(kernel).current.unwrap();
            let table = before.fd_table@;
            match opened {
                Some(file) => if is_alloc_slot(table, MAX_FD as int) {
                    r == -1 && *final(kernel) == *old(kernel)
                } else {
                    &&& is_alloc_slot(table, r as int)
                    &&& final(kernel).current matches Some(t)
                    &&& *final(kernel) == (Kernel { current: Some(t), ..*old(kernel) })
                    &&& t == (TaskControlBlock { fd_table: t.fd_table, ..before })
                    &&& t.fd_table@ == with_slot(table, r as int, file)
                },
                None => r == -1 && *final(kernel) == *old(kernel),
            }
        }),
{
    match opened {
        None => -1,
        Some(file) => {
            let mut cur = kernel.current.take().unwrap();
            let fd = alloc_fd(&cur.fd_table);
            if fd < cur.fd_table.len() {
                cur.fd_table.set(fd, Some(file));
            } else if fd < MAX_FD {
                cur.fd_table.push(Some(file));
            } else {
                kernel.current = Some(cur);
                return -1;
            }
            kernel.current = Some(cur);
            proof {
                lemma_current_update_keeps_family(*old(kernel), *kernel);
            }
            fd as isize
        },
    }
}

/// Closes descriptor `fd` of the calling task, which frees its slot.
/// Returns 0; or -1 with nothing changed where the descriptor is not open.
pub fn sys_close(kernel: &mut Kernel, fd: usize) -> (r: isize)
    requires
        old(kernel).wf(),
        old(kernel).current is Some,
    ensures
        final(kernel).wf(),
        ({
            let before = old(kernel).current.unwrap();
            if file_at(before.fd_table@, fd) is Some {
                &&& r == 0
                &&& final(kernel).current matches Some(t)
                &&& *final(kernel) == (Kernel { current: Some(t), ..*old(kernel) })
                &&& t == (TaskControlBlock { fd_table: t.fd_table, ..before })
                &&& t.fd_table@ == before.fd_table@.update(fd as int, None)
            } else {
                r == -1 && *final(kernel) == *old(kernel)
            }
        }),
{
    let mut cur = kernel.current.take().unwrap();
    if fd >= cur.fd_table.len() || cur.fd_table[fd].is_none() {
        kernel.current = Some(cur);
        return -1;
    }
    cur.fd_table.set(fd, None);
    kernel.current = Some(cur);
    proof {
        lemma_current_update_keeps_family(*old(kernel), *kernel);
    }
    0
}

/// The return value of a link request, given whether the file system made
/// the link: 0 where it did, else -1.
pub fn sys_linkat(linked: bool) -> (r: isize)
    ensures
        r == if linked { 0int } else { -1int },
{
    if linked {
        0
    } else {
        -1
    }
}

/// The return value of an unlink request, given whether the file system
/// removed the name: 0 where it did, else -1.
pub fn sys_unlinkat(unlinked: bool) -> (r: isize)
    ensures
        r == if unlinked { 0int } else { -1int },
{
    if unlinked {
        0
    } else {
        -1
    }
}

} // verus!
