//! The process control block.

use vstd::prelude::*;
use crate::config::{MAX_BRK, MAX_FD, MAX_PID, MAX_SYSCALL_NUM};
use crate::mm::MemorySet;

verus! {

/// Where a task stands in its life cycle.
#[derive(Clone, Copy, Debug, PartialEq, Eq, Structural)]
pub enum TaskStatus {
    Ready,
    Running,
    Zombie,
}

/// The saved register image from which a task resumes.
#[derive(Clone, Copy, Debug)]
pub struct TrapContext {
    /// The register that carries a system call's return value.
    pub a0: usize,
    /// The user stack pointer.
    pub sp: usize,
    /// The address at which execution resumes.
    pub sepc: usize,
}

/// An opaque handle on an open file, shared by every descriptor that was
/// duplicated from the one that opened it.
#[derive(Clone, Copy, Debug)]
pub struct FileHandle {
    pub id: usize,
    pub readable: bool,
    pub writable: bool,
}

/// The kernel's record of one task.
pub struct TaskControlBlock {
    pub pid: usize,
    pub status: TaskStatus,
    /// Meaningful once the task is a zombie.
    pub exit_code: i32,
    /// The pid of the task that created this one.
    pub parent: Option<usize>,
    /// The pids of the tasks this one created and has not reaped, oldest first.
    pub children: Vec<usize>,
    /// Distance travelled so far, modulo the width of the field.
    pub stride: u64,
    pub priority: u64,
    pub memory_set: MemorySet,
    pub fd_table: Vec<Option<FileHandle>>,
    pub trap_cx: TrapContext,
    pub heap_bottom: usize,
    pub program_brk: usize,
    /// How often each system call was made.
    pub syscall_times: Vec<u32>,
    /// When the task was first scheduled, in milliseconds.
    pub start_time: usize,
}

impl TaskControlBlock {
    /// The invariant of a control block: a priority of at least two, a
    /// well-formed address space, a break above the heap's floor, one counter
    /// per system call, and a pid and a descriptor table that fit a return value.
    pub open spec fn wf(&self) -> bool {
        &&& self.priority >= 2
        &&& self.memory_set.wf()
        &&& self.heap_bottom <= self.program_brk <= MAX_BRK
        &&& self.syscall_times@.len() == MAX_SYSCALL_NUM
        &&& self.pid <= MAX_PID
        &&& self.fd_table@.len() <= MAX_FD
    }

    pub fn getpid(&self) -> (r: usize)
        ensures
            r == self.pid,
    {
        self.pid
    }

    pub fn is_zombie(&self) -> (r: bool)
        ensures
            r == (self.status is Zombie),
    {
        match self.status {
            TaskStatus::Zombie => true,
            _ => false,
        }
    }
}

} // verus!
