//! Constants of the kernel.

use vstd::prelude::*;

verus! {

/// Bytes in one page.
pub const PAGE_SIZE: usize = 4096;

/// The stride that a task of priority 1 would advance by on each fetch.
pub const BIG_STRIDE: u64 = 0x1_0000_0000;

/// Half of the stride space: two strides are comparable while they lie less
/// than this far apart.
pub const STRIDE_HALF: u64 = 0x8000_0000_0000_0000;

/// The least priority a task may have.
pub const MIN_PRIORITY: u64 = 2;

/// The priority of a task that never set one.
pub const DEFAULT_PRIORITY: u64 = 16;

/// Number of system call counters kept for each task.
pub const MAX_SYSCALL_NUM: usize = 500;

/// The greatest process id that can be handed out.
pub const MAX_PID: usize = 0x7fff_ffff;

/// The greatest number of slots in a descriptor table.
pub const MAX_FD: usize = 0x7fff_ffff;

/// The greatest address a program break may reach.
pub const MAX_BRK: usize = 0x7fff_ffff;

} // verus!
