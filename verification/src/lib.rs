//! Process and memory management core of a small single-hart kernel:
//! a stride scheduler, process control blocks with their address spaces and
//! descriptor tables, and the system calls that act on them.
//!
//! All kernel state lives in an explicit [`kernel::Kernel`] value that the
//! system calls take by reference.

pub mod config;
pub mod mm;
pub mod task;
pub mod manager;
pub mod marshal;
pub mod kernel;
pub mod process;
pub mod fs;
pub mod family;
