use proc_core::fs::{
    alloc_fd, sys_close, sys_fstat, sys_linkat, sys_open, sys_read, sys_unlinkat, sys_write,
};
use proc_core::kernel::{AppImage, Kernel};
use proc_core::mm::MemorySet;
use proc_core::process::sys_fork;
use proc_core::task::FileHandle;

fn booted() -> Kernel {
    let app = AppImage {
        name: "init".as_bytes().to_vec(),
        memory_set: MemorySet::new(),
        entry: 0,
        user_sp: 0,
        heap_bottom: 0,
    };
    let mut k = Kernel::new(vec![app]);
    assert_eq!(k.add_initproc("init".as_bytes()), 0);
    k.run_next();
    k
}

fn file(id: usize, readable: bool, writable: bool) -> FileHandle {
    FileHandle { id, readable, writable }
}

#[test]
fn open_takes_first_free_slot() {
    let mut k = booted();
    assert_eq!(sys_open(&mut k, Some(file(10, true, false))), 0);
    assert_eq!(sys_open(&mut k, Some(file(11, true, true))), 1);
    assert_eq!(sys_open(&mut k, Some(file(12, false, true))), 2);
    assert_eq!(sys_close(&mut k, 1), 0);
    assert_eq!(alloc_fd(&k.current.as_ref().unwrap().fd_table), 1);
    assert_eq!(sys_open(&mut k, Some(file(13, true, true))), 1);
    assert_eq!(sys_open(&mut k, Some(file(14, true, true))), 3);
    assert_eq!(sys_open(&mut k, None), -1);
    let table = &k.current.as_ref().unwrap().fd_table;
    assert_eq!(table.len(), 4);
    assert_eq!(table[1].unwrap().id, 13);
}

#[test]
fn close_rejects_what_is_not_open() {
    let mut k = booted();
    assert_eq!(sys_close(&mut k, 0), -1);
    assert_eq!(sys_open(&mut k, Some(file(1, true, true))), 0);
    assert_eq!(sys_close(&mut k, 1), -1);
    assert_eq!(sys_close(&mut k, 0), 0);
    assert_eq!(sys_close(&mut k, 0), -1);
    assert_eq!(k.current.as_ref().unwrap().fd_table.len(), 1);
}

#[test]
fn read_and_write_check_the_descriptor() {
    let mut k = booted();
    assert_eq!(sys_open(&mut k, Some(file(5, true, false))), 0);
    assert_eq!(sys_open(&mut k, Some(file(6, false, true))), 1);
    assert_eq!(sys_read(&k, 0).unwrap().id, 5);
    assert_eq!(sys_write(&k, 0).unwrap_err(), -1);
    assert_eq!(sys_read(&k, 1).unwrap_err(), -1);
    assert_eq!(sys_write(&k, 1).unwrap().id, 6);
    assert_eq!(sys_read(&k, 2).unwrap_err(), -1);
    assert_eq!(sys_write(&k, 2).unwrap_err(), -1);
    assert_eq!(sys_fstat(&k, 1).unwrap().id, 6);
    assert_eq!(sys_fstat(&k, 9).unwrap_err(), -1);
    assert_eq!(sys_close(&mut k, 0), 0);
    assert_eq!(sys_read(&k, 0).unwrap_err(), -1);
    assert_eq!(sys_fstat(&k, 0).unwrap_err(), -1);
}

#[test]
fn fork_duplicates_the_descriptor_table() {
    let mut k = booted();
    assert_eq!(sys_open(&mut k, Some(file(5, true, true))), 0);
    assert_eq!(sys_fork(&mut k), 1);
    assert_eq!(sys_close(&mut k, 0), 0);
    assert!(k.current.as_ref().unwrap().fd_table[0].is_none());
    assert_eq!(k.manager.ready_vec[0].fd_table[0].unwrap().id, 5);
}

#[test]
fn link_results() {
    assert_eq!(sys_linkat(true), 0);
    assert_eq!(sys_linkat(false), -1);
    assert_eq!(sys_unlinkat(true), 0);
    assert_eq!(sys_unlinkat(false), -1);
}
