use proc_core::kernel::{AppImage, Kernel};
use proc_core::marshal::{copy_to_spans, push_le_bytes8, push_le_words};
use proc_core::mm::MemorySet;
use proc_core::process::{sys_get_time, sys_task_info, TaskInfo, TimeVal};
use proc_core::task::TaskStatus;

fn booted() -> Kernel {
    let app = AppImage {
        name: "init".as_bytes().to_vec(),
        memory_set: MemorySet::new(),
        entry: 0,
        user_sp: 0,
        heap_bottom: 0,
    };
    let mut k = Kernel::new(vec![app]);
    assert_eq!(k.add_initproc("init".as_bytes()), 0);
    k.run_next();
    k
}

#[test]
fn le_bytes_of_a_word() {
    let mut out = vec![9u8];
    push_le_bytes8(&mut out, 0x0102_0304_0506_0708);
    assert_eq!(out, vec![9, 8, 7, 6, 5, 4, 3, 2, 1]);
    let mut out2 = Vec::new();
    push_le_words(&mut out2, &vec![1u32, 0xa0b0_c0d0]);
    assert_eq!(out2, vec![1, 0, 0, 0, 0xd0, 0xc0, 0xb0, 0xa0]);
}

#[test]
fn copy_fills_spans_in_order() {
    let bytes = vec![1u8, 2, 3, 4, 5];
    let mut spans = vec![vec![0u8; 2], vec![], vec![0u8; 2], vec![7u8; 3]];
    assert_eq!(copy_to_spans(&bytes, &mut spans), 5);
    assert_eq!(spans, vec![vec![1u8, 2], vec![], vec![3, 4], vec![5, 7, 7]]);
}

#[test]
fn copy_stops_where_the_spans_end() {
    let bytes = vec![1u8, 2, 3, 4, 5];
    let mut spans = vec![vec![0u8; 1], vec![0u8; 2]];
    assert_eq!(copy_to_spans(&bytes, &mut spans), 3);
    assert_eq!(spans, vec![vec![1u8], vec![2, 3]]);
    let mut none: Vec<Vec<u8>> = Vec::new();
    assert_eq!(copy_to_spans(&bytes, &mut none), 0);
}

#[test]
fn time_val_bytes() {
    let tv = TimeVal { sec: 3, usec: 0x1_0002 };
    assert_eq!(tv.to_bytes(), vec![3, 0, 0, 0, 0, 0, 0, 0, 2, 0, 1, 0, 0, 0, 0, 0]);
}

#[test]
fn get_time_splits_seconds_and_microseconds() {
    let mut spans = vec![vec![0xffu8; 5], vec![0xffu8; 11], vec![0xffu8; 2]];
    assert_eq!(sys_get_time(3_000_258, &mut spans), 0);
    assert_eq!(spans[0], vec![3, 0, 0, 0, 0]);
    assert_eq!(spans[1], vec![0, 0, 0, 2, 1, 0, 0, 0, 0, 0, 0]);
    assert_eq!(spans[2], vec![0xff, 0xff]);
}

#[test]
fn get_time_reports_a_short_destination() {
    let mut spans = vec![vec![0u8; 15]];
    assert_eq!(sys_get_time(1_000_000, &mut spans), -1);
    assert_eq!(spans[0][0], 1);
    let mut empty: Vec<Vec<u8>> = Vec::new();
    assert_eq!(sys_get_time(1, &mut empty), -1);
}

#[test]
fn task_info_layout() {
    let mut k = booted();
    k.record_start(40);
    k.record_start(50);
    assert_eq!(k.current.as_ref().unwrap().start_time, 40);
    k.count_syscall(0);
    k.count_syscall(2);
    k.count_syscall(2);
    k.count_syscall(499);
    k.count_syscall(500);
    let mut spans = vec![vec![0u8; 1000], vec![0u8; 1016]];
    assert_eq!(sys_task_info(&k, 40 + 0x0203, &mut spans), 0);
    let flat: Vec<u8> = spans.concat();
    assert_eq!(flat.len(), 2016);
    assert_eq!(&flat[0..8], &[1, 0, 0, 0, 0, 0, 0, 0]);
    assert_eq!(&flat[8..12], &[1, 0, 0, 0]);
    assert_eq!(&flat[12..16], &[0, 0, 0, 0]);
    assert_eq!(&flat[16..20], &[2, 0, 0, 0]);
    assert_eq!(&flat[2004..2008], &[1, 0, 0, 0]);
    assert_eq!(&flat[2008..2016], &[3, 2, 0, 0, 0, 0, 0, 0]);
    let mut short = vec![vec![0u8; 2015]];
    assert_eq!(sys_task_info(&k, 40, &mut short), -1);
}

#[test]
fn task_info_bytes_of_a_value() {
    let info = TaskInfo { status: TaskStatus::Zombie, syscall_times: vec![5, 6], time: 9 };
    let bytes = info.to_bytes();
    assert_eq!(bytes.len(), 24);
    assert_eq!(bytes[0], 2);
    assert_eq!(bytes[8], 5);
    assert_eq!(bytes[12], 6);
    assert_eq!(bytes[16], 9);
}

#[test]
fn full_counter_stays() {
    let mut k = booted();
    k.current.as_mut().unwrap().syscall_times[7] = u32::MAX;
    k.count_syscall(7);
    assert_eq!(k.current.as_ref().unwrap().syscall_times[7], u32::MAX);
}
