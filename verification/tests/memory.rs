use proc_core::kernel::{AppImage, Kernel};
use proc_core::mm::MemorySet;
use proc_core::process::{sys_mmap, sys_munmap};

fn booted() -> Kernel {
    let app = AppImage {
        name: "init".as_bytes().to_vec(),
        memory_set: MemorySet::new(),
        entry: 0,
        user_sp: 0,
        heap_bottom: 0,
    };
    let mut k = Kernel::new(vec![app]);
    assert_eq!(k.add_initproc("init".as_bytes()), 0);
    k.run_next();
    k
}

fn perm(k: &Kernel, vpn: usize) -> Option<u8> {
    k.current.as_ref().unwrap().memory_set.translate(vpn)
}

#[test]
fn mmap_maps_every_touched_page() {
    let mut k = booted();
    assert_eq!(sys_mmap(&mut k, 0x10000, 0x2001, 3), 0);
    assert_eq!(perm(&k, 0xf), None);
    assert_eq!(perm(&k, 0x10), Some(2 | 4 | 16));
    assert_eq!(perm(&k, 0x11), Some(22));
    assert_eq!(perm(&k, 0x12), Some(22));
    assert_eq!(perm(&k, 0x13), None);
}

#[test]
fn mmap_permission_masks() {
    let mut k = booted();
    assert_eq!(sys_mmap(&mut k, 0x1000, 0x1000, 1), 0);
    assert_eq!(sys_mmap(&mut k, 0x2000, 0x1000, 2), 0);
    assert_eq!(sys_mmap(&mut k, 0x3000, 0x1000, 4), 0);
    assert_eq!(sys_mmap(&mut k, 0x4000, 0x1000, 7), 0);
    assert_eq!(perm(&k, 1), Some(18));
    assert_eq!(perm(&k, 2), Some(20));
    assert_eq!(perm(&k, 3), Some(24));
    assert_eq!(perm(&k, 4), Some(30));
}

#[test]
fn mmap_rejects_bad_arguments() {
    let mut k = booted();
    assert_eq!(sys_mmap(&mut k, 0x10001, 0x1000, 3), -1);
    assert_eq!(sys_mmap(&mut k, 0x10000, 0x1000, 0), -1);
    assert_eq!(sys_mmap(&mut k, 0x10000, 0x1000, 8), -1);
    assert_eq!(sys_mmap(&mut k, 0x10000, 0x1000, 0x13), -1);
    assert_eq!(sys_mmap(&mut k, 0x10000, usize::MAX, 3), -1);
    assert_eq!(perm(&k, 0x10), None);
    assert!(k.current.as_ref().unwrap().memory_set.areas.is_empty());
}

#[test]
fn mmap_overlap_fails_then_munmap_once() {
    let mut k = booted();
    assert_eq!(sys_mmap(&mut k, 0x10000, 0x3000, 3), 0);
    assert_eq!(sys_mmap(&mut k, 0x12000, 0x2000, 1), -1);
    assert_eq!(sys_mmap(&mut k, 0xf000, 0x1001, 1), -1);
    assert_eq!(perm(&k, 0xf), None);
    assert_eq!(perm(&k, 0x13), None);
    assert_eq!(perm(&k, 0x12), Some(22));
    assert_eq!(sys_munmap(&mut k, 0x10000, 0x3000), 0);
    assert_eq!(perm(&k, 0x10), None);
    assert_eq!(perm(&k, 0x11), None);
    assert_eq!(perm(&k, 0x12), None);
    assert_eq!(sys_munmap(&mut k, 0x10000, 0x3000), -1);
    assert_eq!(sys_mmap(&mut k, 0x10000, 0x3000, 1), 0);
    assert_eq!(perm(&k, 0x11), Some(18));
}

#[test]
fn munmap_with_a_hole_changes_nothing() {
    let mut k = booted();
    assert_eq!(sys_mmap(&mut k, 0x10000, 0x1000, 3), 0);
    assert_eq!(sys_mmap(&mut k, 0x12000, 0x1000, 3), 0);
    assert_eq!(sys_munmap(&mut k, 0x10000, 0x3000), -1);
    assert_eq!(perm(&k, 0x10), Some(22));
    assert_eq!(perm(&k, 0x11), None);
    assert_eq!(perm(&k, 0x12), Some(22));
    assert_eq!(sys_munmap(&mut k, 0x10800, 0x1000), -1);
    assert_eq!(perm(&k, 0x10), Some(22));
}

#[test]
fn munmap_splits_an_area() {
    let mut k = booted();
    assert_eq!(sys_mmap(&mut k, 0x10000, 0x5000, 5), 0);
    assert_eq!(sys_munmap(&mut k, 0x11000, 0x2000), 0);
    assert_eq!(perm(&k, 0x10), Some(26));
    assert_eq!(perm(&k, 0x11), None);
    assert_eq!(perm(&k, 0x12), None);
    assert_eq!(perm(&k, 0x13), Some(26));
    assert_eq!(perm(&k, 0x14), Some(26));
    assert_eq!(k.current.as_ref().unwrap().memory_set.areas.len(), 2);
    assert_eq!(sys_mmap(&mut k, 0x11000, 0x2000, 1), 0);
    assert_eq!(perm(&k, 0x12), Some(18));
}

#[test]
fn munmap_across_two_areas() {
    let mut k = booted();
    assert_eq!(sys_mmap(&mut k, 0x10000, 0x2000, 1), 0);
    assert_eq!(sys_mmap(&mut k, 0x12000, 0x2000, 2), 0);
    assert_eq!(sys_munmap(&mut k, 0x11000, 0x2000), 0);
    assert_eq!(perm(&k, 0x10), Some(18));
    assert_eq!(perm(&k, 0x11), None);
    assert_eq!(perm(&k, 0x12), None);
    assert_eq!(perm(&k, 0x13), Some(20));
}

#[test]
fn munmap_rejects_misaligned_start() {
    let mut k = booted();
    assert_eq!(sys_mmap(&mut k, 0x10000, 0x2000, 1), 0);
    assert_eq!(sys_munmap(&mut k, 0x10010, 0x1000), -1);
    assert_eq!(perm(&k, 0x10), Some(18));
}

#[test]
fn empty_ranges_succeed_without_effect() {
    let mut k = booted();
    assert_eq!(sys_mmap(&mut k, 0x10000, 0, 1), 0);
    assert_eq!(perm(&k, 0x10), None);
    assert_eq!(sys_munmap(&mut k, 0x10000, 0), 0);
    assert_eq!(sys_munmap(&mut k, 0x10000, 0), 0);
}
