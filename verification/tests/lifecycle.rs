use proc_core::kernel::{AppImage, Kernel};
use proc_core::mm::MemorySet;
use proc_core::process::{
    sys_exec, sys_exit, sys_fork, sys_getpid, sys_sbrk, sys_set_priority, sys_spawn, sys_waitpid,
    sys_yield,
};
use proc_core::task::TaskStatus;

fn image(name: &str, first_page: usize, entry: usize) -> AppImage {
    let mut memory_set = MemorySet::new();
    memory_set.insert_area(first_page, first_page + 4, 2 | 8 | 16);
    AppImage {
        name: name.as_bytes().to_vec(),
        memory_set,
        entry,
        user_sp: 0x8000,
        heap_bottom: 0x9000,
    }
}

fn booted() -> Kernel {
    let mut k = Kernel::new(vec![image("init", 16, 0x10000), image("app", 32, 0x20000)]);
    assert_eq!(k.add_initproc("init".as_bytes()), 0);
    k.run_next();
    k
}

#[test]
fn boot_runs_the_first_task() {
    let k = booted();
    let cur = k.current.as_ref().unwrap();
    assert_eq!(cur.pid, 0);
    assert_eq!(cur.status, TaskStatus::Running);
    assert_eq!(cur.parent, None);
    assert_eq!(cur.priority, 16);
    assert_eq!(cur.stride, 0x1000_0000);
    assert_eq!(cur.trap_cx.sepc, 0x10000);
    assert_eq!(k.manager.ready_vec.len(), 0);
    assert_eq!(sys_getpid(&k), 0);
}

#[test]
fn add_initproc_unknown_program_fails() {
    let mut k = Kernel::new(vec![image("init", 16, 0x10000)]);
    assert_eq!(k.add_initproc("nothing".as_bytes()), -1);
    assert_eq!(k.manager.ready_vec.len(), 0);
    assert_eq!(k.next_pid, 0);
}

#[test]
fn fork_makes_a_ready_child() {
    let mut k = booted();
    k.current.as_mut().unwrap().trap_cx.a0 = 77;
    let pid = sys_fork(&mut k);
    assert_eq!(pid, 1);
    let parent = k.current.as_ref().unwrap();
    assert_eq!(parent.children, vec![1]);
    assert_eq!(parent.trap_cx.a0, 77);
    assert_eq!(k.manager.ready_vec.len(), 1);
    let child = &k.manager.ready_vec[0];
    assert_eq!(child.pid, 1);
    assert_eq!(child.parent, Some(0));
    assert_eq!(child.status, TaskStatus::Ready);
    assert_eq!(child.trap_cx.a0, 0);
    assert_eq!(child.trap_cx.sepc, parent.trap_cx.sepc);
    assert_eq!(child.memory_set.areas.len(), 1);
    assert_eq!(child.memory_set.areas[0].start_vpn, 16);
    assert_eq!(child.stride, parent.stride);
    assert_eq!(child.priority, parent.priority);
    assert_eq!(k.next_pid, 2);
}

#[test]
fn fork_then_waitpid_then_exit_then_waitpid() {
    let mut k = booted();
    let pid = sys_fork(&mut k);
    assert_eq!(pid, 1);
    let mut code: i32 = -99;
    assert_eq!(sys_waitpid(&mut k, pid, &mut code), -2);
    assert_eq!(code, -99);
    assert_eq!(sys_yield(&mut k), 0);
    assert_eq!(sys_getpid(&k), 1);
    sys_exit(&mut k, 7);
    assert_eq!(sys_getpid(&k), 0);
    assert_eq!(k.zombies.len(), 1);
    assert_eq!(k.zombies[0].status, TaskStatus::Zombie);
    assert_eq!(k.manager.ready_vec.len(), 0);
    assert_eq!(sys_waitpid(&mut k, pid, &mut code), 1);
    assert_eq!(code, 7);
    assert_eq!(k.zombies.len(), 0);
    assert!(k.current.as_ref().unwrap().children.is_empty());
    assert_eq!(sys_waitpid(&mut k, pid, &mut code), -1);
}

#[test]
fn waitpid_any_reaps_first_zombie_child() {
    let mut k = booted();
    assert_eq!(sys_fork(&mut k), 1);
    assert_eq!(sys_fork(&mut k), 2);
    assert_eq!(sys_fork(&mut k), 3);
    let mut code: i32 = 0;
    assert_eq!(sys_waitpid(&mut k, -1, &mut code), -2);
    // Children 1, 2 and 3 run in turn; 3 and then 2 exit, 1 keeps running.
    assert_eq!(sys_yield(&mut k), 0);
    assert_eq!(sys_getpid(&k), 1);
    assert_eq!(sys_yield(&mut k), 0);
    assert_eq!(sys_getpid(&k), 2);
    assert_eq!(sys_yield(&mut k), 0);
    assert_eq!(sys_getpid(&k), 3);
    sys_exit(&mut k, 33);
    assert_eq!(sys_getpid(&k), 0);
    assert_eq!(sys_yield(&mut k), 0);
    assert_eq!(sys_getpid(&k), 1);
    assert_eq!(sys_yield(&mut k), 0);
    assert_eq!(sys_getpid(&k), 2);
    sys_exit(&mut k, 22);
    assert_eq!(sys_getpid(&k), 0);
    assert_eq!(k.zombies[0].pid, 3);
    assert_eq!(k.zombies[1].pid, 2);
    assert_eq!(sys_waitpid(&mut k, -1, &mut code), 2);
    assert_eq!(code, 22);
    assert_eq!(k.current.as_ref().unwrap().children, vec![1, 3]);
    assert_eq!(sys_waitpid(&mut k, -1, &mut code), 3);
    assert_eq!(code, 33);
    assert_eq!(sys_waitpid(&mut k, -1, &mut code), -2);
    assert_eq!(sys_waitpid(&mut k, 1, &mut code), -2);
}

#[test]
fn waitpid_for_unknown_pid_fails() {
    let mut k = booted();
    let mut code: i32 = 5;
    assert_eq!(sys_waitpid(&mut k, -1, &mut code), -1);
    assert_eq!(sys_fork(&mut k), 1);
    assert_eq!(sys_waitpid(&mut k, 42, &mut code), -1);
    assert_eq!(sys_waitpid(&mut k, -5, &mut code), -1);
    assert_eq!(code, 5);
    assert_eq!(k.current.as_ref().unwrap().children, vec![1]);
}

#[test]
fn spawn_known_and_unknown_program() {
    let mut k = booted();
    let pid = sys_spawn(&mut k, "app".as_bytes());
    assert_ne!(pid, -1);
    assert_eq!(pid, 1);
    let count = k.manager.ready_vec.iter().filter(|t| t.pid == 1).count();
    assert_eq!(count, 1);
    let child = &k.manager.ready_vec[0];
    assert_eq!(child.parent, Some(0));
    assert_eq!(child.trap_cx.sepc, 0x20000);
    assert_eq!(child.memory_set.areas[0].start_vpn, 32);
    assert_eq!(child.priority, 16);
    assert_eq!(k.current.as_ref().unwrap().children, vec![1]);
    assert_eq!(sys_spawn(&mut k, "missing".as_bytes()), -1);
    assert_eq!(k.manager.ready_vec.len(), 1);
    assert_eq!(k.next_pid, 2);
}

#[test]
fn exec_replaces_the_image_only() {
    let mut k = booted();
    assert_eq!(sys_fork(&mut k), 1);
    assert_eq!(sys_exec(&mut k, "app".as_bytes()), 0);
    let cur = k.current.as_ref().unwrap();
    assert_eq!(cur.pid, 0);
    assert_eq!(cur.children, vec![1]);
    assert_eq!(cur.trap_cx.sepc, 0x20000);
    assert_eq!(cur.trap_cx.sp, 0x8000);
    assert_eq!(cur.memory_set.areas.len(), 1);
    assert_eq!(cur.memory_set.areas[0].start_vpn, 32);
    assert_eq!(cur.program_brk, 0x9000);
    assert_eq!(sys_exec(&mut k, "ap".as_bytes()), -1);
    assert_eq!(k.current.as_ref().unwrap().trap_cx.sepc, 0x20000);
}

#[test]
fn set_priority_bounds() {
    let mut k = booted();
    assert_eq!(sys_set_priority(&mut k, 1), -1);
    assert_eq!(sys_set_priority(&mut k, 0), -1);
    assert_eq!(sys_set_priority(&mut k, -3), -1);
    assert_eq!(k.current.as_ref().unwrap().priority, 16);
    assert_eq!(sys_set_priority(&mut k, 2), 2);
    assert_eq!(k.current.as_ref().unwrap().priority, 2);
    assert_eq!(sys_set_priority(&mut k, 40), 40);
    assert_eq!(k.current.as_ref().unwrap().priority, 40);
}

#[test]
fn set_priority_changes_the_step() {
    let mut k = booted();
    assert_eq!(sys_set_priority(&mut k, 2), 2);
    let before = k.current.as_ref().unwrap().stride;
    assert_eq!(sys_yield(&mut k), 0);
    let after = k.current.as_ref().unwrap().stride;
    assert_eq!(after - before, 0x8000_0000);
}

#[test]
fn yield_alone_keeps_running() {
    let mut k = booted();
    assert_eq!(sys_yield(&mut k), 0);
    assert_eq!(sys_getpid(&k), 0);
    assert_eq!(k.current.as_ref().unwrap().status, TaskStatus::Running);
    assert_eq!(k.manager.ready_vec.len(), 0);
}

#[test]
fn exit_of_last_task_leaves_nothing_running() {
    let mut k = booted();
    sys_exit(&mut k, -4);
    assert!(k.current.is_none());
    assert_eq!(k.zombies.len(), 1);
    assert_eq!(k.zombies[0].exit_code, -4);
}

#[test]
fn sbrk_moves_the_break() {
    let mut k = booted();
    assert_eq!(sys_sbrk(&mut k, 0), 0x9000);
    assert_eq!(sys_sbrk(&mut k, 0x100), 0x9000);
    assert_eq!(sys_sbrk(&mut k, -0x80), 0x9100);
    assert_eq!(k.current.as_ref().unwrap().program_brk, 0x9080);
    assert_eq!(sys_sbrk(&mut k, -0x81), -1);
    assert_eq!(k.current.as_ref().unwrap().program_brk, 0x9080);
    assert_eq!(sys_sbrk(&mut k, i32::MAX), -1);
    assert_eq!(sys_sbrk(&mut k, -0x80), 0x9080);
    assert_eq!(k.current.as_ref().unwrap().program_brk, 0x9000);
}

#[test]
fn children_name_their_parent() {
    let mut k = booted();
    assert_eq!(sys_fork(&mut k), 1);
    assert_eq!(sys_spawn(&mut k, "app".as_bytes()), 2);
    assert_eq!(sys_yield(&mut k), 0);
    assert_eq!(sys_getpid(&k), 1);
    assert_eq!(sys_fork(&mut k), 3);
    let running = k.current.as_ref().unwrap();
    assert_eq!(running.parent, Some(0));
    assert_eq!(running.children, vec![3]);
    for t in k.manager.ready_vec.iter() {
        match t.pid {
            0 => assert_eq!(t.parent, None),
            2 => assert_eq!(t.parent, Some(0)),
            3 => assert_eq!(t.parent, Some(1)),
            _ => panic!("unknown task in the ready pool"),
        }
    }
    assert_eq!(k.manager.ready_vec.len(), 3);
}
