//! The system calls that control processes and their address spaces.

use vstd::prelude::*;
use crate::config::{MAX_BRK, MAX_PID, MAX_SYSCALL_NUM};
use crate::family::{
    lemma_current_update_keeps_family, lemma_new_child_keeps_family, lemma_reap_keeps_family,
    lemma_retire_keeps_family, lemma_suspend_keeps_family,
};
use crate::kernel::{
    copy_vec, find_pid, has_pid, is_first_named, is_first_with_pid, is_fresh_task, known_app,
    new_task, switched, AppImage, Kernel,
};
use crate::marshal::{
    copied_across, copied_count, copy_to_spans, le_bytes8, le_words, push_le_bytes8, push_le_words,
};
use crate::mm::{vpn_ceil, vpn_floor, MapArea, MemorySet};
use crate::task::{TaskControlBlock, TaskStatus, TrapContext};

verus! {

/// A point in time as seconds and microseconds.
#[derive(Debug)]
pub struct TimeVal {
    pub sec: usize,
    pub usec: usize,
}

/// A snapshot of a task for its own inspection.
pub struct TaskInfo {
    /// Where the task stands in its life cycle.
    pub status: TaskStatus,
    /// How often the task made each system call.
    pub syscall_times: Vec<u32>,
    /// For how long the task has run, in milliseconds.
    pub time: usize,
}

/// The number by which a status is written out.
pub open spec fn status_code(status: TaskStatus) -> u64 {
    match status {
        TaskStatus::Ready => 0,
        TaskStatus::Running => 1,
        TaskStatus::Zombie => 2,
    }
}

/// The bytes of a snapshot with these parts: the status as eight bytes,
/// four bytes for each counter, and the time as eight bytes.
pub open spec fn task_info_bytes(status: TaskStatus, syscall_times: Seq<u32>, time: usize) -> Seq<u8> {
    le_bytes8(status_code(status)) + le_words(syscall_times) + le_bytes8(time as u64)
}

/// The time `us` microseconds after the start, as seconds and the
/// microseconds beyond them.
pub open spec fn time_val_of(us: usize) -> TimeVal {
    TimeVal { sec: (us / 1_000_000) as usize, usec: (us % 1_000_000) as usize }
}

impl TimeVal {
    /// The sixteen bytes of a time value: seconds, then microseconds, each
    /// as eight bytes with the least significant first.
    pub open spec fn bytes(&self) -> Seq<u8> {
        le_bytes8(self.sec as u64) + le_bytes8(self.usec as u64)
    }

    /// Lays the value out as bytes.
    pub fn to_bytes(&self) -> (r: Vec<u8>)
        ensures
            r@ == self.bytes(),
            r@.len() == 16,
    {
        let mut out: Vec<u8> = Vec::new();
        push_le_bytes8(&mut out, self.sec as u64);
        push_le_bytes8(&mut out, self.usec as u64);
        proof {
            assert(out@ =~= self.bytes());
        }
        out
    }
}

impl TaskInfo {
    /// The bytes of a snapshot: the status as eight bytes, four bytes for
    /// each counter, and the time as eight bytes, all with the least
    /// significant byte first.
    pub open spec fn bytes(&self) -> Seq<u8> {
        task_info_bytes(self.status, self.syscall_times@, self.time)
    }

    /// Lays the snapshot out as bytes.
    pub fn to_bytes(&self) -> (r: Vec<u8>)
        ensures
            r@ == self.bytes(),
            r@.len() == 16 + 4 * self.syscall_times@.len(),
    {
        let code: u64 = match self.status {
            TaskStatus::Ready => 0,
            TaskStatus::Running => 1,
            TaskStatus::Zombie => 2,
        };
        let mut out: Vec<u8> = Vec::new();
        push_le_bytes8(&mut out, code);
        push_le_words(&mut out, &self.syscall_times);
        push_le_bytes8(&mut out, self.time as u64);
        proof {
            assert(out@ =~= self.bytes());
        }
        out
    }
}

/// The task `t` after it has exited with `exit_code`.
pub open spec fn exited(t: TaskControlBlock, exit_code: i32) -> TaskControlBlock {
    TaskControlBlock { status: TaskStatus::Zombie, exit_code, ..t }
}

/// The task `t` as it waits in the ready pool.
pub open spec fn suspended(t: TaskControlBlock) -> TaskControlBlock {
    TaskControlBlock { status: TaskStatus::Ready, ..t }
}

/// What a fork makes of `parent`: a ready task with the process id `pid`
/// that has the parent's address space, descriptors, break, stride and
/// priority, no children, fresh counters, and the parent's registers but for
/// a return value of 0.
pub open spec fn is_fork_child(parent: TaskControlBlock, child: TaskControlBlock, pid: usize) -> bool {
    &&& child.pid == pid
    &&& child.status is Ready
    &&& child.exit_code == 0
    &&& child.parent == Some(parent.pid)
    &&& child.children@.len() == 0
    &&& child.stride == parent.stride
    &&& child.priority == parent.priority
    &&& child.memory_set.areas@ == parent.memory_set.areas@
    &&& child.fd_table@ == parent.fd_table@
    &&& child.trap_cx == (TrapContext { a0: 0, ..parent.trap_cx })
    &&& child.heap_bottom == parent.heap_bottom
    &&& child.program_brk == parent.program_brk
    &&& child.syscall_times@ == Seq::new(MAX_SYSCALL_NUM as nat, |i: int| 0u32)
    &&& child.start_time == 0
}

/// What executing `app` makes of the task `before`: address space,
/// registers and break are those of the fresh image, the rest stays.
pub open spec fn is_exec_of(before: TaskControlBlock, t: TaskControlBlock, app: AppImage) -> bool {
    &&& t.memory_set.areas@ == app.memory_set.areas@
    &&& t == (TaskControlBlock {
        memory_set: t.memory_set,
        trap_cx: (TrapContext { a0: 0, sp: app.user_sp, sepc: app.entry }),
        heap_bottom: app.heap_bottom,
        program_brk: app.heap_bottom,
        ..before
    })
}

/// What a successful fork that returned `r` made of the kernel `pre`: the
/// child has the process id `r`, the next one to hand out, stands last in
/// the caller's children and last in the ready pool, and nothing else changed.
pub open spec fn forked(pre: Kernel, post: Kernel, r: isize) -> bool {
    let parent = pre.current.unwrap();
    let pool = post.manager.ready_vec@;
    &&& r == pre.next_pid
    &&& post.next_pid == pre.next_pid + 1
    &&& post.current matches Some(p)
    &&& p == (TaskControlBlock { children: p.children, ..parent })
    &&& p.children@ == parent.children@.push(pre.next_pid)
    &&& pool.len() == pre.manager.ready_vec@.len() + 1
    &&& pool.drop_last() == pre.manager.ready_vec@
    &&& is_fork_child(parent, pool.last(), pre.next_pid)
    &&& post.zombies == pre.zombies
    &&& post.apps == pre.apps
}

/// Whether a wait for `pid` accepts the child `child`: -1 accepts any.
pub open spec fn wait_matches(pid: isize, child: usize) -> bool {
    pid == -1 || pid == child as int
}

/// Whether the child at position `j` is accepted by a wait for `pid` and
/// has exited.
pub open spec fn reapable(
    children: Seq<usize>,
    zombies: Seq<TaskControlBlock>,
    pid: isize,
    j: int,
) -> bool {
    wait_matches(pid, children[j]) && has_pid(zombies, children[j])
}

/// What a wait for `pid` returns in a task with these children, while
/// these tasks have exited: -1 where no child is accepted, -2 where none of
/// the accepted ones has exited, else the pid of the first that has.
pub open spec fn wait_outcome(children: Seq<usize>, zombies: Seq<TaskControlBlock>, pid: isize) -> int {
    if forall|j: int| 0 <= j < children.len() ==> !wait_matches(pid, #[trigger] children[j]) {
        -1
    } else if forall|j: int| 0 <= j < children.len() ==> !#[trigger] reapable(children, zombies, pid, j) {
        -2
    } else {
        let i = choose|i: int|
            0 <= i < children.len() && #[trigger] reapable(children, zombies, pid, i) && forall|j: int|
                0 <= j < i ==> !#[trigger] reapable(children, zombies, pid, j);
        children[i] as int
    }
}

/// The permissions that a mapping request with the mask `port` asks for:
/// bit 0 of the mask for read, bit 1 for write, bit 2 for execute, and user
/// access in any case.
pub open spec fn mmap_perm(port: usize) -> u8
    recommends
        1 <= port <= 7,
{
    (port * 2 + 16) as u8
}

/// A mask passes the check on its bits, none beyond the lowest three and
/// one of those set, exactly when it lies between 1 and 7; the permissions
/// are then the mask moved up by one bit, with the user bit beside it.
pub proof fn lemma_port_bits(port: u64)
    ensures
        (port & !7u64 == 0 && port & 7u64 != 0) <==> 1 <= port <= 7,
        1 <= port <= 7 ==> ((port | 8) << 1) == port * 2 + 16,
{
    assert((port & !7u64 == 0 && port & 7u64 != 0) <==> 1 <= port <= 7) by (bit_vector);
    assert(1 <= port <= 7 ==> ((port | 8) << 1) == port * 2 + 16) by (bit_vector);
}

/// Whether page `v` lies in the page range that the bytes
/// `[start, start + len)` touch.
pub open spec fn in_pages(start: usize, len: usize, v: int) -> bool {
    vpn_floor(start as int) <= v < vpn_ceil(start + len)
}

/// Whether a mapping request is granted in the address space `ms`.
pub open spec fn mmap_allowed(ms: MemorySet, start: usize, len: usize, port: usize) -> bool {
    &&& start as int % 4096 == 0
    &&& 1 <= port <= 7
    &&& start + len <= usize::MAX
    &&& forall|v: int| in_pages(start, len, v) ==> !ms.mapped(v)
}

/// Whether an unmapping request is granted in the address space `ms`.
pub open spec fn munmap_allowed(ms: MemorySet, start: usize, len: usize) -> bool {
    &&& start as int % 4096 == 0
    &&& start + len <= usize::MAX
    &&& forall|v: int| in_pages(start, len, v) ==> ms.mapped(v)
}

/// The address space `post` maps what `pre` maps and, with the permissions
/// of `port`, every page that `[start, start + len)` touches.
pub open spec fn mapped_over(pre: MemorySet, post: MemorySet, start: usize, len: usize, port: usize) -> bool {
    forall|v: int|
        #[trigger] post.perm_at(v) == if in_pages(start, len, v) {
            Some(mmap_perm(port))
        } else {
            pre.perm_at(v)
        }
}

/// The address space `post` maps what `pre` maps but for the pages that
/// `[start, start + len)` touches, which it leaves unmapped.
pub open spec fn unmapped_over(pre: MemorySet, post: MemorySet, start: usize, len: usize) -> bool {
    forall|v: int|
        #[trigger] post.perm_at(v) == if in_pages(start, len, v) {
            None
        } else {
            pre.perm_at(v)
        }
}

/// The first and one past the last page that `[start, start + len)` touches.
fn page_range(start: usize, len: usize) -> (r: (usize, usize))
    requires
        start + len <= usize::MAX,
    ensures
        r.0 == vpn_floor(start as int),
        r.1 == vpn_ceil(start + len),
        r.0 <= r.1,
{
    let end: usize = start + len;
    let first: usize = start / 4096;
    let last: usize = if end % 4096 == 0 {
        end / 4096
    } else {
        end / 4096 + 1
    };
    (first, last)
}

/// The calling task exits with `exit_code`: it becomes a zombie that is
/// never scheduled again, and the next ready task runs.
pub fn sys_exit(kernel: &mut Kernel, exit_code: i32)
    requires
        old(kernel).wf(),
        old(kernel).current is Some,
    ensures
        final(kernel).wf(),
        final(kernel).zombies@ == old(kernel).zombies@.push(
            exited(old(kernel).current.unwrap(), exit_code),
        ),
        switched(old(kernel).manager.ready_vec@, *final(kernel)),
        final(kernel).next_pid == old(kernel).next_pid,
        final(kernel).apps == old(kernel).apps,
{
    let mut cur = kernel.current.take().unwrap();
    cur.status = TaskStatus::Zombie;
    cur.exit_code = exit_code;
    kernel.zombies.push(cur);
    proof {
        lemma_retire_keeps_family(*old(kernel), *kernel, exit_code);
    }
    kernel.run_next();
}

/// The calling task gives the processor up: it goes to the end of the ready
/// pool, and the task that the scheduler picks runs. Returns 0.
pub fn sys_yield(kernel: &mut Kernel) -> (r: isize)
    requires
        old(kernel).wf(),
        old(kernel).current is Some,
    ensures
        r == 0,
        final(kernel).wf(),
        final(kernel).current is Some,
        switched(
            old(kernel).manager.ready_vec@.push(suspended(old(kernel).current.unwrap())),
            *final(kernel),
        ),
        final(kernel).zombies == old(kernel).zombies,
        final(kernel).next_pid == old(kernel).next_pid,
        final(kernel).apps == old(kernel).apps,
{
    let mut cur = kernel.current.take().unwrap();
    cur.status = TaskStatus::Ready;
    kernel.manager.add(cur);
    proof {
        lemma_suspend_keeps_family(*old(kernel), *kernel);
    }
    kernel.run_next();
    0
}

/// The process id of the calling task.
pub fn sys_getpid(kernel: &Kernel) -> (r: isize)
    requires
        kernel.wf(),
        kernel.current is Some,
    ensures
        r == kernel.current.unwrap().pid,
{
    match &kernel.current {
        Some(t) => t.pid as isize,
        None => 0,
    }
}

/// Duplicates the calling task. The child gets the next process id, joins
/// the caller's children and the ready pool, and will see 0 as its return
/// value; the caller gets the child's pid, or -1 where no process id is left.
pub fn sys_fork(kernel: &mut Kernel) -> (r: isize)
    requires
        old(kernel).wf(),
        old(kernel).current is Some,
    ensures
        final(kernel).wf(),
        r == -1 <==> old(kernel).next_pid > MAX_PID,
        r == -1 ==> *final(kernel) == *old(kernel),
        r != -1 ==> forked(*old(kernel), *final(kernel), r),
{
    if kernel.next_pid > MAX_PID {
        return -1;
    }
    let pid = kernel.next_pid;
    let mut cur = kernel.current.take().unwrap();
    let counters: Vec<u32> = vec![0u32; MAX_SYSCALL_NUM];
    proof {
        assert(counters@ =~= Seq::new(MAX_SYSCALL_NUM as nat, |i: int| 0u32));
    }
    let child = TaskControlBlock {
        pid,
        status: TaskStatus::Ready,
        exit_code: 0,
        parent: Some(cur.pid),
        children: Vec::new(),
        stride: cur.stride,
        priority: cur.priority,
        memory_set: MemorySet { areas: copy_vec(&cur.memory_set.areas) },
        fd_table: copy_vec(&cur.fd_table),
        trap_cx: TrapContext { a0: 0, sp: cur.trap_cx.sp, sepc: cur.trap_cx.sepc },
        heap_bottom: cur.heap_bottom,
        program_brk: cur.program_brk,
        syscall_times: counters,
        start_time: 0,
    };
    cur.children.push(pid);
    kernel.current = Some(cur);
    kernel.manager.add(child);
    kernel.next_pid = pid + 1;
    proof {
        assert(kernel.manager.ready_vec@.drop_last() =~= old(kernel).manager.ready_vec@);
        lemma_new_child_keeps_family(*old(kernel), *kernel);
    }
    pid as isize
}

/// Replaces the calling task's program by the one named `path`: address
/// space, registers and break are those of the fresh image, everything else
/// stays. Returns 0, or -1 with nothing changed where no such program is
/// known.
pub fn sys_exec(kernel: &mut Kernel, path: &[u8]) -> (r: isize)
    requires
        old(kernel).wf(),
        old(kernel).current is Some,
    ensures
        final(kernel).wf(),
        r == -1 <==> !known_app(old(kernel).apps@, path@),
        r == -1 ==> *final(kernel) == *old(kernel),
        r != -1 ==> {
            let before = old(kernel).current.unwrap();
            &&& r == 0
            &&& final(kernel).current matches Some(t)
            &&& exists|i: int|
                #[trigger] is_first_named(old(kernel).apps@, path@, i) && is_exec_of(
                    before,
                    t,
                    old(kernel).apps@[i],
                )
            &&& final(kernel).manager == old(kernel).manager
            &&& final(kernel).zombies == old(kernel).zombies
            &&& final(kernel).next_pid == old(kernel).next_pid
            &&& final(kernel).apps == old(kernel).apps
        },
{
    match kernel.get_app_data_by_name(path) {
        None => -1,
        Some(i) => {
            let mut cur = kernel.current.take().unwrap();
            let app = &kernel.apps[i];
            cur.memory_set = MemorySet { areas: copy_vec(&app.memory_set.areas) };
            cur.trap_cx = TrapContext { a0: 0, sp: app.user_sp, sepc: app.entry };
            cur.heap_bottom = app.heap_bottom;
            cur.program_brk = app.heap_bottom;
            kernel.current = Some(cur);
            proof {
                assert(is_first_named(old(kernel).apps@, path@, i as int));
                lemma_current_update_keeps_family(*old(kernel), *kernel);
            }
            0
        },
    }
}

/// Creates a child of the calling task that runs the program named `path`,
/// without duplicating the caller's address space. The child starts at the
/// caller's stride, joins the caller's children and the ready pool. Returns
/// its pid, or -1 with nothing changed where no such program is known or no
/// process id is left.
pub fn sys_spawn(kernel: &mut Kernel, path: &[u8]) -> (r: isize)
    requires
        old(kernel).wf(),
        old(kernel).current is Some,
    ensures
        final(kernel).wf(),
        r == -1 <==> !known_app(old(kernel).apps@, path@) || old(kernel).next_pid > MAX_PID,
        r == -1 ==> *final(kernel) == *old(kernel),
        r != -1 ==> {
            let parent = old(kernel).current.unwrap();
            let pool = final(kernel).manager.ready_vec@;
            &&& r == old(kernel).next_pid
            &&& final(kernel).next_pid == old(kernel).next_pid + 1
            &&& final(kernel).current matches Some(p)
            &&& p == (TaskControlBlock { children: p.children, ..parent })
            &&& p.children@ == parent.children@.push(old(kernel).next_pid)
            &&& pool.len() == old(kernel).manager.ready_vec@.len() + 1
            &&& pool.drop_last() == old(kernel).manager.ready_vec@
            &&& exists|i: int|
                is_first_named(old(kernel).apps@, path@, i) && is_fresh_task(
                    pool.last(),
                    old(kernel).apps@[i],
                    old(kernel).next_pid,
                    Some(parent.pid),
                    parent.stride,
                )
            &&& final(kernel).zombies == old(kernel).zombies
            &&& final(kernel).apps == old(kernel).apps
        },
{
    if kernel.next_pid > MAX_PID {
        return -1;
    }
    match kernel.get_app_data_by_name(path) {
        None => -1,
        Some(i) => {
            let pid = kernel.next_pid;
            let mut cur = kernel.current.take().unwrap();
            let child = new_task(&kernel.apps[i], pid, Some(cur.pid), cur.stride);
            cur.children.push(pid);
            kernel.current = Some(cur);
            kernel.manager.add(child);
            kernel.next_pid = pid + 1;
            proof {
                assert(final(kernel).manager.ready_vec@.drop_last() =~= old(
                    kernel,
                ).manager.ready_vec@);
                assert(is_first_named(old(kernel).apps@, path@, i as int));
                lemma_new_child_keeps_family(*old(kernel), *kernel);
            }
            pid as isize
        },
    }
}

/// Sets the calling task's priority to `prio` and returns it; a priority
/// below 2 is refused with -1 and changes nothing.
pub fn sys_set_priority(kernel: &mut Kernel, prio: isize) -> (r: isize)
    requires
        old(kernel).wf(),
        old(kernel).current is Some,
    ensures
        final(kernel).wf(),
        prio < 2 ==> r == -1 && *final(kernel) == *old(kernel),
        prio >= 2 ==> r == prio && *final(kernel) == (Kernel {
            current: Some(
                (TaskControlBlock { priority: prio as u64, ..old(kernel).current.unwrap() }),
            ),
            ..*old(kernel)
        }),
{
    if prio < 2 {
        -1
    } else {
        let mut cur = kernel.current.take().unwrap();
        cur.priority = prio as u64;
        kernel.current = Some(cur);
        proof {
            lemma_current_update_keeps_family(*old(kernel), *kernel);
        }
        prio
    }
}

/// Moves the calling task's program break by `size` bytes and returns the
/// break as it was. Returns -1 with nothing changed where the new break
/// would lie below the heap's floor or above what the kernel can give.
pub fn sys_sbrk(kernel: &mut Kernel, size: i32) -> (r: isize)
    requires
        old(kernel).wf(),
        old(kernel).current is Some,
    ensures
        final(kernel).wf(),
        ({
            let before = old(kernel).current.unwrap();
            let target = before.program_brk + size;
            if before.heap_bottom <= target <= MAX_BRK {
                &&& r == before.program_brk
                &&& *final(kernel) == (Kernel {
                    current: Some((TaskControlBlock { program_brk: target as usize, ..before })),
                    ..*old(kernel)
                })
            } else {
                r == -1 && *final(kernel) == *old(kernel)
            }
        }),
{
    let mut cur = kernel.current.take().unwrap();
    let old_brk: usize = cur.program_brk;
    let target: i64 = old_brk as i64 + size as i64;
    if target < cur.heap_bottom as i64 || target > MAX_BRK as i64 {
        kernel.current = Some(cur);
        -1
    } else {
        cur.program_brk = target as usize;
        kernel.current = Some(cur);
        proof {
            lemma_current_update_keeps_family(*old(kernel), *kernel);
        }
        old_brk as isize
    }
}

/// Maps fresh memory over the pages that `[start, start + len)` touches,
/// with the permissions of `port`, as one new area at the end of the calling
/// task's list (none where the range touches no page). Returns 0; or -1 with nothing changed
/// where `start` is not page-aligned, `port` asks for nothing or has a bit
/// beyond the lowest three, the range does not fit the address space, or
/// a page of the range is mapped already.
pub fn sys_mmap(kernel: &mut Kernel, start: usize, len: usize, port: usize) -> (r: isize)
    requires
        old(kernel).wf(),
        old(kernel).current is Some,
    ensures
        final(kernel).wf(),
        ({
            let before = old(kernel).current.unwrap();
            if mmap_allowed(before.memory_set, start, len, port) {
                &&& r == 0
                &&& final(kernel).current matches Some(t)
                &&& *final(kernel) == (Kernel { current: Some(t), ..*old(kernel) })
                &&& t == (TaskControlBlock { memory_set: t.memory_set, ..before })
                &&& mapped_over(before.memory_set, t.memory_set, start, len, port)
                &&& t.memory_set.areas@ == if vpn_floor(start as int) < vpn_ceil(start + len) {
                    before.memory_set.areas@.push(
                        (MapArea {
                            start_vpn: vpn_floor(start as int) as usize,
                            end_vpn: vpn_ceil(start + len) as usize,
                            perm: mmap_perm(port),
                        }),
                    )
                } else {
                    before.memory_set.areas@
                }
            } else {
                r == -1 && *final(kernel) == *old(kernel)
            }
        }),
{
    if start % 4096 != 0 || port == 0 || port > 7 || len > usize::MAX - start {
        return -1;
    }
    let (first, last) = page_range(start, len);
    let mut cur = kernel.current.take().unwrap();
    if !cur.memory_set.range_is_free(first, last) {
        kernel.current = Some(cur);
        return -1;
    }
    if first < last {
        let perm: u8 = (port * 2 + 16) as u8;
        cur.memory_set.insert_area(first, last, perm);
    }
    kernel.current = Some(cur);
    proof {
        lemma_current_update_keeps_family(*old(kernel), *kernel);
    }
    0
}

/// Unmaps the pages that `[start, start + len)` touches. Returns 0; or -1
/// with nothing changed where `start` is not page-aligned, the range does
/// not fit the address space, or a page of the range is not mapped.
pub fn sys_munmap(kernel: &mut Kernel, start: usize, len: usize) -> (r: isize)
    requires
        old(kernel).wf(),
        old(kernel).current is Some,
    ensures
        final(kernel).wf(),
        ({
            let before = old(kernel).current.unwrap();
            if munmap_allowed(before.memory_set, start, len) {
                &&& r == 0
                &&& final(kernel).current matches Some(t)
                &&& *final(kernel) == (Kernel { current: Some(t), ..*old(kernel) })
                &&& t == (TaskControlBlock { memory_set: t.memory_set, ..before })
                &&& unmapped_over(before.memory_set, t.memory_set, start, len)
            } else {
                r == -1 && *final(kernel) == *old(kernel)
            }
        }),
{
    if start % 4096 != 0 || len > usize::MAX - start {
        return -1;
    }
    let (first, last) = page_range(start, len);
    let mut cur = kernel.current.take().unwrap();
    if !cur.memory_set.range_is_mapped(first, last) {
        kernel.current = Some(cur);
        return -1;
    }
    cur.memory_set.remove_range(first, last);
    kernel.current = Some(cur);
    proof {
        lemma_current_update_keeps_family(*old(kernel), *kernel);
    }
    0
}

/// Reaps a child of the calling task. `pid` names the child, or is -1 for
/// any child. Returns -1 where the caller has no such child and -2 where it
/// has but none of them has exited, both with nothing changed. Otherwise the
/// first such child that has exited, in the order of the caller's children,
/// leaves that list and the zombies, its exit code is written to
/// `exit_code`, and its pid is returned.
pub fn sys_waitpid(kernel: &mut Kernel, pid: isize, exit_code: &mut i32) -> (r: isize)
    requires
        old(kernel).wf(),
        old(kernel).current is Some,
    ensures
        final(kernel).wf(),
        r == wait_outcome(old(kernel).current.unwrap().children@, old(kernel).zombies@, pid),
        r == -1 || r == -2 || r >= 0,
        r < 0 ==> *final(kernel) == *old(kernel) && *final(exit_code) == *old(exit_code),
        r >= 0 ==> {
            let before = old(kernel).current.unwrap();
            let zombies = old(kernel).zombies@;
            exists|i: int, k: int|
                {
                    &&& 0 <= i < before.children@.len()
                    &&& reapable(before.children@, zombies, pid, i)
                    &&& forall|j: int| 0 <= j < i ==> !reapable(before.children@, zombies, pid, j)
                    &&& is_first_with_pid(zombies, before.children@[i], k)
                    &&& r == before.children@[i]
                    &&& *final(exit_code) == zombies[k].exit_code
                    &&& final(kernel).zombies@ == zombies.remove(k)
                    &&& final(kernel).current matches Some(t)
                    &&& t == (TaskControlBlock { children: t.children, ..before })
                    &&& t.children@ == before.children@.remove(i)
                    &&& final(kernel).manager == old(kernel).manager
                    &&& final(kernel).next_pid == old(kernel).next_pid
                    &&& final(kernel).apps == old(kernel).apps
                }
        },
{
    let mut cur = kernel.current.take().unwrap();
    let ghost children = cur.children@;
    let ghost zombies = kernel.zombies@;
    let n = cur.children.len();
    let mut any = false;
    let mut i: usize = 0;
    while i < n
        invariant
            0 <= i <= n,
            n == cur.children@.len(),
            old(kernel).wf(),
            old(kernel).current is Some,
            cur == old(kernel).current.unwrap(),
            children == cur.children@,
            zombies == kernel.zombies@,
            *kernel == (Kernel { current: None, ..*old(kernel) }),
            *exit_code == *old(exit_code),
            any <==> exists|j: int| 0 <= j < i && wait_matches(pid, #[trigger] children[j]),
            forall|j: int| 0 <= j < i ==> !#[trigger] reapable(children, zombies, pid, j),
        decreases n - i,
    {
        let c = cur.children[i];
        if pid == -1 || (pid >= 0 && pid as usize == c) {
            any = true;
            match find_pid(&kernel.zombies, c) {
                Some(k) => {
                    proof {
                        assert(reapable(children, zombies, pid, i as int));
                        lemma_wait_outcome_reaps(children, zombies, pid, i as int);
                    }
                    cur.children.remove(i);
                    let z = kernel.zombies.remove(k);
                    *exit_code = z.exit_code;
                    kernel.current = Some(cur);
                    proof {
                        lemma_reap_keeps_family(*old(kernel), *kernel, i as int, k as int);
                    }
                    return z.pid as isize;
                },
                None => {},
            }
        }
        i += 1;
    }
    kernel.current = Some(cur);
    if any {
        -2
    } else {
        -1
    }
}

/// Where position `i` holds the first child that a wait for `pid` can reap,
/// the wait returns that child's pid.
pub proof fn lemma_wait_outcome_reaps(
    children: Seq<usize>,
    zombies: Seq<TaskControlBlock>,
    pid: isize,
    i: int,
)
    requires
        0 <= i < children.len(),
        reapable(children, zombies, pid, i),
        forall|j: int| 0 <= j < i ==> !#[trigger] reapable(children, zombies, pid, j),
    ensures
        wait_outcome(children, zombies, pid) == children[i],
{
    assert(wait_matches(pid, children[i]));
    let c = choose|c: int|
        0 <= c < children.len() && #[trigger] reapable(children, zombies, pid, c) && forall|j: int|
            0 <= j < c ==> !#[trigger] reapable(children, zombies, pid, j);
    assert(c == i);
}

/// Below a child that can be reaped stands a first one that can.
pub proof fn lemma_first_reapable(
    children: Seq<usize>,
    zombies: Seq<TaskControlBlock>,
    pid: isize,
    i: int,
) -> (c: int)
    requires
        0 <= i < children.len(),
        reapable(children, zombies, pid, i),
    ensures
        0 <= c <= i,
        reapable(children, zombies, pid, c),
        forall|j: int| 0 <= j < c ==> !#[trigger] reapable(children, zombies, pid, j),
    decreases i,
{
    if exists|j: int| 0 <= j < i && #[trigger] reapable(children, zombies, pid, j) {
        let j = choose|j: int| 0 <= j < i && #[trigger] reapable(children, zombies, pid, j);
        lemma_first_reapable(children, zombies, pid, j)
    } else {
        i
    }
}

/// Writes the time `us` microseconds after the start, as a time value, into
/// the caller's memory at `spans`. Returns 0; or -1 where the spans are too
/// short to take all sixteen bytes, of which those that fit were written.
pub fn sys_get_time(us: usize, spans: &mut Vec<Vec<u8>>) -> (r: isize)
    ensures
        copied_across(time_val_of(us).bytes(), old(spans)@, final(spans)@),
        r == if copied_count(16, old(spans)@) == 16 {
            0int
        } else {
            -1int
        },
{
    let ts = TimeVal { sec: us / 1_000_000, usec: us % 1_000_000 };
    let bytes = ts.to_bytes();
    let n = copy_to_spans(&bytes, spans);
    if n != 16 {
        -1
    } else {
        0
    }
}

/// Writes a snapshot of the calling task at the time `now_ms`, in
/// milliseconds, into the caller's memory at `spans`: the task is running,
/// with its counters and the time since it was first scheduled. Returns 0; or -1 where the spans are too short
/// to take all of its bytes, of which those that fit were written.
pub fn sys_task_info(kernel: &Kernel, now_ms: usize, spans: &mut Vec<Vec<u8>>) -> (r: isize)
    requires
        kernel.wf(),
        kernel.current is Some,
        now_ms >= kernel.current.unwrap().start_time,
    ensures
        copied_across(
            task_info_bytes(
                TaskStatus::Running,
                kernel.current.unwrap().syscall_times@,
                (now_ms - kernel.current.unwrap().start_time) as usize,
            ),
            old(spans)@,
            final(spans)@,
        ),
        r == if copied_count(2016, old(spans)@) == 2016 {
            0int
        } else {
            -1int
        },
{
    match &kernel.current {
        None => -1,
        Some(t) => {
            let ti = TaskInfo {
                status: TaskStatus::Running,
                syscall_times: copy_vec(&t.syscall_times),
                time: now_ms - t.start_time,
            };
            let bytes = ti.to_bytes();
            let n = copy_to_spans(&bytes, spans);
            if n != 2016 {
                -1
            } else {
                0
            }
        },
    }
}

/// A wait for a child that was just forked, and so has not exited, returns -2.
pub proof fn lemma_wait_after_fork(pre: Kernel, post: Kernel, r: isize)
    requires
        pre.wf(),
        pre.current is Some,
        r != -1,
        forked(pre, post, r),
    ensures
        wait_outcome(post.current.unwrap().children@, post.zombies@, r) == -2,
{
    let children = post.current.unwrap().children@;
    let zombies = post.zombies@;
    assert(children[children.len() - 1] == pre.next_pid);
    assert(wait_matches(r, children[children.len() - 1]));
    assert forall|j: int| 0 <= j < children.len() implies !#[trigger] reapable(
        children,
        zombies,
        r,
        j,
    ) by {
        if wait_matches(r, children[j]) {
            assert(!has_pid(zombies, children[j]));
        }
    }
}

/// Once a child with the process id `pid` has exited with `exit_code`, a
/// wait for `pid` finds it: the wait returns `pid`, and the zombie it reaps
/// carries `exit_code`.
pub proof fn lemma_wait_after_exit(
    children: Seq<usize>,
    zombies: Seq<TaskControlBlock>,
    child: TaskControlBlock,
    exit_code: i32,
    pid: isize,
    i: int,
)
    requires
        0 <= i < children.len(),
        pid >= 0,
        children[i] == pid,
        child.pid == pid,
        !has_pid(zombies, child.pid),
    ensures
        wait_outcome(children, zombies.push(exited(child, exit_code)), pid) == pid,
        is_first_with_pid(zombies.push(exited(child, exit_code)), child.pid, zombies.len() as int),
        zombies.push(exited(child, exit_code))[zombies.len() as int].exit_code == exit_code,
{
    let after = zombies.push(exited(child, exit_code));
    assert(after[zombies.len() as int].pid == child.pid);
    assert(has_pid(after, children[i]));
    assert(reapable(children, after, pid, i));
    assert(wait_matches(pid, children[i]));
    let c = lemma_first_reapable(children, after, pid, i);
    lemma_wait_outcome_reaps(children, after, pid, c);
    assert forall|j: int| 0 <= j < zombies.len() implies (#[trigger] after[j]).pid
        != child.pid by {
        assert(after[j] == zombies[j]);
    }
}

/// A wait for a process id that none of the children has returns -1.
pub proof fn lemma_wait_unknown_pid(children: Seq<usize>, zombies: Seq<TaskControlBlock>, pid: isize)
    requires
        pid != -1,
        forall|j: int| 0 <= j < children.len() ==> #[trigger] children[j] as int != pid,
    ensures
        wait_outcome(children, zombies, pid) == -1,
{
}

/// A wait for any child reaps the first child that has exited, whatever
/// its process id.
pub proof fn lemma_wait_any_reaps_first(children: Seq<usize>, zombies: Seq<TaskControlBlock>, i: int)
    requires
        0 <= i < children.len(),
        has_pid(zombies, children[i]),
        forall|j: int| 0 <= j < i ==> !has_pid(zombies, #[trigger] children[j]),
    ensures
        wait_outcome(children, zombies, -1isize) == children[i],
{
    assert(reapable(children, zombies, -1isize, i));
    lemma_wait_outcome_reaps(children, zombies, -1isize, i);
}

/// After a granted mapping of a range, a second mapping that touches one of
/// its pages is refused, and unmapping the same range is granted.
pub proof fn lemma_mmap_then_overlap(
    pre: MemorySet,
    post: MemorySet,
    start: usize,
    len: usize,
    port: usize,
    start2: usize,
    len2: usize,
    port2: usize,
    shared: int,
)
    requires
        mmap_allowed(pre, start, len, port),
        mapped_over(pre, post, start, len, port),
        in_pages(start, len, shared),
        in_pages(start2, len2, shared),
    ensures
        !mmap_allowed(post, start2, len2, port2),
        munmap_allowed(post, start, len),
{
    assert(post.perm_at(shared) is Some);
    assert(post.mapped(shared));
    assert forall|v: int| in_pages(start, len, v) implies post.mapped(v) by {
        assert(post.perm_at(v) is Some);
    }
}

/// After a granted unmapping of a range that touches at least one page,
/// unmapping the same range again is refused.
pub proof fn lemma_munmap_twice(pre: MemorySet, post: MemorySet, start: usize, len: usize)
    requires
        munmap_allowed(pre, start, len),
        unmapped_over(pre, post, start, len),
        len > 0,
    ensures
        !munmap_allowed(post, start, len),
{
    let v = vpn_floor(start as int);
    assert(in_pages(start, len, v));
    assert(post.perm_at(v) is None);
    assert(!post.mapped(v));
}

} // verus!
