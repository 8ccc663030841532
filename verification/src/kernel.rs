//! The kernel's state: the ready pool, the running task, the zombies that
//! wait to be reaped, and the program images that can be loaded.

use vstd::prelude::*;
use crate::config::{DEFAULT_PRIORITY, MAX_BRK, MAX_PID, MAX_SYSCALL_NUM};
use crate::family::{
    lemma_add_keeps_family, lemma_current_update_keeps_family, lemma_fetch_keeps_family,
    lemma_orphan_keeps_family, lemma_run_next_keeps_family,
};
use crate::manager::{advanced, first_least, strides_of, TaskManager};
use crate::mm::MemorySet;
use crate::task::{FileHandle, TaskControlBlock, TaskStatus, TrapContext};

verus! {

/// A program that can be executed: its name and the initial address space,
/// entry point, stack pointer and heap floor that loading it yields.
pub struct AppImage {
    pub name: Vec<u8>,
    pub memory_set: MemorySet,
    pub entry: usize,
    pub user_sp: usize,
    pub heap_bottom: usize,
}

impl AppImage {
    pub open spec fn wf(&self) -> bool {
        &&& self.memory_set.wf()
        &&& self.heap_bottom <= MAX_BRK
    }
}

/// All state of the process subsystem.
pub struct Kernel {
    /// The tasks that are ready to run.
    pub manager: TaskManager,
    /// The task that runs now.
    pub current: Option<TaskControlBlock>,
    /// The tasks that have exited and were not reaped yet, oldest first.
    pub zombies: Vec<TaskControlBlock>,
    /// The next process id to hand out.
    pub next_pid: usize,
    /// The programs that can be loaded by name.
    pub apps: Vec<AppImage>,
}

/// The task `t` as it runs.
pub open spec fn running(t: TaskControlBlock) -> TaskControlBlock {
    TaskControlBlock { status: TaskStatus::Running, ..t }
}

/// Whether some task of `tasks` has the process id `pid`.
pub open spec fn has_pid(tasks: Seq<TaskControlBlock>, pid: usize) -> bool {
    exists|k: int| 0 <= k < tasks.len() && (#[trigger] tasks[k]).pid == pid
}

/// Position `k` is the first in `tasks` whose task has the process id `pid`.
pub open spec fn is_first_with_pid(tasks: Seq<TaskControlBlock>, pid: usize, k: int) -> bool {
    &&& 0 <= k < tasks.len()
    &&& tasks[k].pid == pid
    &&& forall|j: int| 0 <= j < k ==> (#[trigger] tasks[j]).pid != pid
}

/// Whether the kernel holds the task `t`: in the ready pool, among the
/// zombies, or as the running task.
pub open spec fn is_live(k: Kernel, t: TaskControlBlock) -> bool {
    k.manager.ready_vec@.contains(t) || k.zombies@.contains(t) || k.current == Some(t)
}

/// Whether `pid` stands in the children of `t`.
pub open spec fn has_child(t: TaskControlBlock, pid: usize) -> bool {
    t.children@.contains(pid)
}

/// Every child that a live task lists was handed its process id already,
/// and where a live task lists another live task as its child, that one
/// names it as its parent.
pub open spec fn family_consistent(k: Kernel) -> bool {
    &&& forall|b: TaskControlBlock, c: usize|
        #[trigger] is_live(k, b) && #[trigger] has_child(b, c) ==> c < k.next_pid
    &&& forall|a: TaskControlBlock, b: TaskControlBlock|
        #[trigger] is_live(k, a) && #[trigger] is_live(k, b) && has_child(b, a.pid) ==> a.parent
            == Some(b.pid)
}

/// Whether the links of `task` agree with those of the tasks that `k`
/// holds, so that it can join them.
pub open spec fn fits_family(k: Kernel, task: TaskControlBlock) -> bool {
    &&& forall|c: usize| #[trigger] has_child(task, c) ==> c < k.next_pid
    &&& has_child(task, task.pid) ==> task.parent == Some(task.pid)
    &&& forall|t: TaskControlBlock| #[trigger]
        is_live(k, t) ==> (has_child(t, task.pid) ==> task.parent == Some(t.pid)) && (has_child(
            task,
            t.pid,
        ) ==> t.parent == Some(task.pid))
}

/// No two tasks of `tasks` share a process id.
pub open spec fn pids_distinct(tasks: Seq<TaskControlBlock>) -> bool {
    forall|i: int, j: int|
        0 <= i < j < tasks.len() ==> (#[trigger] tasks[i]).pid != (#[trigger] tasks[j]).pid
}

/// Position `i` is the first in `apps` whose program is named `name`.
pub open spec fn is_first_named(apps: Seq<AppImage>, name: Seq<u8>, i: int) -> bool {
    &&& 0 <= i < apps.len()
    &&& apps[i].name@ == name
    &&& forall|j: int| 0 <= j < i ==> (#[trigger] apps[j]).name@ != name
}

/// Whether a program named `name` can be loaded.
pub open spec fn known_app(apps: Seq<AppImage>, name: Seq<u8>) -> bool {
    exists|i: int| 0 <= i < apps.len() && (#[trigger] apps[i]).name@ == name
}

/// The task that a load of `app` creates.
pub open spec fn is_fresh_task(
    t: TaskControlBlock,
    app: AppImage,
    pid: usize,
    parent: Option<usize>,
    stride: u64,
) -> bool {
    &&& t.pid == pid
    &&& t.status is Ready
    &&& t.exit_code == 0
    &&& t.parent == parent
    &&& t.children@.len() == 0
    &&& t.stride == stride
    &&& t.priority == DEFAULT_PRIORITY
    &&& t.memory_set.areas@ == app.memory_set.areas@
    &&& t.fd_table@.len() == 0
    &&& t.trap_cx == (TrapContext { a0: 0, sp: app.user_sp, sepc: app.entry })
    &&& t.heap_bottom == app.heap_bottom
    &&& t.program_brk == app.heap_bottom
    &&& t.syscall_times@ == Seq::new(MAX_SYSCALL_NUM as nat, |i: int| 0u32)
    &&& t.start_time == 0
}

/// What handing the processor to the next ready task of `pool` leaves in
/// `post`: the task that the scheduler picks runs, with its stride advanced;
/// with an empty pool nothing runs.
pub open spec fn switched(pool: Seq<TaskControlBlock>, post: Kernel) -> bool {
    if pool.len() == 0 {
        post.current is None && post.manager.ready_vec@ == pool
    } else {
        let i = first_least(strides_of(pool), pool.len() as int);
        &&& post.current == Some(running(advanced(pool[i])))
        &&& post.manager.ready_vec@ == pool.remove(i)
    }
}

/// A copy of `v`.
pub fn copy_vec<T: Copy>(v: &Vec<T>) -> (r: Vec<T>)
    ensures
        r@ == v@,
{
    let mut r: Vec<T> = Vec::new();
    let mut i: usize = 0;
    while i < v.len()
        invariant
            0 <= i <= v.len(),
            r@ == v@.take(i as int),
        decreases v.len() - i,
    {
        r.push(v[i]);
        proof {
            assert(v@.take(i + 1) =~= v@.take(i as int).push(v@[i as int]));
        }
        i += 1;
    }
    proof {
        assert(v@.take(i as int) =~= v@);
    }
    r
}

/// Whether the two byte strings are the same.
pub fn bytes_equal(a: &Vec<u8>, b: &[u8]) -> (r: bool)
    ensures
        r == (a@ == b@),
{
    if a.len() != b.len() {
        return false;
    }
    let mut i: usize = 0;
    while i < a.len()
        invariant
            0 <= i <= a.len(),
            a.len() == b.len(),
            forall|j: int| 0 <= j < i ==> a@[j] == b@[j],
        decreases a.len() - i,
    {
        if a[i] != b[i] {
            return false;
        }
        i += 1;
    }
    proof {
        assert(a@ =~= b@);
    }
    true
}

/// The position in `tasks` of the first task with the process id `pid`.
pub fn find_pid(tasks: &Vec<TaskControlBlock>, pid: usize) -> (r: Option<usize>)
    ensures
        r is None <==> !has_pid(tasks@, pid),
        r matches Some(k) ==> is_first_with_pid(tasks@, pid, k as int),
{
    let mut k: usize = 0;
    while k < tasks.len()
        invariant
            0 <= k <= tasks.len(),
            forall|j: int| 0 <= j < k ==> (#[trigger] tasks@[j]).pid != pid,
        decreases tasks.len() - k,
    {
        if tasks[k].pid == pid {
            return Some(k);
        }
        k += 1;
    }
    None
}

/// A task freshly loaded from `app`.
pub fn new_task(app: &AppImage, pid: usize, parent: Option<usize>, stride: u64) -> (t:
    TaskControlBlock)
    requires
        app.wf(),
        pid <= MAX_PID,
    ensures
        t.wf(),
        is_fresh_task(t, *app, pid, parent, stride),
{
    let counters: Vec<u32> = vec![0u32; MAX_SYSCALL_NUM];
    proof {
        assert(counters@ =~= Seq::new(MAX_SYSCALL_NUM as nat, |i: int| 0u32));
    }
    TaskControlBlock {
        pid,
        status: TaskStatus::Ready,
        exit_code: 0,
        parent,
        children: Vec::new(),
        stride,
        priority: DEFAULT_PRIORITY,
        memory_set: MemorySet { areas: copy_vec(&app.memory_set.areas) },
        fd_table: Vec::new(),
        trap_cx: TrapContext { a0: 0, sp: app.user_sp, sepc: app.entry },
        heap_bottom: app.heap_bottom,
        program_brk: app.heap_bottom,
        syscall_times: counters,
        start_time: 0,
    }
}

impl Kernel {
    /// The kernel's invariant: ready tasks are ready, the running task
    /// runs, zombies are zombies, every control block and program is well
    /// formed, every process id in use lies below the next one to hand out,
    /// no task stands in two places, and the parent and child links agree.
    pub open spec fn wf(&self) -> bool {
        &&& self.manager.wf()
        &&& forall|i: int|
            0 <= i < self.manager.ready_vec@.len() ==> (#[trigger] self.manager.ready_vec@[i]).pid
                < self.next_pid
        &&& self.current matches Some(t) ==> t.wf() && t.status is Running && t.pid
            < self.next_pid
        &&& forall|i: int|
            0 <= i < self.zombies@.len() ==> {
                &&& (#[trigger] self.zombies@[i]).wf()
                &&& self.zombies@[i].status is Zombie
                &&& self.zombies@[i].pid < self.next_pid
            }
        &&& forall|i: int| 0 <= i < self.apps@.len() ==> (#[trigger] self.apps@[i]).wf()
        &&& self.next_pid <= MAX_PID + 1
        &&& self.single_homed()
        &&& family_consistent(*self)
    }

    /// Every task stands in exactly one place: no process id occurs twice
    /// among the ready tasks, the zombies and the running task.
    pub open spec fn single_homed(&self) -> bool {
        &&& pids_distinct(self.manager.ready_vec@)
        &&& pids_distinct(self.zombies@)
        &&& forall|i: int, j: int|
            0 <= i < self.manager.ready_vec@.len() && 0 <= j < self.zombies@.len() ==> (
            #[trigger] self.manager.ready_vec@[i]).pid != (#[trigger] self.zombies@[j]).pid
        &&& self.current matches Some(t) ==> !has_pid(self.manager.ready_vec@, t.pid) && !has_pid(
            self.zombies@,
            t.pid,
        )
    }

    /// A kernel without tasks that can load the programs `apps`.
    pub fn new(apps: Vec<AppImage>) -> (k: Self)
        requires
            forall|i: int| 0 <= i < apps@.len() ==> (#[trigger] apps@[i]).wf(),
        ensures
            k.wf(),
            k.current is None,
            k.manager.ready_vec@.len() == 0,
            k.zombies@.len() == 0,
            k.next_pid == 0,
            k.apps == apps,
    {
        Kernel {
            manager: TaskManager::new(),
            current: None,
            zombies: Vec::new(),
            next_pid: 0,
            apps,
        }
    }

    /// Finds the program named `name`: the position of the first such
    /// program, or `None` where there is none.
    pub fn get_app_data_by_name(&self, name: &[u8]) -> (r: Option<usize>)
        ensures
            r is None <==> !known_app(self.apps@, name@),
            r matches Some(i) ==> is_first_named(self.apps@, name@, i as int),
    {
        let mut i: usize = 0;
        while i < self.apps.len()
            invariant
                0 <= i <= self.apps.len(),
                forall|j: int| 0 <= j < i ==> (#[trigger] self.apps@[j]).name@ != name@,
            decreases self.apps.len() - i,
        {
            if bytes_equal(&self.apps[i].name, name) {
                return Some(i);
            }
            i += 1;
        }
        None
    }

    /// Creates the first task, which has no parent, from the program named
    /// `name` and puts it into the ready pool. Returns its process id, or -1
    /// where no such program is known or no process id is left.
    pub fn add_initproc(&mut self, name: &[u8]) -> (r: isize)
        requires
            old(self).wf(),
        ensures
            final(self).wf(),
            r == -1 <==> !known_app(old(self).apps@, name@) || old(self).next_pid > MAX_PID,
            r == -1 ==> *final(self) == *old(self),
            r != -1 ==> {
                &&& r == old(self).next_pid
                &&& final(self).next_pid == old(self).next_pid + 1
                &&& final(self).manager.ready_vec@.len() == old(self).manager.ready_vec@.len() + 1
                &&& final(self).manager.ready_vec@.drop_last() == old(self).manager.ready_vec@
                &&& exists|i: int|
                    is_first_named(old(self).apps@, name@, i) && is_fresh_task(
                        final(self).manager.ready_vec@.last(),
                        old(self).apps@[i],
                        old(self).next_pid,
                        None,
                        0,
                    )
                &&& final(self).current == old(self).current
                &&& final(self).zombies == old(self).zombies
                &&& final(self).apps == old(self).apps
            },
    {
        if self.next_pid > MAX_PID {
            return -1;
        }
        match self.get_app_data_by_name(name) {
            None => -1,
            Some(i) => {
                let pid = self.next_pid;
                let task = new_task(&self.apps[i], pid, None, 0);
                self.next_pid = pid + 1;
                self.manager.add(task);
                proof {
                    assert(final(self).manager.ready_vec@.drop_last() =~= old(
                        self,
                    ).manager.ready_vec@);
                    assert(is_first_named(old(self).apps@, name@, i as int));
                    lemma_orphan_keeps_family(*old(self), *self);
                }
                pid as isize
            },
        }
    }

    /// Counts one more call of system call `id` by the running task. A
    /// number without a counter, and a counter that is full, change nothing.
    pub fn count_syscall(&mut self, id: usize)
        requires
            old(self).wf(),
            old(self).current is Some,
        ensures
            final(self).wf(),
            ({
                let before = old(self).current.unwrap();
                let counts = before.syscall_times@;
                &&& final(self).current matches Some(t)
                &&& *final(self) == (Kernel { current: Some(t), ..*old(self) })
                &&& t == (TaskControlBlock { syscall_times: t.syscall_times, ..before })
                &&& t.syscall_times@ == if id < counts.len() && counts[id as int] < u32::MAX {
                    counts.update(id as int, (counts[id as int] + 1) as u32)
                } else {
                    counts
                }
            }),
    {
        let mut cur = self.current.take().unwrap();
        if id < cur.syscall_times.len() {
            let c = cur.syscall_times[id];
            if c < u32::MAX {
                cur.syscall_times.set(id, c + 1);
            }
        }
        self.current = Some(cur);
        proof {
            lemma_current_update_keeps_family(*old(self), *self);
        }
    }

    /// Stamps the running task with the time `now_ms`, in milliseconds, as
    /// the time it was first scheduled, unless it carries a stamp already.
    pub fn record_start(&mut self, now_ms: usize)
        requires
            old(self).wf(),
            old(self).current is Some,
        ensures
            final(self).wf(),
            ({
                let before = old(self).current.unwrap();
                *final(self) == (Kernel {
                    current: Some(
                        (TaskControlBlock {
                            start_time: if before.start_time == 0 {
                                now_ms
                            } else {
                                before.start_time
                            },
                            ..before
                        }),
                    ),
                    ..*old(self)
                })
            }),
    {
        let mut cur = self.current.take().unwrap();
        if cur.start_time == 0 {
            cur.start_time = now_ms;
        }
        self.current = Some(cur);
        proof {
            lemma_current_update_keeps_family(*old(self), *self);
        }
    }

    /// Hands the idle processor to the next ready task.
    pub fn run_next(&mut self)
        requires
            old(self).wf(),
            old(self).current is None,
        ensures
            final(self).wf(),
            switched(old(self).manager.ready_vec@, *final(self)),
            final(self).zombies == old(self).zombies,
            final(self).next_pid == old(self).next_pid,
            final(self).apps == old(self).apps,
    {
        match self.manager.fetch() {
            None => {},
            Some(t) => {
                let mut t = t;
                t.status = TaskStatus::Running;
                self.current = Some(t);
            },
        }
        proof {
            lemma_run_next_keeps_family(*old(self), *self);
        }
    }
}

/// Puts a ready task at the end of the kernel's ready pool.
pub fn add_task(kernel: &mut Kernel, task: TaskControlBlock)
    requires
        old(kernel).wf(),
        task.wf(),
        task.status is Ready,
        task.pid < old(kernel).next_pid,
        !has_pid(old(kernel).manager.ready_vec@, task.pid),
        !has_pid(old(kernel).zombies@, task.pid),
        old(kernel).current matches Some(t) ==> t.pid != task.pid,
        fits_family(*old(kernel), task),
    ensures
        final(kernel).wf(),
        final(kernel).manager.ready_vec@ == old(kernel).manager.ready_vec@.push(task),
        final(kernel).current == old(kernel).current,
        final(kernel).zombies == old(kernel).zombies,
        final(kernel).next_pid == old(kernel).next_pid,
        final(kernel).apps == old(kernel).apps,
{
    kernel.manager.add(task);
    proof {
        lemma_add_keeps_family(*old(kernel), *kernel, task);
    }
}

/// Takes the task that the scheduler picks out of the kernel's ready pool,
/// its stride advanced by one step; `None` where the pool is empty.
pub fn fetch_task(kernel: &mut Kernel) -> (r: Option<TaskControlBlock>)
    requires
        old(kernel).wf(),
    ensures
        final(kernel).wf(),
        old(kernel).manager.ready_vec@.len() == 0 ==> r is None && final(kernel).manager.ready_vec@
            == old(kernel).manager.ready_vec@,
        old(kernel).manager.ready_vec@.len() > 0 ==> {
            let i = old(kernel).manager.pick();
            &&& 0 <= i < old(kernel).manager.ready_vec@.len()
            &&& r == Some(advanced(old(kernel).manager.ready_vec@[i]))
            &&& final(kernel).manager.ready_vec@ == old(kernel).manager.ready_vec@.remove(i)
        },
        final(kernel).current == old(kernel).current,
        final(kernel).zombies == old(kernel).zombies,
        final(kernel).next_pid == old(kernel).next_pid,
        final(kernel).apps == old(kernel).apps,
{
    let r = kernel.manager.fetch();
    proof {
        lemma_fetch_keeps_family(*old(kernel), *kernel);
    }
    r
}

} // verus!
