//! The parent and child links of the tasks that are alive, and the proof
//! that the life-cycle calls keep them consistent.

use vstd::prelude::*;
use crate::kernel::{
    family_consistent, fits_family, has_child, is_live, running, switched, Kernel,
};
use crate::manager::{advanced, first_least, lemma_first_least_in_range, strides_of};
use crate::process::{exited, suspended};
use crate::task::TaskControlBlock;

verus! {

/// Whether `t` is the task `s` at a later time: the same process id and
/// parent, and no child that `s` did not have.
pub open spec fn descends(s: TaskControlBlock, t: TaskControlBlock) -> bool {
    &&& s.pid == t.pid
    &&& s.parent == t.parent
    &&& forall|c: usize| #[trigger] has_child(t, c) ==> has_child(s, c)
}

/// A step after which every live task is an earlier live task at a later
/// time keeps the links consistent.
pub proof fn lemma_family_step(pre: Kernel, post: Kernel)
    requires
        family_consistent(pre),
        pre.next_pid <= post.next_pid,
        forall|t: TaskControlBlock| #[trigger]
            is_live(post, t) ==> exists|s: TaskControlBlock| #[trigger]
                is_live(pre, s) && descends(s, t),
    ensures
        family_consistent(post),
{
    assert forall|b: TaskControlBlock, c: usize| #[trigger]
        is_live(post, b) && #[trigger] has_child(b, c) implies c < post.next_pid by {
        let sb = choose|s: TaskControlBlock| #[trigger] is_live(pre, s) && descends(s, b);
        assert(has_child(sb, c));
    }
    assert forall|a: TaskControlBlock, b: TaskControlBlock| #[trigger]
        is_live(post, a) && #[trigger] is_live(post, b) && has_child(
            b,
            a.pid,
        ) implies a.parent == Some(b.pid) by {
        let sa = choose|s: TaskControlBlock| #[trigger] is_live(pre, s) && descends(s, a);
        let sb = choose|s: TaskControlBlock| #[trigger] is_live(pre, s) && descends(s, b);
        assert(has_child(sb, sa.pid));
    }
}

/// After the processor went to the next task of `pool`, the ready tasks and
/// the running one are the tasks of `pool` at a later time.
pub proof fn lemma_switched_from_pool(pool: Seq<TaskControlBlock>, post: Kernel, t: TaskControlBlock)
    requires
        switched(pool, post),
        post.manager.ready_vec@.contains(t) || post.current == Some(t),
    ensures
        exists|j: int| 0 <= j < pool.len() && descends(#[trigger] pool[j], t),
{
    if pool.len() > 0 {
        let i = first_least(strides_of(pool), pool.len() as int);
        lemma_first_least_in_range(strides_of(pool), pool.len() as int);
        if post.manager.ready_vec@.contains(t) {
            let j = choose|j: int| 0 <= j < pool.remove(i).len() && pool.remove(i)[j] == t;
            if j < i {
                assert(descends(pool[j], t));
            } else {
                assert(descends(pool[j + 1], t));
            }
        } else {
            assert(t == running(advanced(pool[i])));
            assert(descends(pool[i], t));
        }
    }
}

/// Handing the idle processor to the next ready task keeps the links
/// consistent.
pub proof fn lemma_run_next_keeps_family(pre: Kernel, post: Kernel)
    requires
        family_consistent(pre),
        pre.current is None,
        switched(pre.manager.ready_vec@, post),
        post.zombies == pre.zombies,
        post.next_pid == pre.next_pid,
    ensures
        family_consistent(post),
{
    let pool = pre.manager.ready_vec@;
    assert forall|t: TaskControlBlock| #[trigger] is_live(post, t) implies exists|
        s: TaskControlBlock,
    | #[trigger]
        is_live(pre, s) && descends(s, t) by {
        if post.zombies@.contains(t) {
            assert(is_live(pre, t) && descends(t, t));
        } else {
            lemma_switched_from_pool(pool, post, t);
            let j = choose|j: int| 0 <= j < pool.len() && descends(#[trigger] pool[j], t);
            assert(is_live(pre, pool[j]));
        }
    }
    lemma_family_step(pre, post);
}

/// Turning the running task into a zombie keeps the links consistent.
pub proof fn lemma_retire_keeps_family(pre: Kernel, post: Kernel, exit_code: i32)
    requires
        family_consistent(pre),
        pre.current is Some,
        post.current is None,
        post.zombies@ == pre.zombies@.push(exited(pre.current.unwrap(), exit_code)),
        post.manager == pre.manager,
        post.next_pid == pre.next_pid,
    ensures
        family_consistent(post),
{
    assert forall|t: TaskControlBlock| #[trigger] is_live(post, t) implies exists|
        s: TaskControlBlock,
    | #[trigger]
        is_live(pre, s) && descends(s, t) by {
        if post.zombies@.contains(t) {
            let j = choose|j: int| 0 <= j < post.zombies@.len() && post.zombies@[j] == t;
            if j < pre.zombies@.len() {
                assert(pre.zombies@[j] == t);
                assert(is_live(pre, t) && descends(t, t));
            } else {
                assert(is_live(pre, pre.current.unwrap()) && descends(pre.current.unwrap(), t));
            }
        } else {
            assert(is_live(pre, t) && descends(t, t));
        }
    }
    lemma_family_step(pre, post);
}

/// Putting the running task back into the ready pool keeps the links
/// consistent.
pub proof fn lemma_suspend_keeps_family(pre: Kernel, post: Kernel)
    requires
        family_consistent(pre),
        pre.current is Some,
        post.current is None,
        post.manager.ready_vec@ == pre.manager.ready_vec@.push(suspended(pre.current.unwrap())),
        post.zombies == pre.zombies,
        post.next_pid == pre.next_pid,
    ensures
        family_consistent(post),
{
    let pool = post.manager.ready_vec@;
    assert forall|t: TaskControlBlock| #[trigger] is_live(post, t) implies exists|
        s: TaskControlBlock,
    | #[trigger]
        is_live(pre, s) && descends(s, t) by {
        if post.zombies@.contains(t) {
            assert(is_live(pre, t) && descends(t, t));
        } else {
            let j = choose|j: int| 0 <= j < pool.len() && pool[j] == t;
            if j < pre.manager.ready_vec@.len() {
                assert(pre.manager.ready_vec@[j] == t);
                assert(is_live(pre, t) && descends(t, t));
            } else {
                assert(is_live(pre, pre.current.unwrap()) && descends(pre.current.unwrap(), t));
            }
        }
    }
    lemma_family_step(pre, post);
}

/// A change to the running task that leaves its process id, parent and
/// children alone keeps the links consistent.
pub proof fn lemma_current_update_keeps_family(pre: Kernel, post: Kernel)
    requires
        family_consistent(pre),
        pre.current is Some,
        post.current matches Some(t) && descends(pre.current.unwrap(), t),
        post.manager == pre.manager,
        post.zombies == pre.zombies,
        post.next_pid == pre.next_pid,
    ensures
        family_consistent(post),
{
    assert forall|t: TaskControlBlock| #[trigger] is_live(post, t) implies exists|
        s: TaskControlBlock,
    | #[trigger]
        is_live(pre, s) && descends(s, t) by {
        if post.current == Some(t) {
            assert(is_live(pre, pre.current.unwrap()) && descends(pre.current.unwrap(), t));
        } else {
            assert(is_live(pre, t) && descends(t, t));
        }
    }
    lemma_family_step(pre, post);
}

/// Taking a task out of the ready pool keeps the links of the others
/// consistent.
pub proof fn lemma_fetch_keeps_family(pre: Kernel, post: Kernel)
    requires
        family_consistent(pre),
        post.manager.ready_vec@ == pre.manager.ready_vec@ || exists|i: int|
            0 <= i < pre.manager.ready_vec@.len() && post.manager.ready_vec@
                == #[trigger] pre.manager.ready_vec@.remove(i),
        post.current == pre.current,
        post.zombies == pre.zombies,
        post.next_pid == pre.next_pid,
    ensures
        family_consistent(post),
{
    let pool = pre.manager.ready_vec@;
    assert forall|t: TaskControlBlock| #[trigger] is_live(post, t) implies exists|
        s: TaskControlBlock,
    | #[trigger]
        is_live(pre, s) && descends(s, t) by {
        if post.manager.ready_vec@.contains(t) && post.manager.ready_vec@ != pool {
            let i = choose|i: int|
                0 <= i < pool.len() && post.manager.ready_vec@ == #[trigger] pool.remove(i);
            let j = choose|j: int| 0 <= j < pool.remove(i).len() && pool.remove(i)[j] == t;
            if j < i {
                assert(pool[j] == t);
            } else {
                assert(pool[j + 1] == t);
            }
        }
        assert(is_live(pre, t) && descends(t, t));
    }
    lemma_family_step(pre, post);
}

/// A task whose links fit those of the live tasks can join the ready pool.
pub proof fn lemma_add_keeps_family(pre: Kernel, post: Kernel, task: TaskControlBlock)
    requires
        family_consistent(pre),
        fits_family(pre, task),
        post.manager.ready_vec@ == pre.manager.ready_vec@.push(task),
        post.current == pre.current,
        post.zombies == pre.zombies,
        post.next_pid == pre.next_pid,
    ensures
        family_consistent(post),
{
    let pool = post.manager.ready_vec@;
    assert forall|t: TaskControlBlock| #[trigger] is_live(post, t) implies t == task || is_live(
        pre,
        t,
    ) by {
        if pool.contains(t) {
            let j = choose|j: int| 0 <= j < pool.len() && pool[j] == t;
            if j < pre.manager.ready_vec@.len() {
                assert(pre.manager.ready_vec@[j] == t);
            }
        }
    }
}

/// A fresh task without parent or children can join the ready pool.
pub proof fn lemma_orphan_keeps_family(pre: Kernel, post: Kernel)
    requires
        pre.wf(),
        post.next_pid == pre.next_pid + 1,
        post.manager.ready_vec@.len() == pre.manager.ready_vec@.len() + 1,
        post.manager.ready_vec@.drop_last() == pre.manager.ready_vec@,
        post.manager.ready_vec@.last().pid == pre.next_pid,
        post.manager.ready_vec@.last().parent is None,
        post.manager.ready_vec@.last().children@.len() == 0,
        post.current == pre.current,
        post.zombies == pre.zombies,
    ensures
        family_consistent(post),
{
    let pool = post.manager.ready_vec@;
    let child = pool.last();
    assert forall|t: TaskControlBlock| #[trigger] is_live(post, t) implies t == child || is_live(
        pre,
        t,
    ) by {
        if pool.contains(t) {
            let j = choose|j: int| 0 <= j < pool.len() && pool[j] == t;
            if j < pool.len() - 1 {
                assert(pool.drop_last()[j] == t);
            }
        }
    }
    assert forall|c: usize| !has_child(child, c) by {
        if has_child(child, c) {
            let x = choose|x: int| 0 <= x < child.children@.len() && child.children@[x] == c;
        }
    }
}

/// Reaping the child at position `i`, whose zombie stands at position `k`,
/// keeps the links consistent.
pub proof fn lemma_reap_keeps_family(pre: Kernel, post: Kernel, i: int, k: int)
    requires
        family_consistent(pre),
        pre.current is Some,
        0 <= i < pre.current.unwrap().children@.len(),
        0 <= k < pre.zombies@.len(),
        post.zombies@ == pre.zombies@.remove(k),
        post.current matches Some(t) && t == (TaskControlBlock {
            children: t.children,
            ..pre.current.unwrap()
        }) && t.children@ == pre.current.unwrap().children@.remove(i),
        post.manager == pre.manager,
        post.next_pid == pre.next_pid,
    ensures
        family_consistent(post),
{
    let before = pre.current.unwrap();
    assert forall|t: TaskControlBlock| #[trigger] is_live(post, t) implies exists|
        s: TaskControlBlock,
    | #[trigger]
        is_live(pre, s) && descends(s, t) by {
        if post.manager.ready_vec@.contains(t) {
            assert(is_live(pre, t) && descends(t, t));
        } else if post.zombies@.contains(t) {
            let j = choose|j: int| 0 <= j < post.zombies@.len() && post.zombies@[j] == t;
            if j < k {
                assert(pre.zombies@[j] == t);
            } else {
                assert(pre.zombies@[j + 1] == t);
            }
            assert(is_live(pre, t) && descends(t, t));
        } else {
            assert forall|c: usize| #[trigger] has_child(t, c) implies has_child(before, c) by {
                let x = choose|x: int| 0 <= x < t.children@.len() && t.children@[x] == c;
                if x < i {
                    assert(before.children@[x] == c);
                } else {
                    assert(before.children@[x + 1] == c);
                }
            }
            assert(is_live(pre, before) && descends(before, t));
        }
    }
    lemma_family_step(pre, post);
}

/// A new child of the running task keeps the links consistent: the child
/// names the caller as its parent, and no other task lists the child's fresh
/// process id.
pub proof fn lemma_new_child_keeps_family(pre: Kernel, post: Kernel)
    requires
        pre.wf(),
        pre.current is Some,
        post.next_pid == pre.next_pid + 1,
        post.current matches Some(p) && p == (TaskControlBlock {
            children: p.children,
            ..pre.current.unwrap()
        }) && p.children@ == pre.current.unwrap().children@.push(pre.next_pid),
        post.manager.ready_vec@.len() == pre.manager.ready_vec@.len() + 1,
        post.manager.ready_vec@.drop_last() == pre.manager.ready_vec@,
        post.manager.ready_vec@.last().pid == pre.next_pid,
        post.manager.ready_vec@.last().parent == Some(pre.current.unwrap().pid),
        post.manager.ready_vec@.last().children@.len() == 0,
        post.zombies == pre.zombies,
    ensures
        family_consistent(post),
{
    let parent = pre.current.unwrap();
    let after = post.current.unwrap();
    let pool = post.manager.ready_vec@;
    let child = pool.last();
    let fresh = pre.next_pid;
    assert(pool.drop_last() == pre.manager.ready_vec@);
    // Each live task of the new state is the child, the caller, or a task that was live.
    assert forall|t: TaskControlBlock| #[trigger] is_live(post, t) implies t == child || t
        == after || (is_live(pre, t) && t.pid < fresh) by {
        if pool.contains(t) {
            let j = choose|j: int| 0 <= j < pool.len() && pool[j] == t;
            if j < pool.len() - 1 {
                assert(pool.drop_last()[j] == t);
                assert(pre.manager.ready_vec@[j] == t);
            }
        } else if post.zombies@.contains(t) {
            let j = choose|j: int| 0 <= j < pre.zombies@.len() && pre.zombies@[j] == t;
        }
    }
    assert(is_live(pre, parent));
    assert forall|c: usize| #[trigger] has_child(after, c) implies c == fresh || has_child(
        parent,
        c,
    ) by {
        let x = choose|x: int| 0 <= x < after.children@.len() && after.children@[x] == c;
        if x < parent.children@.len() {
            assert(parent.children@[x] == c);
        }
    }
    assert forall|c: usize| !has_child(child, c) by {
        if has_child(child, c) {
            let x = choose|x: int| 0 <= x < child.children@.len() && child.children@[x] == c;
        }
    }
    assert forall|a: TaskControlBlock, b: TaskControlBlock| #[trigger]
        is_live(post, a) && #[trigger] is_live(post, b) && has_child(
            b,
            a.pid,
        ) implies a.parent == Some(b.pid) by {
        if b == after {
            if a.pid != fresh {
                assert(has_child(parent, a.pid));
                if a == after {
                    assert(is_live(pre, parent));
                }
            }
        } else if b != child {
            assert(has_child(b, a.pid));
            assert(a.pid < fresh);
            if a == after {
                assert(has_child(b, parent.pid));
            }
        }
    }
    assert forall|b: TaskControlBlock, c: usize| #[trigger]
        is_live(post, b) && #[trigger] has_child(b, c) implies c < post.next_pid by {
        if b == after {
            if c != fresh {
                assert(has_child(parent, c));
            }
        }
    }
}

} // verus!
