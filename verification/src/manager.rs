//! The ready pool and its stride scheduling rule.

use vstd::prelude::*;
use crate::config::{BIG_STRIDE, STRIDE_HALF};
use crate::task::TaskControlBlock;

verus! {

/// How far `to` lies ahead of `from`, going upwards around the stride space.
pub open spec fn stride_gap(from: u64, to: u64) -> int {
    if to >= from {
        to - from
    } else {
        to - from + 0x1_0000_0000_0000_0000
    }
}

/// Whether stride `a` orders before stride `b`: `b` lies ahead of `a` by
/// less than half of the stride space.
pub open spec fn stride_before(a: u64, b: u64) -> bool {
    0 < stride_gap(a, b) < STRIDE_HALF
}

/// What a task of the given priority advances by on each fetch.
pub open spec fn stride_step(priority: u64) -> int
    recommends
        priority >= 2,
{
    BIG_STRIDE as int / priority as int
}

/// The stride after one fetch.
pub open spec fn stride_after(stride: u64, priority: u64) -> u64
    recommends
        priority >= 2,
{
    ((stride + stride_step(priority)) % 0x1_0000_0000_0000_0000) as u64
}

/// The strides of a pool, in pool order.
pub open spec fn strides_of(pool: Seq<TaskControlBlock>) -> Seq<u64> {
    Seq::new(pool.len(), |i: int| pool[i].stride)
}

/// The position that a scan of the first `n` strides selects: it starts at
/// position 0 and moves on to a later position only where that stride orders
/// before the one held.
pub open spec fn first_least(strides: Seq<u64>, n: int) -> int
    decreases n,
{
    if n <= 1 {
        0
    } else {
        let best = first_least(strides, n - 1);
        if stride_before(strides[n - 1], strides[best]) {
            n - 1
        } else {
            best
        }
    }
}

/// All strides lie less than half of the stride space ahead of `base`, so
/// that `stride_before` orders them as their distances from `base` do.
pub open spec fn window_from(strides: Seq<u64>, base: u64) -> bool {
    forall|i: int| 0 <= i < strides.len() ==> stride_gap(base, #[trigger] strides[i]) < STRIDE_HALF
}

/// Some base exists from which all strides lie in one window.
pub open spec fn comparable(strides: Seq<u64>) -> bool {
    exists|base: u64| window_from(strides, base)
}

/// Position `i` holds a stride that none orders before, and is the first
/// position with that stride.
pub open spec fn is_first_minimum(strides: Seq<u64>, i: int) -> bool {
    &&& 0 <= i < strides.len()
    &&& forall|j: int| 0 <= j < strides.len() ==> !stride_before(#[trigger] strides[j], strides[i])
    &&& forall|j: int| 0 <= j < i ==> stride_before(strides[i], #[trigger] strides[j])
}

/// The task as it leaves the pool: its stride advanced by one step.
pub open spec fn advanced(t: TaskControlBlock) -> TaskControlBlock {
    TaskControlBlock { stride: stride_after(t.stride, t.priority), ..t }
}

/// Among strides in one window the scan selects the first minimum; where
/// the window starts at zero that is the numerically smallest stride.
pub proof fn lemma_first_least_is_minimum(strides: Seq<u64>, base: u64, n: int)
    requires
        1 <= n <= strides.len(),
        window_from(strides, base),
    ensures
        is_first_minimum(strides.take(n), first_least(strides, n)),
        base == 0 ==> forall|j: int|
            0 <= j < n ==> strides[first_least(strides, n)] <= #[trigger] strides[j],
    decreases n,
{
    if n > 1 {
        lemma_first_least_is_minimum(strides, base, n - 1);
        let prev = first_least(strides, n - 1);
        let cur = first_least(strides, n);
        let s = strides.take(n);
        let p = strides.take(n - 1);
        assert forall|j: int| 0 <= j < n implies !stride_before(#[trigger] s[j], s[cur]) by {
            if j < n - 1 {
                assert(p[j] == s[j]);
                assert(!stride_before(p[j], p[prev]));
            }
        }
        assert forall|j: int| 0 <= j < cur implies stride_before(s[cur], #[trigger] s[j]) by {
            assert(p[j] == s[j]);
            if j < prev {
                assert(stride_before(p[prev], p[j]));
            } else {
                assert(!stride_before(p[j], p[prev]));
            }
        }
    }
}

/// The pool of tasks that are ready to run.
pub struct TaskManager {
    pub ready_vec: Vec<TaskControlBlock>,
}

impl TaskManager {
    /// Every task in the pool is ready and well formed.
    pub open spec fn wf(&self) -> bool {
        forall|i: int|
            0 <= i < self.ready_vec@.len() ==> (#[trigger] self.ready_vec@[i]).wf()
                && self.ready_vec@[i].status is Ready
    }

    /// The strides in the pool, in pool order.
    pub open spec fn strides(&self) -> Seq<u64> {
        strides_of(self.ready_vec@)
    }

    /// The position of the task that the next fetch takes.
    pub open spec fn pick(&self) -> int {
        first_least(self.strides(), self.ready_vec@.len() as int)
    }

    /// An empty pool.
    pub fn new() -> (r: Self)
        ensures
            r.wf(),
            r.ready_vec@.len() == 0,
    {
        TaskManager { ready_vec: Vec::new() }
    }

    /// Puts a ready task at the end of the pool.
    pub fn add(&mut self, task: TaskControlBlock)
        requires
            old(self).wf(),
            task.wf(),
            task.status is Ready,
        ensures
            final(self).wf(),
            final(self).ready_vec@ == old(self).ready_vec@.push(task),
    {
        self.ready_vec.push(task);
    }

    /// Takes the task with the least stride out of the pool, the first of
    /// them where several share it, and advances its stride by one step.
    /// Strides are compared around the wrap of the stride space: among
    /// comparable strides none orders before the one taken, and while all lie
    /// in the lower half of the space the one taken is the smallest number.
    pub fn fetch(&mut self) -> (r: Option<TaskControlBlock>)
        requires
            old(self).wf(),
        ensures
            final(self).wf(),
            old(self).ready_vec@.len() == 0 ==> r is None && final(self).ready_vec@
                == old(self).ready_vec@,
            old(self).ready_vec@.len() > 0 ==> {
                let i = old(self).pick();
                &&& 0 <= i < old(self).ready_vec@.len()
                &&& r == Some(advanced(old(self).ready_vec@[i]))
                &&& final(self).ready_vec@ == old(self).ready_vec@.remove(i)
                &&& comparable(old(self).strides()) ==> is_first_minimum(old(self).strides(), i)
                &&& window_from(old(self).strides(), 0) ==> forall|j: int|
                    0 <= j < old(self).ready_vec@.len() ==> old(self).ready_vec@[i].stride <= (
                    #[trigger] old(self).ready_vec@[j]).stride
            },
            r matches Some(t) ==> t.wf() && t.status is Ready,
    {
        let n = self.ready_vec.len();
        if n == 0 {
            return None;
        }
        let ghost strides = self.strides();
        let mut least: u64 = self.ready_vec[0].stride;
        let mut index: usize = 0;
        let mut i: usize = 1;
        while i < n
            invariant
                1 <= i <= n,
                n == self.ready_vec@.len(),
                strides == self.strides(),
                index == first_least(strides, i as int),
                0 <= index < i,
                least == strides[index as int],
            decreases n - i,
        {
            let s = self.ready_vec[i].stride;
            let gap = least.wrapping_sub(s);
            if gap != 0 && gap < STRIDE_HALF {
                least = s;
                index = i;
            }
            i += 1;
        }
        proof {
            if comparable(strides) {
                let base = choose|base: u64| window_from(strides, base);
                lemma_first_least_is_minimum(strides, base, n as int);
                assert(strides.take(n as int) =~= strides);
            }
            if window_from(strides, 0) {
                lemma_first_least_is_minimum(strides, 0, n as int);
                assert forall|j: int| 0 <= j < n implies strides[index as int] <= (
                #[trigger] self.ready_vec@[j]).stride by {
                    assert(strides[j] == self.ready_vec@[j].stride);
                }
            }
        }
        let mut t = self.ready_vec.remove(index);
        let step = BIG_STRIDE / t.priority;
        t.stride = t.stride.wrapping_add(step);
        Some(t)
    }
}

/// A fetch moves the task's stride ahead by exactly its step, which is at
/// most half of `BIG_STRIDE`; with a priority of at most `BIG_STRIDE` the step
/// is positive, so that the old stride orders before the new one.
pub proof fn lemma_stride_advances(stride: u64, priority: u64)
    requires
        priority >= 2,
    ensures
        stride_gap(stride, stride_after(stride, priority)) == stride_step(priority),
        0 <= stride_step(priority) <= BIG_STRIDE / 2,
        priority <= BIG_STRIDE ==> stride_before(stride, stride_after(stride, priority)),
{
    let step = stride_step(priority);
    assert(0 <= step <= 0x8000_0000 && (priority <= 0x1_0000_0000 ==> step >= 1)) by (nonlinear_arith)
        requires
            priority >= 2,
            step == 0x1_0000_0000int / priority as int,
    ;
}

/// A task of priority 2 advances twice as fast as one of priority 4.
pub proof fn lemma_priority_two_and_four()
    ensures
        stride_step(2) == 2 * stride_step(4),
{
}

/// The task that a fetch returns was in the pool and is gone from it, and
/// where the strides of the pool are comparable none of them orders before
/// the stride it had.
pub proof fn lemma_fetch_takes_minimum(pool: Seq<TaskControlBlock>)
    requires
        pool.len() > 0,
        comparable(strides_of(pool)),
    ensures
        is_first_minimum(strides_of(pool), first_least(strides_of(pool), pool.len() as int)),
{
    let strides = strides_of(pool);
    let base = choose|base: u64| window_from(strides, base);
    lemma_first_least_is_minimum(strides, base, pool.len() as int);
    assert(strides.take(pool.len() as int) =~= strides);
}

/// All strides lie at most half of `BIG_STRIDE` ahead of the one that the
/// scan selects.
pub open spec fn spread_bounded(strides: Seq<u64>) -> bool {
    forall|j: int|
        0 <= j < strides.len() ==> stride_gap(
            strides[first_least(strides, strides.len() as int)],
            #[trigger] strides[j],
        ) <= BIG_STRIDE / 2
}

/// Advancing the selected stride by the step of a priority of at least two
/// keeps the strides within half of `BIG_STRIDE` of the one selected next, so
/// that they stay comparable however often tasks are fetched and put back.
pub proof fn lemma_fetch_keeps_spread(strides: Seq<u64>, priority: u64)
    requires
        strides.len() > 0,
        priority >= 2,
        spread_bounded(strides),
    ensures
        ({
            let i = first_least(strides, strides.len() as int);
            let next = strides.update(i, stride_after(strides[i], priority));
            spread_bounded(next) && comparable(next)
        }),
{
    let n = strides.len() as int;
    lemma_first_least_in_range(strides, n);
    let i = first_least(strides, n);
    let m = strides[i];
    let next = strides.update(i, stride_after(m, priority));
    lemma_stride_advances(m, priority);
    assert forall|j: int| 0 <= j < n implies stride_gap(m, #[trigger] next[j]) <= BIG_STRIDE
        / 2 by {
        if j != i {
            assert(next[j] == strides[j]);
        }
    }
    assert(window_from(next, m));
    lemma_first_least_is_minimum(next, m, n);
    assert(next.take(n) =~= next);
    let i2 = first_least(next, n);
    assert forall|j: int| 0 <= j < n implies stride_gap(next[i2], #[trigger] next[j])
        <= BIG_STRIDE / 2 by {
        assert(!stride_before(next[j], next[i2]));
        assert(stride_gap(m, next[j]) <= BIG_STRIDE / 2);
        assert(stride_gap(m, next[i2]) <= BIG_STRIDE / 2);
    }
}

/// The scan selects a position among those it looked at.
pub proof fn lemma_first_least_in_range(strides: Seq<u64>, n: int)
    requires
        1 <= n,
    ensures
        0 <= first_least(strides, n) < n,
    decreases n,
{
    if n > 1 {
        lemma_first_least_in_range(strides, n - 1);
    }
}

} // verus!
