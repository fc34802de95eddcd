//! Stride values of the stride scheduler.
use vstd::prelude::*;
use crate::manager::is_first_min;

verus! {

/// The constant that a task's priority divides to give its pass.
pub const BIG_STRIDE: usize = 0xff_0000;

/// The stride a task has accumulated so far.
#[derive(Clone, Copy)]
pub struct Stride(pub usize);

impl Stride {
    /// A fresh stride, starting at zero.
    pub fn new() -> (s: Self)
        ensures
            s.0 == 0,
    {
        Self(0)
    }

    /// Advances the stride by one pass.
    pub fn update(&mut self, pass: usize)
        requires
            old(self).0 + pass <= usize::MAX,
        ensures
            final(self).0 == old(self).0 + pass,
    {
        self.0 += pass;
    }

    /// The stride accumulated so far.
    pub fn get_stride(&self) -> (r: usize)
        ensures
            r == self.0,
    {
        self.0
    }
}

/// No two strides in `strides` are more than `bound` apart.
pub open spec fn spread_within(strides: Seq<usize>, bound: int) -> bool {
    forall|i: int, j: int|
        0 <= i < strides.len() && 0 <= j < strides.len() ==> #[trigger] strides[i] - #[trigger] strides[j]
            <= bound
}

/// One scheduling round on the strides of the ready queue: the task at `i`
/// leaves the queue, runs, and comes back at the end with its stride advanced
/// by `pass`.
pub open spec fn after_round(strides: Seq<usize>, i: int, pass: usize) -> Seq<usize> {
    strides.remove(i).push((strides[i] + pass) as usize)
}

/// When every priority is at least 2 (so that every pass is at most
/// `BIG_STRIDE / 2`) and the scheduler always runs the task with the smallest
/// stride, the largest and smallest strides of the ready queue stay at most
/// `BIG_STRIDE / 2` apart, round after round, as long as no stride overflows.
pub proof fn lemma_stride_spread_bounded(strides: Seq<usize>, i: int, priority: usize)
    requires
        is_first_min(strides, i),
        spread_within(strides, (BIG_STRIDE / 2) as int),
        priority >= 2,
        strides[i] + BIG_STRIDE / priority <= usize::MAX,
    ensures
        spread_within(after_round(strides, i, (BIG_STRIDE / priority) as usize), (BIG_STRIDE / 2) as int),
{
    let pass = BIG_STRIDE / priority;
    assert(pass <= (BIG_STRIDE / 2) as int) by (nonlinear_arith)
        requires
            priority >= 2,
            pass == 0xff_0000usize / priority,
            BIG_STRIDE == 0xff_0000,
    ;
    lemma_spread_after_round(strides, i, pass as usize, (BIG_STRIDE / 2) as int);
}

/// Running a task of smallest stride and advancing it by a pass no larger
/// than `bound` keeps the ready strides within `bound` of each other.
pub proof fn lemma_spread_after_round(strides: Seq<usize>, i: int, pass: usize, bound: int)
    requires
        is_first_min(strides, i),
        spread_within(strides, bound),
        pass <= bound,
        strides[i] + pass <= usize::MAX,
    ensures
        spread_within(after_round(strides, i, pass), bound),
{
    let s2 = after_round(strides, i, pass);
    let r = strides.remove(i);
    assert forall|a: int, b: int| 0 <= a < s2.len() && 0 <= b < s2.len() implies #[trigger] s2[a]
        - #[trigger] s2[b] <= bound by {
        let oa = if a < i { a } else { a + 1 };
        let ob = if b < i { b } else { b + 1 };
        if a < s2.len() - 1 {
            assert(s2[a] == strides[oa]);
        }
        if b < s2.len() - 1 {
            assert(s2[b] == strides[ob]);
        }
        if a < s2.len() - 1 && b < s2.len() - 1 {
            assert(strides[oa] - strides[ob] <= bound);
        } else if a < s2.len() - 1 {
            assert(strides[i] <= strides[oa]);
        } else if b < s2.len() - 1 {
            assert(strides[i] <= strides[ob]);
            assert(strides[ob] - strides[i] <= bound);
        }
    }
}

} // verus!
