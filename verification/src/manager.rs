//! The ready queue of the stride scheduler.
use vstd::prelude::*;

verus! {

/// `i` is the first position of a smallest stride in `strides`.
pub open spec fn is_first_min(strides: Seq<usize>, i: int) -> bool {
    &&& 0 <= i < strides.len()
    &&& forall|j: int| 0 <= j < strides.len() ==> strides[i] <= #[trigger] strides[j]
    &&& forall|j: int| 0 <= j < i ==> strides[i] < #[trigger] strides[j]
}

/// `after` and `res` are what is left of `before`, and what is handed out,
/// when the first task of smallest stride is taken out; `strides` are the
/// strides of the tasks of `before`.
pub open spec fn takes_first_min<T>(
    before: Seq<T>,
    after: Seq<T>,
    res: Option<T>,
    strides: Seq<usize>,
) -> bool {
    exists|i: int|
        #[trigger] is_first_min(strides, i) && res == Some(before[i]) && after == before.remove(i)
}

/// The ready queue: tasks in the order they were added.
pub struct TaskManager<T> {
    ready_vector: Vec<T>,
}

impl<T> View for TaskManager<T> {
    type V = Seq<T>;

    closed spec fn view(&self) -> Seq<T> {
        self.ready_vector@
    }
}

impl<T> TaskManager<T> {
    /// An empty ready queue.
    pub fn new() -> (m: Self)
        ensures
            m@ == Seq::<T>::empty(),
    {
        Self { ready_vector: Vec::new() }
    }

    /// Puts a task at the back of the ready queue.
    pub fn add(&mut self, task: T)
        ensures
            final(self)@ == old(self)@.push(task),
    {
        self.ready_vector.push(task);
    }

    /// Takes out the ready task with the smallest stride, the earliest one
    /// among equals. `stride_of` reads a task's current stride; it is asked
    /// once for each ready task, front to back.
    pub fn fetch(&mut self, stride_of: impl Fn(&T) -> usize) -> (res: Option<T>)
        requires
            forall|t: &T| #[trigger] call_requires(stride_of, (t,)),
        ensures
            old(self)@.len() == 0 ==> res is None && final(self)@ == old(self)@,
            old(self)@.len() > 0 ==> (exists|strides: Seq<usize>|
                {
                    &&& strides.len() == old(self)@.len()
                    &&& forall|j: int|
                        0 <= j < strides.len() ==> call_ensures(
                            stride_of,
                            (&old(self)@[j],),
                            #[trigger] strides[j],
                        )
                    &&& #[trigger] takes_first_min(old(self)@, final(self)@, res, strides)
                }),
    {
        if self.ready_vector.len() == 0 {
            return None;
        }
        let mut min_stride = usize::MAX;
        let mut min_stride_task_idx: usize = 0;
        let n = self.ready_vector.len();
        let ghost mut strides: Seq<usize> = Seq::empty();
        let mut i: usize = 0;
        while i < n
            invariant
                n == self.ready_vector@.len(),
                forall|t: &T| #[trigger] call_requires(stride_of, (t,)),
                n > 0,
                i <= n,
                strides.len() == i,
                forall|j: int|
                    0 <= j < i ==> call_ensures(
                        stride_of,
                        (&self.ready_vector@[j],),
                        #[trigger] strides[j],
                    ),
                min_stride_task_idx < n,
                forall|j: int| 0 <= j < i ==> min_stride <= #[trigger] strides[j],
                forall|j: int| 0 <= j < min_stride_task_idx ==> min_stride < #[trigger] strides[j],
                min_stride == usize::MAX ==> min_stride_task_idx == 0,
                min_stride < usize::MAX ==> min_stride_task_idx < i && strides[min_stride_task_idx as int]
                    == min_stride,
            decreases n - i,
        {
            let current_stride = stride_of(&self.ready_vector[i]);
            proof {
                strides = strides.push(current_stride);
            }
            if current_stride < min_stride {
                min_stride = current_stride;
                min_stride_task_idx = i;
            }
            i += 1;
        }
        proof {
            assert(is_first_min(strides, min_stride_task_idx as int));
        }
        let t = self.ready_vector.remove(min_stride_task_idx);
        proof {
            assert(forall|j: int|
                0 <= j < strides.len() ==> call_ensures(
                    stride_of,
                    (&old(self)@[j],),
                    #[trigger] strides[j],
                ));
            assert(takes_first_min(old(self)@, self@, Some(t), strides));
        }
        Some(t)
    }
}

/// When every ready task has the same stride, the task taken out is the one
/// at the front: among equal strides the queue is first in, first out.
pub proof fn lemma_equal_strides_take_front(strides: Seq<usize>, i: int)
    requires
        forall|j: int| 0 <= j < strides.len() ==> #[trigger] strides[j] == strides[0],
        is_first_min(strides, i),
    ensures
        i == 0,
{
    if i > 0 {
        assert(strides[i] < strides[0]);
        assert(strides[i] == strides[0]);
    }
}

/// A `fetch` hands out a task of smallest stride, the earliest of those,
/// and leaves every other ready task in the queue in the order it had.
pub proof fn lemma_fetch_takes_earliest_smallest<T>(
    before: Seq<T>,
    after: Seq<T>,
    res: Option<T>,
    strides: Seq<usize>,
)
    requires
        strides.len() == before.len(),
        takes_first_min(before, after, res, strides),
    ensures
        exists|i: int|
            {
                &&& 0 <= i < before.len()
                &&& res == Some(#[trigger] before[i])
                &&& forall|j: int| 0 <= j < strides.len() ==> strides[i] <= #[trigger] strides[j]
                &&& forall|j: int| 0 <= j < i ==> strides[i] < #[trigger] strides[j]
                &&& after.len() + 1 == before.len()
                &&& forall|j: int| 0 <= j < i ==> #[trigger] after[j] == before[j]
                &&& forall|j: int| i <= j < after.len() ==> #[trigger] after[j] == before[j + 1]
            },
{
    let i = choose|i: int|
        #[trigger] is_first_min(strides, i) && res == Some(before[i]) && after == before.remove(i);
    assert(res == Some(before[i]));
}

/// Strides that are all the same.
pub open spec fn all_equal(strides: Seq<usize>) -> bool {
    forall|j: int| 0 <= j < strides.len() ==> #[trigger] strides[j] == strides[0]
}

/// One `fetch` that takes `before` to `after` and hands out `res`, the
/// strides it read (`strides`) being all the same.
pub open spec fn equal_stride_fetch<T>(
    before: Seq<T>,
    after: Seq<T>,
    res: Option<T>,
    strides: Seq<usize>,
) -> bool {
    &&& before.len() == 0 ==> res is None && after == before
    &&& before.len() > 0 ==> strides.len() == before.len() && all_equal(strides) && takes_first_min(
        before,
        after,
        res,
        strides,
    )
}

/// Fetching again and again from a ready queue whose tasks all have the same
/// stride hands the tasks out in the order they were added, and nothing once
/// the queue is empty. `queues[k]` is the queue before the `k`-th fetch,
/// `results[k]` what it handed out, `strides[k]` the strides it read.
pub proof fn lemma_equal_strides_fifo<T>(
    queues: Seq<Seq<T>>,
    results: Seq<Option<T>>,
    strides: Seq<Seq<usize>>,
)
    requires
        queues.len() == results.len() + 1,
        strides.len() == results.len(),
        forall|k: int|
            #![trigger results[k]]
            0 <= k < results.len() ==> equal_stride_fetch(
                queues[k],
                queues[k + 1],
                results[k],
                strides[k],
            ),
    ensures
        forall|k: int|
            0 <= k < results.len() ==> #[trigger] results[k] == if k < queues[0].len() {
                Some(queues[0][k])
            } else {
                None
            },
        queues.last() == queues[0].skip(
            if results.len() < queues[0].len() {
                results.len() as int
            } else {
                queues[0].len() as int
            },
        ),
    decreases results.len(),
{
    let n = results.len() as int;
    let q0 = queues[0];
    if n > 0 {
        let qs = queues.drop_last();
        let rs = results.drop_last();
        let ss = strides.drop_last();
        assert forall|k: int| 0 <= k < rs.len() implies equal_stride_fetch(
            qs[k],
            qs[k + 1],
            #[trigger] rs[k],
            ss[k],
        ) by {
            assert(results[k] == rs[k]);
        }
        lemma_equal_strides_fifo(qs, rs, ss);
        assert(qs[0] == q0);
        assert(forall|k: int| 0 <= k < rs.len() ==> results[k] == #[trigger] rs[k]);
        let before = queues[n - 1];
        assert(before == qs.last());
        assert(equal_stride_fetch(before, queues[n], results[n - 1], strides[n - 1]));
        if n - 1 < q0.len() {
            assert(before.len() > 0);
            let i = choose|i: int|
                #[trigger] is_first_min(strides[n - 1], i) && results[n - 1] == Some(before[i])
                    && queues[n] == before.remove(i);
            lemma_equal_strides_take_front(strides[n - 1], i);
            assert(before[0] == q0[n - 1]);
            assert(queues[n] =~= q0.skip(n));
        } else {
            assert(before.len() == 0);
            assert(queues[n] =~= q0.skip(q0.len() as int));
        }
        assert forall|k: int| 0 <= k < n implies #[trigger] results[k] == if k < q0.len() {
            Some(q0[k])
        } else {
            None
        } by {
            if k < n - 1 {
                assert(results[k] == rs[k]);
            }
        }
    }
}

} // verus!
