//! Synchronisation syscalls of a process: the slot tables of its mutexes,
//! semaphores and condition variables, and the banker-style accounting
//! (`work`, `allocated`, `need`, `finish`) used when deadlock detection is on.
//!
//! Each syscall here makes the decision and updates the bookkeeping; the
//! caller then performs the blocking operation on the kernel object when the
//! syscall returns 0.
use vstd::prelude::*;

verus! {

/// What a refused lock or down returns.
pub const DEADLOCK: isize = -0xdead;

/// The flavour of a mutex slot.
#[derive(PartialEq, Eq, Structural, Clone, Copy, Debug)]
pub enum MutexKind {
    /// Busy-waits for the lock.
    Spin,
    /// Blocks the waiting thread.
    Blocking,
}

/// The synchronisation state of one process.
pub struct ProcessSync {
    /// Mutex slots; `None` marks a free slot.
    pub mutex_list: Vec<Option<MutexKind>>,
    /// Semaphore slots, each with the count it was created with.
    pub semaphore_list: Vec<Option<usize>>,
    /// Condition-variable slots; `false` marks a free slot.
    pub condvar_list: Vec<bool>,
    /// Whether deadlock detection is on.
    pub deadlock_detect: bool,
    /// Units of each resource that are available.
    pub work: Vec<u32>,
    /// `allocated[t][r]`: units of resource `r` held by thread `t`.
    pub allocated: Vec<Vec<u32>>,
    /// `need[t][r]`: units of resource `r` that thread `t` still asks for.
    pub need: Vec<Vec<u32>>,
    /// Whether each thread has finished.
    pub finish: Vec<bool>,
}

/// A matrix of counters, row by row.
pub open spec fn rows(m: Seq<Vec<u32>>) -> Seq<Seq<u32>> {
    m.map_values(|r: Vec<u32>| r@)
}

/// `i` is the first free slot of `s`, or `s.len()` when every slot is taken.
pub open spec fn is_first_free<T>(s: Seq<Option<T>>, i: int) -> bool {
    &&& 0 <= i <= s.len()
    &&& forall|j: int| 0 <= j < i ==> (#[trigger] s[j]) is Some
    &&& i < s.len() ==> s[i] is None
}

/// `i` is the first free flag of `s`, or `s.len()` when every flag is set.
pub open spec fn is_first_clear(s: Seq<bool>, i: int) -> bool {
    &&& 0 <= i <= s.len()
    &&& forall|j: int| 0 <= j < i ==> #[trigger] s[j]
    &&& i < s.len() ==> !s[i]
}

/// The slot table after a new object goes into slot `i`: that slot is
/// overwritten, or the table grows by one.
pub open spec fn fill_slot<T>(s: Seq<T>, i: int, v: T) -> Seq<T> {
    if i < s.len() {
        s.update(i, v)
    } else {
        s.push(v)
    }
}

/// The banker's counters are the same in both states.
pub open spec fn same_counters(a: &ProcessSync, b: &ProcessSync) -> bool {
    &&& a.work@ == b.work@
    &&& rows(a.allocated@) == rows(b.allocated@)
    &&& rows(a.need@) == rows(b.need@)
    &&& a.finish@ == b.finish@
}

/// The slot tables and the detection switch are the same in both states.
pub open spec fn same_slots(a: &ProcessSync, b: &ProcessSync) -> bool {
    &&& a.mutex_list@ == b.mutex_list@
    &&& a.semaphore_list@ == b.semaphore_list@
    &&& a.condvar_list@ == b.condvar_list@
    &&& a.deadlock_detect == b.deadlock_detect
}

/// The first free slot of `list`, or its length when all are taken.
fn find_free_slot<T>(list: &Vec<Option<T>>) -> (i: usize)
    ensures
        is_first_free(list@, i as int),
{
    let mut i: usize = 0;
    while i < list.len()
        invariant
            i <= list@.len(),
            forall|j: int| 0 <= j < i ==> (#[trigger] list@[j]) is Some,
        decreases list@.len() - i,
    {
        if list[i].is_none() {
            return i;
        }
        i += 1;
    }
    i
}

/// The first clear flag of `list`, or its length when all are set.
fn find_clear_flag(list: &Vec<bool>) -> (i: usize)
    ensures
        is_first_clear(list@, i as int),
{
    let mut i: usize = 0;
    while i < list.len()
        invariant
            i <= list@.len(),
            forall|j: int| 0 <= j < i ==> #[trigger] list@[j],
        decreases list@.len() - i,
    {
        if !list[i] {
            return i;
        }
        i += 1;
    }
    i
}

/// `n` copies of `v`.
fn repeat_u32(v: u32, n: usize) -> (r: Vec<u32>)
    ensures
        r@ == Seq::new(n as nat, |_i: int| v),
{
    let mut r: Vec<u32> = Vec::new();
    let mut i: usize = 0;
    while i < n
        invariant
            i <= n,
            r@ == Seq::new(i as nat, |_j: int| v),
        decreases n - i,
    {
        r.push(v);
        i += 1;
    }
    r
}

/// An `n` by `n` matrix of zeros.
fn zero_matrix(n: usize) -> (m: Vec<Vec<u32>>)
    ensures
        rows(m@) == Seq::new(n as nat, |_i: int| Seq::new(n as nat, |_j: int| 0u32)),
{
    let mut m: Vec<Vec<u32>> = Vec::new();
    let mut i: usize = 0;
    while i < n
        invariant
            i <= n,
            m@.len() == i,
            rows(m@) == Seq::new(i as nat, |_k: int| Seq::new(n as nat, |_j: int| 0u32)),
        decreases n - i,
    {
        let row = repeat_u32(0, n);
        let ghost before = m@;
        m.push(row);
        proof {
            let target = Seq::new((i + 1) as nat, |_k: int| Seq::new(n as nat, |_j: int| 0u32));
            assert forall|k: int| 0 <= k < i + 1 implies #[trigger] rows(m@)[k] == target[k] by {
                if k < i {
                    assert(m@[k] == before[k]);
                    assert(rows(before)[k] == target[k]);
                } else {
                    assert(m@[k] == row);
                    assert(row@ =~= target[k]);
                }
            }
            assert(rows(m@) =~= target);
        }
        i += 1;
    }
    m
}

impl ProcessSync {
    /// The state of a new process: no synchronisation objects, detection
    /// off, and ten threads by ten resources of zeroed counters.
    pub fn new() -> (p: Self)
        ensures
            p.mutex_list@.len() == 0,
            p.semaphore_list@.len() == 0,
            p.condvar_list@.len() == 0,
            !p.deadlock_detect,
            p.work@.len() == 0,
            rows(p.allocated@) == Seq::new(10, |_i: int| Seq::new(10, |_j: int| 0u32)),
            rows(p.need@) == Seq::new(10, |_i: int| Seq::new(10, |_j: int| 0u32)),
            p.finish@ == Seq::new(10, |_i: int| false),
    {
        let mut finish: Vec<bool> = Vec::new();
        let mut i: usize = 0;
        while i < 10
            invariant
                i <= 10,
                finish@ == Seq::new(i as nat, |_j: int| false),
            decreases 10 - i,
        {
            finish.push(false);
            i += 1;
        }
        ProcessSync {
            mutex_list: Vec::new(),
            semaphore_list: Vec::new(),
            condvar_list: Vec::new(),
            deadlock_detect: false,
            work: Vec::new(),
            allocated: zero_matrix(10),
            need: zero_matrix(10),
            finish,
        }
    }
}

/// The deadline of a sleep of `ms` milliseconds started at `now_ms`.
pub fn sys_sleep(now_ms: usize, ms: usize) -> (expire_ms: usize)
    requires
        now_ms + ms <= usize::MAX,
    ensures
        expire_ms == now_ms + ms,
{
    now_ms + ms
}

/// The available counts once the resource with id `id` is given `count`
/// units: its entry is set, or appended when `work` has none for it yet.
pub open spec fn set_units(work: Seq<u32>, id: int, count: u32) -> Seq<u32> {
    if id < work.len() {
        work.update(id, count)
    } else {
        work.push(count)
    }
}

/// Gives the resource with id `id` `count` available units.
fn set_units_exec(work: &mut Vec<u32>, id: usize, count: u32)
    ensures
        final(work)@ == set_units(old(work)@, id as int, count),
{
    if id < work.len() {
        work[id] = count;
    } else {
        work.push(count);
    }
}

/// Creates a mutex, spinning or blocking, in the first free slot and returns
/// its id. With detection on, one available unit is appended to `work`.
pub fn sys_mutex_create(p: &mut ProcessSync, blocking: bool) -> (id: isize)
    requires
        old(p).mutex_list@.len() < isize::MAX,
    ensures
        is_first_free(old(p).mutex_list@, id as int),
        forall|j: int| 0 <= j < id ==> (#[trigger] old(p).mutex_list@[j]) is Some,
        id < old(p).mutex_list@.len() ==> old(p).mutex_list@[id as int] is None,
        final(p).mutex_list@.len() == if id < old(p).mutex_list@.len() {
            old(p).mutex_list@.len()
        } else {
            old(p).mutex_list@.len() + 1
        },
        final(p).mutex_list@[id as int] == Some(if blocking { MutexKind::Blocking } else { MutexKind::Spin }),
        forall|j: int|
            0 <= j < old(p).mutex_list@.len() && j != id ==> #[trigger] final(p).mutex_list@[j]
                == old(p).mutex_list@[j],
        final(p).mutex_list@ == fill_slot(
            old(p).mutex_list@,
            id as int,
            Some(if blocking { MutexKind::Blocking } else { MutexKind::Spin }),
        ),
        final(p).work@ == if old(p).deadlock_detect {
            old(p).work@.push(1)
        } else {
            old(p).work@
        },
        old(p).deadlock_detect && old(p).work@.len() == old(p).mutex_list@.len() && id
            == old(p).mutex_list@.len() ==> final(p).work@.len() == final(p).mutex_list@.len()
            && final(p).work@[id as int] == 1,
        final(p).semaphore_list@ == old(p).semaphore_list@,
        final(p).condvar_list@ == old(p).condvar_list@,
        final(p).deadlock_detect == old(p).deadlock_detect,
        rows(final(p).allocated@) == rows(old(p).allocated@),
        rows(final(p).need@) == rows(old(p).need@),
        final(p).finish@ == old(p).finish@,
        forall|s: int| 0 <= s < old(p).work@.len() ==> #[trigger] units(final(p), s) == units(old(p), s),
{
    let kind = if !blocking {
        MutexKind::Spin
    } else {
        MutexKind::Blocking
    };
    let id = find_free_slot(&p.mutex_list);
    if id < p.mutex_list.len() {
        p.mutex_list[id] = Some(kind);
    } else {
        p.mutex_list.push(Some(kind));
    }
    if p.deadlock_detect {
        p.work.push(1);
    }
    id as isize
}

/// `allocated` has an entry for thread `tid` and resource `mutex_id` that
/// can take one more unit.
pub open spec fn can_record_hold(a: &ProcessSync, mutex_id: int, tid: int) -> bool {
    &&& 0 <= tid < rows(a.allocated@).len()
    &&& 0 <= mutex_id < rows(a.allocated@)[tid].len()
    &&& rows(a.allocated@)[tid][mutex_id] < u32::MAX
}

/// What a lock of mutex `mutex_id` by thread `tid`, returning `r`, does to
/// the state. With detection on, it is refused with `DEADLOCK` when no unit
/// is available, and otherwise one unit leaves the available count and is
/// recorded as held by `tid` where `allocated` has room for it. Without
/// detection nothing changes and `r` is 0.
pub open spec fn mutex_lock_effect(
    a: &ProcessSync,
    b: &ProcessSync,
    mutex_id: int,
    tid: int,
    r: isize,
) -> bool {
    &&& same_slots(a, b)
    &&& rows(b.need@) == rows(a.need@)
    &&& b.finish@ == a.finish@
    &&& !a.deadlock_detect ==> r == 0 && b.work@ == a.work@ && rows(b.allocated@) == rows(
        a.allocated@,
    )
    &&& a.deadlock_detect && a.work@[mutex_id] == 0 ==> r == DEADLOCK && b.work@ == a.work@
        && rows(b.allocated@) == rows(a.allocated@)
    &&& a.deadlock_detect && a.work@[mutex_id] > 0 ==> r == 0 && b.work@ == a.work@.update(
        mutex_id,
        (a.work@[mutex_id] - 1) as u32,
    ) && rows(b.allocated@) == if can_record_hold(a, mutex_id, tid) {
        rows(a.allocated@).update(
            tid,
            rows(a.allocated@)[tid].update(mutex_id, (rows(a.allocated@)[tid][mutex_id] + 1) as u32),
        )
    } else {
        rows(a.allocated@)
    }
}

/// What an unlock of mutex `mutex_id` by thread `tid` does to the state:
/// with detection on, the unit that `tid` held goes back to the available
/// count; nothing else changes.
pub open spec fn mutex_unlock_effect(a: &ProcessSync, b: &ProcessSync, mutex_id: int, tid: int) -> bool {
    &&& same_slots(a, b)
    &&& rows(b.need@) == rows(a.need@)
    &&& b.finish@ == a.finish@
    &&& !a.deadlock_detect ==> b.work@ == a.work@ && rows(b.allocated@) == rows(a.allocated@)
    &&& a.deadlock_detect ==> b.work@ == a.work@.update(mutex_id, (a.work@[mutex_id] + 1) as u32)
        && rows(b.allocated@) == rows(a.allocated@).update(
        tid,
        rows(a.allocated@)[tid].update(mutex_id, (rows(a.allocated@)[tid][mutex_id] - 1) as u32),
    )
}

/// Decides a lock of mutex `mutex_id` by thread `tid`. Returns 0 when the
/// caller may go on to take the mutex; with detection on and no unit of the
/// resource left it returns `DEADLOCK` and changes nothing, otherwise the
/// unit is taken and recorded as held by `tid` where `allocated` has room.
pub fn sys_mutex_lock(p: &mut ProcessSync, mutex_id: usize, tid: usize) -> (r: isize)
    requires
        mutex_id < old(p).mutex_list@.len(),
        old(p).mutex_list@[mutex_id as int] is Some,
        old(p).deadlock_detect ==> mutex_id < old(p).work@.len(),
    ensures
        mutex_lock_effect(old(p), final(p), mutex_id as int, tid as int, r),
        forall|s: int|
            0 <= s < old(p).work@.len() && (s != mutex_id || can_record_hold(
                old(p),
                mutex_id as int,
                tid as int,
            )) ==> #[trigger] units(final(p), s) == units(old(p), s),
{
    if p.deadlock_detect {
        if p.work[mutex_id] == 0 {
            DEADLOCK
        } else {
            p.work[mutex_id] -= 1;
            if tid < p.allocated.len() && mutex_id < p.allocated[tid].len()
                && p.allocated[tid][mutex_id] < u32::MAX {
                p.allocated[tid][mutex_id] += 1;
                proof {
                    let m = rows(old(p).allocated@);
                    let row = m[tid as int].update(
                        mutex_id as int,
                        (m[tid as int][mutex_id as int] + 1) as u32,
                    );
                    assert(rows(p.allocated@) =~= m.update(tid as int, row));
                    assert forall|s: int| 0 <= s < old(p).work@.len() implies #[trigger] units(p, s)
                        == units(old(p), s) by {
                        lemma_held_update(m, tid as int, row, s);
                    }
                }
            }
            0
        }
    } else {
        0
    }
}

/// Decides an unlock of mutex `mutex_id` by thread `tid`. Always returns 0,
/// after which the caller releases the mutex; with detection on, the unit
/// that `tid` held goes back to the available count.
pub fn sys_mutex_unlock(p: &mut ProcessSync, mutex_id: usize, tid: usize) -> (r: isize)
    requires
        mutex_id < old(p).mutex_list@.len(),
        old(p).mutex_list@[mutex_id as int] is Some,
        old(p).deadlock_detect ==> {
            &&& mutex_id < old(p).work@.len()
            &&& old(p).work@[mutex_id as int] < u32::MAX
            &&& tid < rows(old(p).allocated@).len()
            &&& mutex_id < rows(old(p).allocated@)[tid as int].len()
            &&& rows(old(p).allocated@)[tid as int][mutex_id as int] >= 1
        },
    ensures
        r == 0,
        mutex_unlock_effect(old(p), final(p), mutex_id as int, tid as int),
        forall|s: int| 0 <= s < old(p).work@.len() ==> #[trigger] units(final(p), s) == units(old(p), s),
{
    if p.deadlock_detect {
        p.work[mutex_id] += 1;
        p.allocated[tid][mutex_id] -= 1;
        proof {
            let m = rows(old(p).allocated@);
            let row = m[tid as int].update(
                mutex_id as int,
                (m[tid as int][mutex_id as int] - 1) as u32,
            );
            assert(rows(p.allocated@) =~= m.update(tid as int, row));
            assert forall|s: int| 0 <= s < old(p).work@.len() implies #[trigger] units(p, s)
                == units(old(p), s) by {
                lemma_held_update(m, tid as int, row, s);
            }
        }
    }
    0
}

/// Records that thread `tid` has exited.
pub fn thread_exit(p: &mut ProcessSync, tid: usize)
    requires
        tid < old(p).finish@.len(),
    ensures
        final(p).finish@ == old(p).finish@.update(tid as int, true),
        same_slots(old(p), final(p)),
        final(p).work@ == old(p).work@,
        rows(final(p).allocated@) == rows(old(p).allocated@),
        rows(final(p).need@) == rows(old(p).need@),
{
    p.finish[tid] = true;
}

/// Turns deadlock detection on when `enabled` is 1 and off otherwise.
pub fn sys_enable_deadlock_detect(p: &mut ProcessSync, enabled: usize) -> (r: isize)
    ensures
        r == 0,
        final(p).deadlock_detect == (enabled == 1),
        final(p).mutex_list@ == old(p).mutex_list@,
        final(p).semaphore_list@ == old(p).semaphore_list@,
        final(p).condvar_list@ == old(p).condvar_list@,
        same_counters(old(p), final(p)),
        forall|s: int| 0 <= s < old(p).work@.len() ==> #[trigger] units(final(p), s) == units(old(p), s),
{
    if enabled == 1 {
        p.deadlock_detect = true;
    } else {
        p.deadlock_detect = false;
    }
    0
}

/// The units of resource `s` that `row` records, zero past its end.
pub open spec fn cell(row: Seq<u32>, s: int) -> int {
    if 0 <= s < row.len() {
        row[s] as int
    } else {
        0
    }
}

/// The units of resource `s` held by all threads together.
pub open spec fn held(m: Seq<Seq<u32>>, s: int) -> int
    decreases m.len(),
{
    if m.len() == 0 {
        0
    } else {
        held(m.drop_last(), s) + cell(m.last(), s)
    }
}

/// The units of resource `s` in the system: those available plus those held.
pub open spec fn units(p: &ProcessSync, s: int) -> int {
    p.work@[s] as int + held(rows(p.allocated@), s)
}

/// Replacing one thread's row changes the total held of `s` by the change in
/// that row's entry for `s`.
pub proof fn lemma_held_update(m: Seq<Seq<u32>>, t: int, row: Seq<u32>, s: int)
    requires
        0 <= t < m.len(),
    ensures
        held(m.update(t, row), s) == held(m, s) - cell(m[t], s) + cell(row, s),
    decreases m.len(),
{
    let m2 = m.update(t, row);
    if t == m.len() - 1 {
        assert(m2.drop_last() =~= m.drop_last());
    } else {
        lemma_held_update(m.drop_last(), t, row, s);
        assert(m2.drop_last() =~= m.drop_last().update(t, row));
    }
}

/// `need_row` asks for no more of any resource than is available.
pub open spec fn needs_met(work: Seq<u32>, need_row: Seq<u32>) -> bool {
    forall|k: int| 0 <= k < work.len() ==> k < need_row.len() && #[trigger] need_row[k] <= work[k]
}

/// Checking `need_row` against `work` entry by entry, stopping at the first
/// shortfall, reads only entries that `need_row` has.
pub open spec fn need_check_defined(work: Seq<u32>, need_row: Seq<u32>) -> bool {
    need_row.len() >= work.len() || exists|k: int|
        0 <= k < need_row.len() && #[trigger] need_row[k] > work[k]
}

/// Thread `td`, another than `tid`, is unfinished and could be given all it
/// still needs.
pub open spec fn can_run(
    work: Seq<u32>,
    need: Seq<Seq<u32>>,
    finish: Seq<bool>,
    tid: int,
    td: int,
) -> bool {
    &&& td != tid
    &&& 0 <= td < finish.len()
    &&& !finish[td]
    &&& td < need.len()
    &&& needs_met(work, need[td])
}

/// Some thread numbered from 1 up to below `task_count` can run, by
/// `can_run`.
pub open spec fn other_can_run(
    work: Seq<u32>,
    need: Seq<Seq<u32>>,
    finish: Seq<bool>,
    tid: int,
    task_count: int,
) -> bool {
    exists|td: int| 1 <= td < task_count && #[trigger] can_run(work, need, finish, tid, td)
}

/// No thread numbered from 1 up to below `td` can run, by `can_run`.
pub open spec fn none_before(
    work: Seq<u32>,
    need: Seq<Seq<u32>>,
    finish: Seq<bool>,
    tid: int,
    td: int,
) -> bool {
    forall|t: int| 1 <= t < td ==> !#[trigger] can_run(work, need, finish, tid, t)
}

/// Scanning threads 1 up to below `task_count` for one that can run, in
/// order and stopping at the first, reads only entries that exist.
pub open spec fn scan_defined(
    work: Seq<u32>,
    need: Seq<Seq<u32>>,
    finish: Seq<bool>,
    tid: int,
    task_count: int,
) -> bool {
    forall|td: int|
        1 <= td < task_count && td != tid && #[trigger] none_before(work, need, finish, tid, td)
            ==> td < finish.len() && (!finish[td] ==> td < need.len() && need_check_defined(
            work,
            need[td],
        ))
}

/// Whether `need_row` asks for no more than `work` offers.
fn needs_met_exec(work: &Vec<u32>, need_row: &Vec<u32>) -> (b: bool)
    requires
        need_check_defined(work@, need_row@),
    ensures
        b == needs_met(work@, need_row@),
{
    let mut k: usize = 0;
    while k < work.len()
        invariant
            need_check_defined(work@, need_row@),
            k <= work@.len(),
            forall|j: int| 0 <= j < k ==> j < need_row@.len() && #[trigger] need_row@[j] <= work@[j],
        decreases work@.len() - k,
    {
        if k >= need_row.len() {
            return false;
        }
        if work[k] < need_row[k] {
            return false;
        }
        k += 1;
    }
    true
}

/// Whether a thread numbered from 1 up to below `task_count`, other than
/// `tid`, is unfinished and could be given all it still needs.
fn other_thread_can_run(p: &ProcessSync, tid: usize, task_count: usize) -> (b: bool)
    requires
        scan_defined(p.work@, rows(p.need@), p.finish@, tid as int, task_count as int),
    ensures
        b == other_can_run(p.work@, rows(p.need@), p.finish@, tid as int, task_count as int),
{
    let ghost need = rows(p.need@);
    let mut td: usize = 1;
    while td < task_count
        invariant
            need == rows(p.need@),
            scan_defined(p.work@, need, p.finish@, tid as int, task_count as int),
            1 <= td,
            none_before(p.work@, need, p.finish@, tid as int, td as int),
        decreases task_count - td,
    {
        if td != tid {
            assert(td < p.finish@.len());
            if !p.finish[td] {
                assert(td < p.need@.len());
                let found = needs_met_exec(&p.work, &p.need[td]);
                if found {
                    assert(can_run(p.work@, need, p.finish@, tid as int, td as int));
                    return true;
                }
            }
        }
        assert(!can_run(p.work@, need, p.finish@, tid as int, td as int));
        assert(none_before(p.work@, need, p.finish@, tid as int, (td + 1) as int));
        td += 1;
    }
    false
}

/// Creates a semaphore with `res_count` units in the first free slot and
/// returns its id; the semaphore's resource gets `res_count` available units
/// (kept as a `u32`).
pub fn sys_semaphore_create(p: &mut ProcessSync, res_count: usize) -> (id: isize)
    requires
        old(p).semaphore_list@.len() < isize::MAX,
    ensures
        is_first_free(old(p).semaphore_list@, id as int),
        final(p).semaphore_list@ == fill_slot(old(p).semaphore_list@, id as int, Some(res_count)),
        final(p).work@ == set_units(old(p).work@, id as int, res_count as u32),
        forall|j: int| 0 <= j < id ==> (#[trigger] old(p).semaphore_list@[j]) is Some,
        id < old(p).semaphore_list@.len() ==> old(p).semaphore_list@[id as int] is None,
        final(p).semaphore_list@.len() == if id < old(p).semaphore_list@.len() {
            old(p).semaphore_list@.len()
        } else {
            old(p).semaphore_list@.len() + 1
        },
        final(p).semaphore_list@[id as int] == Some(res_count),
        forall|j: int|
            0 <= j < old(p).semaphore_list@.len() && j != id ==> #[trigger] final(p).semaphore_list@[j]
                == old(p).semaphore_list@[j],
        id < old(p).work@.len() ==> final(p).work@.len() == old(p).work@.len()
            && final(p).work@[id as int] == res_count as u32,
        id >= old(p).work@.len() ==> final(p).work@.len() == old(p).work@.len() + 1
            && final(p).work@[old(p).work@.len() as int] == res_count as u32,
        forall|j: int|
            0 <= j < old(p).work@.len() && j != id ==> #[trigger] final(p).work@[j] == old(p).work@[j],
        old(p).work@.len() == old(p).semaphore_list@.len() ==> final(p).work@.len()
            == final(p).semaphore_list@.len() && final(p).work@[id as int] == res_count as u32,
        final(p).mutex_list@ == old(p).mutex_list@,
        final(p).condvar_list@ == old(p).condvar_list@,
        final(p).deadlock_detect == old(p).deadlock_detect,
        rows(final(p).allocated@) == rows(old(p).allocated@),
        rows(final(p).need@) == rows(old(p).need@),
        final(p).finish@ == old(p).finish@,
        forall|s: int|
            0 <= s < old(p).work@.len() && s != id ==> #[trigger] units(final(p), s) == units(
                old(p),
                s,
            ),
{
    let id = find_free_slot(&p.semaphore_list);
    if id < p.semaphore_list.len() {
        p.semaphore_list[id] = Some(res_count);
    } else {
        p.semaphore_list.push(Some(res_count));
    }
    set_units_exec(&mut p.work, id, res_count as u32);
    id as isize
}

/// What a semaphore up by thread `tid` does to the state: with detection
/// on, one unit of `sem_id` goes from what `tid` holds back to the
/// available count; nothing else changes.
pub open spec fn semaphore_up_effect(a: &ProcessSync, b: &ProcessSync, sem_id: int, tid: int) -> bool {
    &&& same_slots(a, b)
    &&& rows(b.need@) == rows(a.need@)
    &&& b.finish@ == a.finish@
    &&& !a.deadlock_detect ==> b.work@ == a.work@ && rows(b.allocated@) == rows(a.allocated@)
    &&& a.deadlock_detect ==> b.work@ == a.work@.update(sem_id, (a.work@[sem_id] + 1) as u32)
        && rows(b.allocated@) == rows(a.allocated@).update(
        tid,
        rows(a.allocated@)[tid].update(sem_id, (rows(a.allocated@)[tid][sem_id] - 1) as u32),
    )
}

/// What a semaphore down by thread `tid`, returning `r`, does to the state.
/// With detection on, `tid`'s demand for `sem_id` grows by one; a demand
/// that the available units cover is granted (moved to what `tid` holds,
/// with `r` 0), otherwise it is recorded and `r` is 0 exactly when another
/// thread can run, `DEADLOCK` when none can. Without detection nothing
/// changes and `r` is 0.
pub open spec fn semaphore_down_effect(
    a: &ProcessSync,
    b: &ProcessSync,
    sem_id: int,
    tid: int,
    task_count: int,
    r: isize,
) -> bool {
    &&& same_slots(a, b)
    &&& b.finish@ == a.finish@
    &&& !a.deadlock_detect ==> r == 0 && same_counters(a, b)
    &&& a.deadlock_detect ==> ({
        let demand = rows(a.need@)[tid][sem_id] + 1;
        let avail = a.work@[sem_id];
        let need_row = rows(a.need@)[tid];
        if avail >= demand {
            &&& r == 0
            &&& b.work@ == a.work@.update(sem_id, (avail - demand) as u32)
            &&& rows(b.allocated@) == rows(a.allocated@).update(
                tid,
                rows(a.allocated@)[tid].update(
                    sem_id,
                    (rows(a.allocated@)[tid][sem_id] + demand) as u32,
                ),
            )
            &&& rows(b.need@) == rows(a.need@).update(tid, need_row.update(sem_id, 0))
        } else {
            &&& r == (if other_can_run(a.work@, rows(a.need@), a.finish@, tid, task_count) {
                0
            } else {
                DEADLOCK
            })
            &&& b.work@ == a.work@
            &&& rows(b.allocated@) == rows(a.allocated@)
            &&& rows(b.need@) == rows(a.need@).update(tid, need_row.update(sem_id, demand as u32))
        }
    })
}

/// Decides a semaphore up by thread `tid`. Always returns 0, after which the
/// caller raises the semaphore; with detection on, the unit that `tid` held
/// goes back to the available count.
pub fn sys_semaphore_up(p: &mut ProcessSync, sem_id: usize, tid: usize) -> (r: isize)
    requires
        sem_id < old(p).semaphore_list@.len(),
        old(p).semaphore_list@[sem_id as int] is Some,
        old(p).deadlock_detect ==> {
            &&& sem_id < old(p).work@.len()
            &&& old(p).work@[sem_id as int] < u32::MAX
            &&& tid < rows(old(p).allocated@).len()
            &&& sem_id < rows(old(p).allocated@)[tid as int].len()
            &&& rows(old(p).allocated@)[tid as int][sem_id as int] >= 1
        },
    ensures
        r == 0,
        semaphore_up_effect(old(p), final(p), sem_id as int, tid as int),
        forall|s: int| 0 <= s < old(p).work@.len() ==> #[trigger] units(final(p), s) == units(old(p), s),
{
    if p.deadlock_detect {
        p.work[sem_id] += 1;
        p.allocated[tid][sem_id] -= 1;
        proof {
            let m = rows(old(p).allocated@);
            let row = m[tid as int].update(
                sem_id as int,
                (rows(old(p).allocated@)[tid as int][sem_id as int] - 1) as u32,
            );
            assert(rows(p.allocated@) =~= m.update(tid as int, row));
            assert forall|s: int| 0 <= s < old(p).work@.len() implies #[trigger] units(p, s) == units(old(p), s) by {
                lemma_held_update(m, tid as int, row, s);
            }
        }
    }
    0
}

/// A semaphore down on `sem_id` by thread `tid` of a process with
/// `task_count` threads uses only table entries that exist, and its
/// counters stay within `u32`.
pub open spec fn semaphore_down_in_bounds(
    p: &ProcessSync,
    sem_id: int,
    tid: int,
    task_count: int,
) -> bool {
    &&& 0 <= sem_id < p.semaphore_list@.len()
    &&& p.semaphore_list@[sem_id] is Some
    &&& p.deadlock_detect ==> {
        &&& 0 <= tid < rows(p.need@).len()
        &&& sem_id < rows(p.need@)[tid].len()
        &&& rows(p.need@)[tid][sem_id] < u32::MAX
        &&& sem_id < p.work@.len()
        &&& p.work@[sem_id] > rows(p.need@)[tid][sem_id] ==> {
            &&& tid < rows(p.allocated@).len()
            &&& sem_id < rows(p.allocated@)[tid].len()
            &&& rows(p.allocated@)[tid][sem_id] + rows(p.need@)[tid][sem_id] + 1 <= u32::MAX
        }
        &&& p.work@[sem_id] <= rows(p.need@)[tid][sem_id] ==> scan_defined(
            p.work@,
            rows(p.need@),
            p.finish@,
            tid,
            task_count,
        )
    }
}

/// Whether a thread's need row can be checked against `work` entry by entry
/// without running past the row's end.
fn need_check_defined_exec(work: &Vec<u32>, need_row: &Vec<u32>) -> (b: bool)
    ensures
        b == need_check_defined(work@, need_row@),
{
    if need_row.len() >= work.len() {
        return true;
    }
    let mut k: usize = 0;
    while k < need_row.len()
        invariant
            need_row@.len() < work@.len(),
            k <= need_row@.len(),
            forall|j: int| 0 <= j < k ==> #[trigger] need_row@[j] <= work@[j],
        decreases need_row@.len() - k,
    {
        if need_row[k] > work[k] {
            return true;
        }
        k += 1;
    }
    false
}

/// Whether scanning for another thread that can run stays within the
/// tables, by `scan_defined`.
fn scan_defined_exec(p: &ProcessSync, tid: usize, task_count: usize) -> (b: bool)
    ensures
        b == scan_defined(p.work@, rows(p.need@), p.finish@, tid as int, task_count as int),
{
    let ghost need = rows(p.need@);
    let mut td: usize = 1;
    while td < task_count
        invariant
            need == rows(p.need@),
            1 <= td,
            none_before(p.work@, need, p.finish@, tid as int, td as int),
            forall|t: int|
                1 <= t < td && t != tid && #[trigger] none_before(p.work@, need, p.finish@, tid as int, t)
                    ==> t < p.finish@.len() && (!p.finish@[t] ==> t < need.len()
                    && need_check_defined(p.work@, need[t])),
        decreases task_count - td,
    {
        if td != tid {
            if td >= p.finish.len() {
                return false;
            }
            if !p.finish[td] {
                if td >= p.need.len() {
                    return false;
                }
                if !need_check_defined_exec(&p.work, &p.need[td]) {
                    return false;
                }
                if needs_met_exec(&p.work, &p.need[td]) {
                    assert(can_run(p.work@, need, p.finish@, tid as int, td as int));
                    assert forall|t: int|
                        1 <= t < task_count && t != tid && #[trigger] none_before(
                            p.work@,
                            need,
                            p.finish@,
                            tid as int,
                            t,
                        ) implies t < p.finish@.len() && (!p.finish@[t] ==> t < need.len()
                        && need_check_defined(p.work@, need[t])) by {
                        if t > td {
                            assert(!can_run(p.work@, need, p.finish@, tid as int, td as int));
                        }
                    }
                    return true;
                }
            }
        }
        assert(!can_run(p.work@, need, p.finish@, tid as int, td as int));
        assert(none_before(p.work@, need, p.finish@, tid as int, (td + 1) as int));
        td += 1;
    }
    true
}

/// Whether `sys_semaphore_down` may be called with these arguments: the
/// test, by `semaphore_down_in_bounds`, that a caller makes before the call.
pub fn semaphore_down_allowed(p: &ProcessSync, sem_id: usize, tid: usize, task_count: usize) -> (b:
    bool)
    ensures
        b == semaphore_down_in_bounds(p, sem_id as int, tid as int, task_count as int),
{
    if sem_id >= p.semaphore_list.len() || p.semaphore_list[sem_id].is_none() {
        return false;
    }
    if !p.deadlock_detect {
        return true;
    }
    if tid >= p.need.len() || sem_id >= p.need[tid].len() || p.need[tid][sem_id] == u32::MAX
        || sem_id >= p.work.len() {
        return false;
    }
    let need_cur = p.need[tid][sem_id];
    if p.work[sem_id] > need_cur {
        tid < p.allocated.len() && sem_id < p.allocated[tid].len() && p.allocated[tid][sem_id]
            <= u32::MAX - need_cur - 1
    } else {
        scan_defined_exec(p, tid, task_count)
    }
}

/// Decides a semaphore down by thread `tid` of a process with `task_count`
/// threads. Without detection it returns 0. With detection, `tid` asks for
/// one more unit. When its whole demand for the resource is available, it
/// is granted: moved from the available count to what `tid` holds, and 0 is
/// returned. Otherwise the demand is recorded and 0 is returned when some
/// other unfinished thread numbered from 1 could be given all it needs, and
/// `DEADLOCK` when none could.
pub fn sys_semaphore_down(p: &mut ProcessSync, sem_id: usize, tid: usize, task_count: usize) -> (r:
    isize)
    requires
        semaphore_down_in_bounds(old(p), sem_id as int, tid as int, task_count as int),
    ensures
        semaphore_down_effect(old(p), final(p), sem_id as int, tid as int, task_count as int, r),
        forall|s: int| 0 <= s < old(p).work@.len() ==> #[trigger] units(final(p), s) == units(old(p), s),
{
    if !p.deadlock_detect {
        return 0;
    }
    let demand = p.need[tid][sem_id] + 1;
    if p.work[sem_id] >= demand {
        p.work[sem_id] -= demand;
        p.allocated[tid][sem_id] += demand;
        p.need[tid][sem_id] = 0;
        proof {
            let m = rows(old(p).allocated@);
            let row = m[tid as int].update(
                sem_id as int,
                (rows(old(p).allocated@)[tid as int][sem_id as int] + demand) as u32,
            );
            assert(rows(p.allocated@) =~= m.update(tid as int, row));
            assert(rows(p.need@) =~= rows(old(p).need@).update(
                tid as int,
                rows(old(p).need@)[tid as int].update(sem_id as int, 0),
            ));
            assert forall|s: int| 0 <= s < old(p).work@.len() implies #[trigger] units(p, s) == units(old(p), s) by {
                lemma_held_update(m, tid as int, row, s);
            }
        }
        0
    } else {
        let found = other_thread_can_run(p, tid, task_count);
        p.need[tid][sem_id] = demand;
        proof {
            assert(rows(p.need@) =~= rows(old(p).need@).update(
                tid as int,
                rows(old(p).need@)[tid as int].update(sem_id as int, demand),
            ));
            assert(rows(p.allocated@) =~= rows(old(p).allocated@));
            assert forall|s: int| 0 <= s < old(p).work@.len() implies #[trigger] units(p, s) == units(old(p), s) by {
            }
        }
        if found {
            0
        } else {
            DEADLOCK
        }
    }
}

/// Creates a condition variable in the first free slot and returns its id.
pub fn sys_condvar_create(p: &mut ProcessSync) -> (id: isize)
    requires
        old(p).condvar_list@.len() < isize::MAX,
    ensures
        is_first_clear(old(p).condvar_list@, id as int),
        forall|j: int| 0 <= j < id ==> #[trigger] old(p).condvar_list@[j],
        id < old(p).condvar_list@.len() ==> !old(p).condvar_list@[id as int],
        final(p).condvar_list@.len() == if id < old(p).condvar_list@.len() {
            old(p).condvar_list@.len()
        } else {
            old(p).condvar_list@.len() + 1
        },
        final(p).condvar_list@[id as int],
        forall|j: int|
            0 <= j < old(p).condvar_list@.len() && j != id ==> #[trigger] final(p).condvar_list@[j]
                == old(p).condvar_list@[j],
        final(p).condvar_list@ == fill_slot(old(p).condvar_list@, id as int, true),
        final(p).mutex_list@ == old(p).mutex_list@,
        final(p).semaphore_list@ == old(p).semaphore_list@,
        final(p).deadlock_detect == old(p).deadlock_detect,
        same_counters(old(p), final(p)),
        forall|s: int| 0 <= s < old(p).work@.len() ==> #[trigger] units(final(p), s) == units(old(p), s),
{
    let id = find_clear_flag(&p.condvar_list);
    if id < p.condvar_list.len() {
        p.condvar_list[id] = true;
    } else {
        p.condvar_list.push(true);
    }
    id as isize
}

/// Decides a signal on a condition variable: it must exist, and the caller
/// then signals it; returns 0.
pub fn sys_condvar_signal(p: &ProcessSync, condvar_id: usize) -> (r: isize)
    requires
        condvar_id < p.condvar_list@.len(),
        p.condvar_list@[condvar_id as int],
    ensures
        r == 0,
{
    0
}

/// Decides a wait on a condition variable with a mutex: both must exist, and
/// the caller then waits; returns 0.
pub fn sys_condvar_wait(p: &ProcessSync, condvar_id: usize, mutex_id: usize) -> (r: isize)
    requires
        condvar_id < p.condvar_list@.len(),
        p.condvar_list@[condvar_id as int],
        mutex_id < p.mutex_list@.len(),
        p.mutex_list@[mutex_id as int] is Some,
    ensures
        r == 0,
{
    0
}

/// A down that is granted at once (the thread asked for nothing more of the
/// semaphore and a unit is available), followed by an up of the same
/// semaphore by the same thread, leaves every counter as it was.
pub proof fn lemma_down_then_up_restores(
    p0: &ProcessSync,
    p1: &ProcessSync,
    p2: &ProcessSync,
    sem_id: int,
    tid: int,
    task_count: int,
    r: isize,
)
    requires
        p0.deadlock_detect,
        0 <= sem_id < p0.work@.len(),
        0 <= tid < rows(p0.need@).len(),
        sem_id < rows(p0.need@)[tid].len(),
        tid < rows(p0.allocated@).len(),
        sem_id < rows(p0.allocated@)[tid].len(),
        rows(p0.need@)[tid][sem_id] == 0,
        p0.work@[sem_id] >= 1,
        rows(p0.allocated@)[tid][sem_id] < u32::MAX,
        semaphore_down_effect(p0, p1, sem_id, tid, task_count, r),
        semaphore_up_effect(p1, p2, sem_id, tid),
    ensures
        r == 0,
        same_counters(p0, p2),
{
    assert(p2.work@ =~= p0.work@);
    let a0 = rows(p0.allocated@);
    assert(rows(p2.allocated@)[tid] =~= a0[tid]);
    assert(rows(p2.allocated@) =~= a0);
    assert(rows(p1.need@)[tid] =~= rows(p0.need@)[tid]);
    assert(rows(p2.need@) =~= rows(p0.need@));
}

/// With detection on, a lock that is granted (a unit is available),
/// followed by an unlock of the same mutex by the same thread, leaves every
/// counter as it was.
pub proof fn lemma_lock_then_unlock_restores(
    p0: &ProcessSync,
    p1: &ProcessSync,
    p2: &ProcessSync,
    mutex_id: int,
    tid: int,
    r: isize,
)
    requires
        p0.deadlock_detect,
        0 <= mutex_id < p0.work@.len(),
        p0.work@[mutex_id] >= 1,
        0 <= tid < rows(p0.allocated@).len(),
        mutex_id < rows(p0.allocated@)[tid].len(),
        rows(p0.allocated@)[tid][mutex_id] < u32::MAX,
        mutex_lock_effect(p0, p1, mutex_id, tid, r),
        mutex_unlock_effect(p1, p2, mutex_id, tid),
    ensures
        r == 0,
        same_counters(p0, p2),
{
    assert(p2.work@ =~= p0.work@);
    let a0 = rows(p0.allocated@);
    assert(rows(p2.allocated@)[tid] =~= a0[tid]);
    assert(rows(p2.allocated@) =~= a0);
}

/// With detection on, a down that cannot be granted at once succeeds (0)
/// exactly when some thread numbered from 1 below `task_count`, other than
/// the caller, has not finished and every resource it still needs is
/// covered by the available units; otherwise it is refused with `DEADLOCK`.
pub proof fn lemma_down_refused_unless_another_can_finish(
    a: &ProcessSync,
    b: &ProcessSync,
    sem_id: int,
    tid: int,
    task_count: int,
    r: isize,
)
    requires
        a.deadlock_detect,
        0 <= sem_id < a.work@.len(),
        0 <= tid < rows(a.need@).len(),
        sem_id < rows(a.need@)[tid].len(),
        a.work@[sem_id] <= rows(a.need@)[tid][sem_id],
        semaphore_down_effect(a, b, sem_id, tid, task_count, r),
    ensures
        r == 0 || r == DEADLOCK,
        r == 0 <==> exists|td: int|
            #![trigger a.finish@[td]]
            1 <= td < task_count && td != tid && 0 <= td < a.finish@.len() && !a.finish@[td]
                && td < rows(a.need@).len() && a.work@.len() <= rows(a.need@)[td].len()
                && forall|k: int| 0 <= k < a.work@.len() ==> #[trigger] rows(a.need@)[td][k] <= a.work@[k],
        b.work@ == a.work@,
        rows(b.allocated@) == rows(a.allocated@),
{
    let w = a.work@;
    let n = rows(a.need@);
    assert forall|td: int| 0 <= td < n.len() implies #[trigger] needs_met(w, n[td]) == (w.len()
        <= n[td].len() && forall|k: int| 0 <= k < w.len() ==> #[trigger] n[td][k] <= w[k]) by {
        if needs_met(w, n[td]) && w.len() > 0 {
            assert(n[td][w.len() - 1] <= w[w.len() - 1]);
        }
    }
    if r == 0 {
        let td = choose|td: int| 1 <= td < task_count && #[trigger] can_run(w, n, a.finish@, tid, td);
        assert(can_run(w, n, a.finish@, tid, td));
        assert(needs_met(w, n[td]));
        assert(!a.finish@[td]);
    }
    assert forall|td: int|
        #![trigger a.finish@[td]]
        1 <= td < task_count && td != tid && 0 <= td < a.finish@.len() && !a.finish@[td] && td
            < n.len() && w.len() <= n[td].len() && (forall|k: int|
            0 <= k < w.len() ==> #[trigger] n[td][k] <= w[k]) implies r == 0 by {
        assert(needs_met(w, n[td]));
        assert(can_run(w, n, a.finish@, tid, td));
    }
}

/// With detection on, a lock of a mutex with no available unit is refused
/// with `DEADLOCK` and changes no counter, whichever thread asks, even one
/// that already holds the mutex.
pub proof fn lemma_lock_without_units_refused(
    a: &ProcessSync,
    b: &ProcessSync,
    mutex_id: int,
    tid: int,
    r: isize,
)
    requires
        a.deadlock_detect,
        0 <= mutex_id < a.work@.len(),
        a.work@[mutex_id] == 0,
        mutex_lock_effect(a, b, mutex_id, tid, r),
    ensures
        r == DEADLOCK,
        b.work@ == a.work@,
        rows(b.allocated@) == rows(a.allocated@),
        rows(b.need@) == rows(a.need@),
{
}

/// With detection on, when a mutex has one available unit, a first lock is
/// granted and takes the unit, and a second lock, by the same thread or any
/// other, is refused.
pub proof fn lemma_second_lock_refused(
    p0: &ProcessSync,
    p1: &ProcessSync,
    p2: &ProcessSync,
    mutex_id: int,
    tid1: int,
    tid2: int,
    r1: isize,
    r2: isize,
)
    requires
        p0.deadlock_detect,
        0 <= mutex_id < p0.work@.len(),
        p0.work@[mutex_id] == 1,
        mutex_lock_effect(p0, p1, mutex_id, tid1, r1),
        mutex_lock_effect(p1, p2, mutex_id, tid2, r2),
    ensures
        r1 == 0,
        p1.work@[mutex_id] == 0,
        r2 == DEADLOCK,
        p2.work@ == p1.work@,
{
}

/// With detection on, a down whose whole demand is available is granted:
/// the caller's demand of the semaphore, raised by one, moves from the
/// available units to what it holds, its outstanding need drops to zero,
/// and no other resource's available count changes.
pub proof fn lemma_down_grant_moves_units(
    a: &ProcessSync,
    b: &ProcessSync,
    sem_id: int,
    tid: int,
    task_count: int,
    r: isize,
)
    requires
        a.deadlock_detect,
        0 <= sem_id < a.work@.len(),
        0 <= tid < rows(a.need@).len(),
        sem_id < rows(a.need@)[tid].len(),
        tid < rows(a.allocated@).len(),
        sem_id < rows(a.allocated@)[tid].len(),
        a.work@[sem_id] > rows(a.need@)[tid][sem_id],
        rows(a.allocated@)[tid][sem_id] + rows(a.need@)[tid][sem_id] + 1 <= u32::MAX,
        semaphore_down_effect(a, b, sem_id, tid, task_count, r),
    ensures
        r == 0,
        b.work@.len() == a.work@.len(),
        b.work@[sem_id] == a.work@[sem_id] - rows(a.need@)[tid][sem_id] - 1,
        forall|j: int| 0 <= j < a.work@.len() && j != sem_id ==> #[trigger] b.work@[j] == a.work@[j],
        rows(b.allocated@)[tid][sem_id] == rows(a.allocated@)[tid][sem_id] + rows(a.need@)[tid][sem_id]
            + 1,
        rows(b.need@)[tid][sem_id] == 0,
{
}

/// With detection on, an up hands one unit that the caller held back to the
/// available count of the semaphore, and no other resource's available count
/// changes.
pub proof fn lemma_up_returns_unit(a: &ProcessSync, b: &ProcessSync, sem_id: int, tid: int)
    requires
        a.deadlock_detect,
        0 <= sem_id < a.work@.len(),
        a.work@[sem_id] < u32::MAX,
        0 <= tid < rows(a.allocated@).len(),
        sem_id < rows(a.allocated@)[tid].len(),
        rows(a.allocated@)[tid][sem_id] >= 1,
        semaphore_up_effect(a, b, sem_id, tid),
    ensures
        b.work@.len() == a.work@.len(),
        b.work@[sem_id] == a.work@[sem_id] + 1,
        forall|j: int| 0 <= j < a.work@.len() && j != sem_id ==> #[trigger] b.work@[j] == a.work@[j],
        rows(b.allocated@)[tid][sem_id] == rows(a.allocated@)[tid][sem_id] - 1,
{
}

} // verus!
