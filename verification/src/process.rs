//! Process-management syscalls: time conversion, task statistics, and the
//! argument handling of `mmap`, `munmap` and `sbrk`.
//!
//! The page-table queries and updates belong to the kernel's memory manager;
//! the queries come in as closures, and the updates go out as the outcome
//! that the caller carries out.
use vstd::prelude::*;

verus! {

/// Size of a page in bytes.
pub const PAGE_SIZE: usize = 4096;

/// Number of syscall ids whose use is counted per task.
pub const MAX_SYSCALL_NUM: usize = 500;

/// Microseconds per second.
pub const MICROS_PER_SEC: usize = 1_000_000;

/// A time of day as seconds and microseconds.
#[derive(Clone, Copy, Debug)]
pub struct TimeVal {
    /// Whole seconds.
    pub sec: usize,
    /// Microseconds past `sec`.
    pub usec: usize,
}

/// Where a task is in its life cycle.
#[derive(PartialEq, Eq, Structural, Clone, Copy, Debug)]
pub enum TaskStatus {
    /// Not yet set up.
    UnInit,
    /// Waiting to run.
    Ready,
    /// Running.
    Running,
    /// Finished.
    Exited,
}

/// What `sys_task_info` reports about the current task.
pub struct TaskInfo {
    /// Where the task is in its life cycle.
    pub status: TaskStatus,
    /// How often the task has made each syscall.
    pub syscall_times: [u32; MAX_SYSCALL_NUM],
    /// How long the task has been running, in milliseconds.
    pub time: usize,
}

/// The time of day `us` microseconds after the epoch.
pub fn sys_get_time(us: usize) -> (tv: TimeVal)
    ensures
        tv.sec == us / MICROS_PER_SEC,
        tv.usec == us % MICROS_PER_SEC,
        tv.sec * MICROS_PER_SEC + tv.usec == us,
        tv.usec < MICROS_PER_SEC,
{
    TimeVal { sec: us / MICROS_PER_SEC, usec: us % MICROS_PER_SEC }
}

/// The information of the running task, given its syscall counts, the time
/// it first ran and the time now (both in microseconds): its running time is
/// the time since its first run, in whole milliseconds.
pub fn sys_task_info(
    syscall_times: [u32; MAX_SYSCALL_NUM],
    first_time: usize,
    now: usize,
) -> (ti: TaskInfo)
    requires
        now >= first_time,
    ensures
        ti.status == TaskStatus::Running,
        ti.syscall_times@ == syscall_times@,
        ti.time == (now - first_time) / 1000,
{
    let time = (now - first_time) / 1000;
    TaskInfo { status: TaskStatus::Running, syscall_times, time }
}

/// Access rights of a mapped area.
#[derive(PartialEq, Eq, Structural, Clone, Copy, Debug)]
pub struct MapPermission {
    /// Readable.
    pub read: bool,
    /// Writable.
    pub write: bool,
    /// Executable.
    pub execute: bool,
    /// Accessible from user mode.
    pub user: bool,
}

/// An area `[start_va, end_va)` to map with `perm`.
#[derive(PartialEq, Eq, Structural, Clone, Copy, Debug)]
pub struct MapArea {
    /// First address of the area.
    pub start_va: usize,
    /// Address just past the area.
    pub end_va: usize,
    /// Access rights.
    pub perm: MapPermission,
}

/// What `sys_mmap` decides.
#[derive(PartialEq, Eq, Structural, Clone, Copy, Debug)]
pub enum MmapOutcome {
    /// The request is refused; the syscall returns -1.
    Rejected,
    /// The area is to be mapped; the syscall returns 0.
    Mapped(MapArea),
}

impl MmapOutcome {
    /// The syscall's return value for this outcome.
    pub fn code(&self) -> (r: isize)
        ensures
            r == (if *self is Rejected { -1isize } else { 0isize }),
    {
        match self {
            MmapOutcome::Rejected => -1,
            MmapOutcome::Mapped(_) => 0,
        }
    }
}

/// The rights that an `mmap` protection `port` asks for: bit 0 read, bit 1
/// write, bit 2 execute; user access always.
pub open spec fn port_permission(port: usize) -> MapPermission {
    MapPermission {
        read: port % 2 == 1,
        write: (port / 2) % 2 == 1,
        execute: (port / 4) % 2 == 1,
        user: true,
    }
}

/// An `mmap` request is well formed: page-aligned start, and a protection
/// that asks for some of read, write and execute and for nothing else.
pub open spec fn mmap_args_valid(start: usize, port: usize) -> bool {
    &&& start % PAGE_SIZE == 0
    &&& 1 <= port <= 7
}

/// What `sys_mmap(start, len, port)` decides, `range_mapped` being the
/// page-table query: a malformed request is rejected without asking; a
/// well-formed one is rejected when the range is reported mapped, and
/// otherwise `[start, start + len)` is mapped with the rights of `port`.
pub open spec fn mmap_effect<F: Fn(usize, usize) -> bool>(
    start: usize,
    len: usize,
    port: usize,
    range_mapped: F,
    out: MmapOutcome,
) -> bool {
    &&& !mmap_args_valid(start, port) ==> out is Rejected
    &&& mmap_args_valid(start, port) && out is Rejected ==> call_ensures(
        range_mapped,
        (start / PAGE_SIZE, ((start + len) as usize) / PAGE_SIZE),
        true,
    )
    &&& mmap_args_valid(start, port) && !(out is Rejected) ==> call_ensures(
        range_mapped,
        (start / PAGE_SIZE, ((start + len) as usize) / PAGE_SIZE),
        false,
    ) && out == MmapOutcome::Mapped(
        (MapArea { start_va: start, end_va: (start + len) as usize, perm: port_permission(port) }),
    )
}

/// An area is mapped only for a page-aligned start and a protection from 1
/// to 7, when the page-table query reported the range free; the area is
/// `[start, start + len)`, readable exactly when bit 0 of `port` is set,
/// writable exactly when bit 1 is, executable exactly when bit 2 is, and
/// always open to user mode.
pub proof fn lemma_mmap_maps_what_was_asked<F: Fn(usize, usize) -> bool>(
    start: usize,
    len: usize,
    port: usize,
    range_mapped: F,
    out: MmapOutcome,
)
    requires
        start + len <= usize::MAX,
        mmap_effect(start, len, port, range_mapped, out),
    ensures
        start % 4096 != 0 || port == 0 || port > 7 ==> out is Rejected,
        out is Mapped ==> {
            &&& start % 4096 == 0
            &&& 1 <= port <= 7
            &&& call_ensures(range_mapped, (start / 4096, ((start + len) as usize) / 4096), false)
            &&& out->0.start_va == start
            &&& out->0.end_va == start + len
            &&& out->0.perm.read == (port & 1 != 0)
            &&& out->0.perm.write == (port & 2 != 0)
            &&& out->0.perm.execute == (port & 4 != 0)
            &&& out->0.perm.user
        },
{
    assert((port & 1usize != 0usize) <==> port % 2 == 1) by (bit_vector);
    assert((port & 2usize != 0usize) <==> (port / 2) % 2 == 1) by (bit_vector);
    assert((port & 4usize != 0usize) <==> (port / 4) % 2 == 1) by (bit_vector);
}

/// Decides `mmap(start, len, port)`. `range_mapped(first_vpn, end_vpn)`
/// tells whether any page of the range is already mapped; it is asked only
/// for a well-formed request, with `start / PAGE_SIZE` and
/// `(start + len) / PAGE_SIZE`.
pub fn sys_mmap(
    start: usize,
    len: usize,
    port: usize,
    range_mapped: impl Fn(usize, usize) -> bool,
) -> (out: MmapOutcome)
    requires
        start + len <= usize::MAX,
        call_requires(range_mapped, (start / PAGE_SIZE, ((start + len) as usize) / PAGE_SIZE)),
    ensures
        mmap_effect(start, len, port, range_mapped, out),
{
    let start_va = start;
    let end_va = start + len;
    assert((port & !0x7usize) != 0 <==> port > 7) by (bit_vector);
    assert(port <= 7 ==> ((port & 0x7usize) == 0 <==> port == 0)) by (bit_vector);
    if start % PAGE_SIZE != 0 {
        MmapOutcome::Rejected
    } else if port & !0x7 != 0 {
        MmapOutcome::Rejected
    } else if port & 0x7 == 0 {
        MmapOutcome::Rejected
    } else if range_mapped(start_va / PAGE_SIZE, end_va / PAGE_SIZE) {
        MmapOutcome::Rejected
    } else {
        assert((port & 1usize == 1usize) <==> port % 2 == 1) by (bit_vector);
        assert((port & 2usize == 2usize) <==> (port / 2) % 2 == 1) by (bit_vector);
        assert((port & 4usize == 4usize) <==> (port / 4) % 2 == 1) by (bit_vector);
        let mut perm = MapPermission { read: false, write: false, execute: false, user: true };
        if port & 1 == 1 {
            perm.read = true;
        }
        if port & 2 == 2 {
            perm.write = true;
        }
        if port & 4 == 4 {
            perm.execute = true;
        }
        MmapOutcome::Mapped(MapArea { start_va, end_va, perm })
    }
}

/// What `sys_munmap` decides.
#[derive(PartialEq, Eq, Structural, Clone, Copy, Debug)]
pub enum MunmapOutcome {
    /// Some page of the range is not mapped; the syscall returns -1.
    Rejected,
    /// The addresses `[start_va, end_va]` are to be unmapped; the syscall
    /// returns 0.
    Unmap {
        /// First address.
        start_va: usize,
        /// Last address, included.
        end_va: usize,
    },
}

impl MunmapOutcome {
    /// The syscall's return value for this outcome.
    pub fn code(&self) -> (r: isize)
        ensures
            r == (if *self is Rejected { -1isize } else { 0isize }),
    {
        match self {
            MunmapOutcome::Rejected => -1,
            MunmapOutcome::Unmap { .. } => 0,
        }
    }
}

/// The first page that `munmap(start, len)` checks.
pub open spec fn munmap_first_vpn(start: usize) -> int {
    start as int / PAGE_SIZE as int
}

/// The last page that `munmap(start, len)` checks: the last address
/// `start + len - 1`, rounded up to a page.
pub open spec fn munmap_last_vpn(start: usize, len: usize) -> int {
    (start + len - 1 + PAGE_SIZE - 1) / (PAGE_SIZE as int)
}

/// What `sys_munmap(start, len)` decides, `page_mapped` being the
/// page-table query: rejected when some page from `munmap_first_vpn` to
/// `munmap_last_vpn` is reported unmapped, and otherwise the addresses from
/// `start` to `start + len - 1` are unmapped, every one of those pages having
/// been reported mapped.
pub open spec fn munmap_effect<F: Fn(usize) -> bool>(
    start: usize,
    len: usize,
    page_mapped: F,
    out: MunmapOutcome,
) -> bool {
    &&& out is Rejected ==> (exists|vpn: usize|
        munmap_first_vpn(start) <= vpn <= munmap_last_vpn(start, len)
            && #[trigger] call_ensures(page_mapped, (vpn,), false))
    &&& !(out is Rejected) ==> (out == (MunmapOutcome::Unmap {
        start_va: start,
        end_va: (start + len - 1) as usize,
    }))
    &&& !(out is Rejected) ==> (forall|vpn: usize|
        munmap_first_vpn(start) <= vpn <= munmap_last_vpn(start, len)
            ==> #[trigger] call_ensures(page_mapped, (vpn,), true))
}

/// The addresses `[start, start + len)` are unmapped only when every page
/// holding one of them was reported mapped; a refusal comes from a page of
/// the range, or from the one just after it, reported unmapped.
pub proof fn lemma_munmap_only_when_all_mapped<F: Fn(usize) -> bool>(
    start: usize,
    len: usize,
    page_mapped: F,
    out: MunmapOutcome,
)
    requires
        1 <= start + len,
        start + len - 1 + PAGE_SIZE <= usize::MAX,
        munmap_effect(start, len, page_mapped, out),
    ensures
        !(out is Rejected) ==> out == (MunmapOutcome::Unmap {
            start_va: start,
            end_va: (start + len - 1) as usize,
        }),
        !(out is Rejected) ==> forall|vpn: usize|
            start / 4096 <= vpn <= (start + len - 1) / 4096 ==> #[trigger] call_ensures(
                page_mapped,
                (vpn,),
                true,
            ),
        out is Rejected ==> exists|vpn: usize|
            start / 4096 <= vpn <= (start + len - 1) / 4096 + 1 && #[trigger] call_ensures(
                page_mapped,
                (vpn,),
                false,
            ),
{
    let last = start + len - 1;
    assert(last / 4096 <= (last + 4095) / 4096 <= last / 4096 + 1);
}

/// Decides `munmap(start, len)`. `page_mapped(vpn)` tells whether page
/// `vpn` is mapped; the pages from `munmap_first_vpn` to `munmap_last_vpn`
/// are asked in order until one is not.
pub fn sys_munmap(start: usize, len: usize, page_mapped: impl Fn(usize) -> bool) -> (out: MunmapOutcome)
    requires
        1 <= start + len,
        start + len - 1 + PAGE_SIZE <= usize::MAX,
        forall|vpn: usize| #[trigger] call_requires(page_mapped, (vpn,)),
    ensures
        munmap_effect(start, len, page_mapped, out),
{
    let start_va = start;
    let end_va = start + len - 1;
    let start_vpn = start_va / PAGE_SIZE;
    let end_vpn = (end_va + PAGE_SIZE - 1) / PAGE_SIZE;
    let mut vpn = start_vpn;
    while vpn <= end_vpn
        invariant
            forall|v: usize| #[trigger] call_requires(page_mapped, (v,)),
            start_vpn == munmap_first_vpn(start),
            end_vpn == munmap_last_vpn(start, len),
            end_vpn < usize::MAX,
            start_vpn <= vpn <= end_vpn + 1,
            forall|v: usize| start_vpn <= v < vpn ==> #[trigger] call_ensures(page_mapped, (v,), true),
        decreases end_vpn + 1 - vpn,
    {
        if !page_mapped(vpn) {
            return MunmapOutcome::Rejected;
        }
        vpn += 1;
    }
    MunmapOutcome::Unmap { start_va, end_va }
}

/// Decides `sbrk(size)`. `change_brk` moves the program break by `size`
/// and gives back the old break, or nothing when it cannot; the syscall
/// returns the old break, or -1.
pub fn sys_sbrk(size: i32, change_brk: impl FnOnce(i32) -> Option<usize>) -> (r: isize)
    requires
        call_requires(change_brk, (size,)),
    ensures
        exists|res: Option<usize>|
            #[trigger] call_ensures(change_brk, (size,), res) && r == match res {
                Some(old_brk) => old_brk as isize,
                None => -1isize,
            },
{
    let res = change_brk(size);
    match res {
        Some(old_brk) => old_brk as isize,
        None => -1,
    }
}

} // verus!
