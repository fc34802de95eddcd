use os::process::{
    sys_get_time, sys_mmap, sys_munmap, sys_sbrk, sys_task_info, MapArea, MapPermission,
    MmapOutcome, MunmapOutcome, TaskStatus, MAX_SYSCALL_NUM, PAGE_SIZE,
};
use std::cell::RefCell;

#[test]
fn get_time_splits_microseconds() {
    let tv = sys_get_time(3_250_001);
    assert_eq!(tv.sec, 3);
    assert_eq!(tv.usec, 250_001);
    let tv0 = sys_get_time(999_999);
    assert_eq!(tv0.sec, 0);
    assert_eq!(tv0.usec, 999_999);
}

#[test]
fn task_info_reports_running_time_in_millis() {
    let mut times = [0u32; MAX_SYSCALL_NUM];
    times[64] = 3;
    times[169] = 1;
    let ti = sys_task_info(times, 3000, 3000 + 1_500_999);
    assert!(ti.status == TaskStatus::Running);
    assert_eq!(ti.syscall_times[64], 3);
    assert_eq!(ti.syscall_times[169], 1);
    assert_eq!(ti.time, 1500);
}

#[test]
fn task_info_at_first_run_is_zero() {
    let ti = sys_task_info([0u32; MAX_SYSCALL_NUM], 3000, 3000);
    assert_eq!(ti.time, 0);
}

#[test]
fn task_info_keeps_long_running_times() {
    let times = [0u32; MAX_SYSCALL_NUM];
    let ti = sys_task_info(times, 0, 65_538 * 1_000_000 + 345_678);
    assert_eq!(ti.time, 65_538 * 1000 + 345);
}

#[test]
fn mmap_maps_with_requested_rights() {
    let out = sys_mmap(0x1000_0000, 2 * PAGE_SIZE, 0b011, |_s: usize, _e: usize| false);
    assert_eq!(
        out,
        MmapOutcome::Mapped(MapArea {
            start_va: 0x1000_0000,
            end_va: 0x1000_0000 + 2 * PAGE_SIZE,
            perm: MapPermission { read: true, write: true, execute: false, user: true },
        })
    );
    assert_eq!(out.code(), 0);
    let x = sys_mmap(0, PAGE_SIZE, 0b100, |_s: usize, _e: usize| false);
    assert_eq!(
        x,
        MmapOutcome::Mapped(MapArea {
            start_va: 0,
            end_va: PAGE_SIZE,
            perm: MapPermission { read: false, write: false, execute: true, user: true },
        })
    );
}

#[test]
fn mmap_asks_the_page_range_it_covers() {
    let asked = RefCell::new(None);
    let out = sys_mmap(3 * PAGE_SIZE, 5000, 1, |s: usize, e: usize| {
        *asked.borrow_mut() = Some((s, e));
        false
    });
    assert_eq!(out.code(), 0);
    assert_eq!(*asked.borrow(), Some((3, (3 * PAGE_SIZE + 5000) / PAGE_SIZE)));
}

#[test]
fn mmap_rejects_unaligned_start() {
    let out = sys_mmap(PAGE_SIZE + 1, PAGE_SIZE, 1, |_s: usize, _e: usize| false);
    assert_eq!(out, MmapOutcome::Rejected);
    assert_eq!(out.code(), -1);
}

#[test]
fn mmap_rejects_extra_protection_bits() {
    let out = sys_mmap(0, PAGE_SIZE, 0b1001, |_s: usize, _e: usize| false);
    assert_eq!(out.code(), -1);
}

#[test]
fn mmap_rejects_empty_protection() {
    let out = sys_mmap(0, PAGE_SIZE, 0, |_s: usize, _e: usize| false);
    assert_eq!(out.code(), -1);
}

#[test]
fn mmap_rejects_already_mapped_range() {
    let out = sys_mmap(0, PAGE_SIZE, 7, |_s: usize, _e: usize| true);
    assert_eq!(out, MmapOutcome::Rejected);
}

#[test]
fn mmap_does_not_ask_for_invalid_requests() {
    let asked = RefCell::new(false);
    let out = sys_mmap(1, PAGE_SIZE, 1, |_s: usize, _e: usize| {
        *asked.borrow_mut() = true;
        false
    });
    assert_eq!(out.code(), -1);
    assert!(!*asked.borrow());
}

#[test]
fn munmap_unmaps_when_all_pages_mapped() {
    let out = sys_munmap(2 * PAGE_SIZE, 2 * PAGE_SIZE, |_v: usize| true);
    assert_eq!(out, MunmapOutcome::Unmap { start_va: 2 * PAGE_SIZE, end_va: 4 * PAGE_SIZE - 1 });
    assert_eq!(out.code(), 0);
}

#[test]
fn munmap_checks_the_page_after_the_last_address() {
    // [0, 4096) ends in page 0, yet page 1 is checked too.
    let out = sys_munmap(0, PAGE_SIZE, |v: usize| v == 0);
    assert_eq!(out, MunmapOutcome::Rejected);
    assert_eq!(out.code(), -1);
}

#[test]
fn munmap_rejects_unmapped_page() {
    let asked = RefCell::new(Vec::new());
    let out = sys_munmap(PAGE_SIZE, 3 * PAGE_SIZE, |v: usize| {
        asked.borrow_mut().push(v);
        v != 2
    });
    assert_eq!(out, MunmapOutcome::Rejected);
    assert_eq!(*asked.borrow(), vec![1, 2]);
}

#[test]
fn sbrk_returns_old_break() {
    assert_eq!(sys_sbrk(16, |s: i32| if s == 16 { Some(0x8000) } else { None }), 0x8000);
}

#[test]
fn sbrk_fails_with_minus_one() {
    assert_eq!(sys_sbrk(-4096, |_s: i32| None), -1);
}
