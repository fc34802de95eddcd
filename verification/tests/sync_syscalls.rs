use os::sync::{
    thread_exit,
    semaphore_down_allowed,
    sys_condvar_create, sys_condvar_signal, sys_condvar_wait, sys_enable_deadlock_detect,
    sys_mutex_create, sys_mutex_lock, sys_mutex_unlock, sys_semaphore_create, sys_semaphore_down,
    sys_semaphore_up, sys_sleep, MutexKind, ProcessSync, DEADLOCK,
};

fn detecting() -> ProcessSync {
    let mut p = ProcessSync::new();
    assert_eq!(sys_enable_deadlock_detect(&mut p, 1), 0);
    p
}

#[test]
fn new_process_has_ten_by_ten_counters() {
    let p = ProcessSync::new();
    assert!(!p.deadlock_detect);
    assert!(p.work.is_empty());
    assert_eq!(p.allocated, vec![vec![0u32; 10]; 10]);
    assert_eq!(p.need, vec![vec![0u32; 10]; 10]);
    assert_eq!(p.finish, vec![false; 10]);
}

#[test]
fn sleep_deadline() {
    assert_eq!(sys_sleep(1000, 250), 1250);
}

#[test]
fn deadlock_value() {
    assert_eq!(DEADLOCK, -57005);
}

#[test]
fn enable_deadlock_detect_only_on_one() {
    let mut p = ProcessSync::new();
    assert_eq!(sys_enable_deadlock_detect(&mut p, 1), 0);
    assert!(p.deadlock_detect);
    assert_eq!(sys_enable_deadlock_detect(&mut p, 2), 0);
    assert!(!p.deadlock_detect);
    sys_enable_deadlock_detect(&mut p, 1);
    sys_enable_deadlock_detect(&mut p, 0);
    assert!(!p.deadlock_detect);
}

#[test]
fn mutex_create_fills_first_free_slot() {
    let mut p = ProcessSync::new();
    assert_eq!(sys_mutex_create(&mut p, false), 0);
    assert_eq!(sys_mutex_create(&mut p, true), 1);
    assert_eq!(p.mutex_list, vec![Some(MutexKind::Spin), Some(MutexKind::Blocking)]);
    p.mutex_list[0] = None;
    assert_eq!(sys_mutex_create(&mut p, true), 0);
    assert_eq!(p.mutex_list, vec![Some(MutexKind::Blocking), Some(MutexKind::Blocking)]);
    assert!(p.work.is_empty());
}

#[test]
fn mutex_create_adds_one_unit_when_detecting() {
    let mut p = detecting();
    assert_eq!(sys_mutex_create(&mut p, true), 0);
    assert_eq!(sys_mutex_create(&mut p, true), 1);
    assert_eq!(p.work, vec![1, 1]);
    // A reused slot still appends its unit.
    p.mutex_list[0] = None;
    assert_eq!(sys_mutex_create(&mut p, false), 0);
    assert_eq!(p.work, vec![1, 1, 1]);
}

#[test]
fn mutex_create_after_a_semaphore_appends() {
    let mut p = ProcessSync::new();
    sys_semaphore_create(&mut p, 2);
    sys_enable_deadlock_detect(&mut p, 1);
    assert_eq!(sys_mutex_create(&mut p, true), 0);
    assert_eq!(p.work, vec![2, 1]);
}

#[test]
fn mutex_lock_beyond_the_allocation_table_is_granted() {
    let mut p = detecting();
    for _ in 0..11 {
        sys_mutex_create(&mut p, true);
    }
    assert_eq!(sys_mutex_lock(&mut p, 10, 1), 0);
    assert_eq!(p.work[10], 0);
    assert_eq!(p.allocated, vec![vec![0u32; 10]; 10]);
    assert_eq!(sys_mutex_lock(&mut p, 10, 1), DEADLOCK);
}

#[test]
fn mutex_lock_without_detection_proceeds() {
    let mut p = ProcessSync::new();
    sys_mutex_create(&mut p, true);
    assert_eq!(sys_mutex_lock(&mut p, 0, 1), 0);
    assert_eq!(sys_mutex_lock(&mut p, 0, 1), 0);
    assert!(p.work.is_empty());
}

#[test]
fn mutex_second_lock_is_refused_when_detecting() {
    let mut p = detecting();
    sys_mutex_create(&mut p, true);
    assert_eq!(sys_mutex_lock(&mut p, 0, 1), 0);
    assert_eq!(p.work, vec![0]);
    assert_eq!(p.allocated[1][0], 1);
    assert_eq!(sys_mutex_lock(&mut p, 0, 2), DEADLOCK);
    assert_eq!(p.work, vec![0]);
    assert_eq!(p.allocated[2][0], 0);
}

#[test]
fn mutex_unlock_gives_the_unit_back_when_detecting() {
    let mut p = detecting();
    sys_mutex_create(&mut p, false);
    assert_eq!(sys_mutex_lock(&mut p, 0, 1), 0);
    assert_eq!(sys_mutex_unlock(&mut p, 0, 1), 0);
    assert_eq!(p.work, vec![1]);
    assert_eq!(p.allocated, vec![vec![0u32; 10]; 10]);
    assert_eq!(sys_mutex_lock(&mut p, 0, 2), 0);
}

#[test]
fn mutex_unlock_without_detection_changes_nothing() {
    let mut p = ProcessSync::new();
    sys_mutex_create(&mut p, false);
    assert_eq!(sys_mutex_unlock(&mut p, 0, 3), 0);
    assert!(p.work.is_empty());
    assert_eq!(p.allocated, vec![vec![0u32; 10]; 10]);
}

#[test]
fn semaphore_create_records_count() {
    let mut p = ProcessSync::new();
    assert_eq!(sys_semaphore_create(&mut p, 3), 0);
    assert_eq!(sys_semaphore_create(&mut p, 5), 1);
    assert_eq!(p.semaphore_list, vec![Some(3), Some(5)]);
    assert_eq!(p.work, vec![3, 5]);
    p.semaphore_list[0] = None;
    assert_eq!(sys_semaphore_create(&mut p, 2), 0);
    assert_eq!(p.semaphore_list, vec![Some(2), Some(5)]);
    assert_eq!(p.work, vec![2, 5]);
}

#[test]
fn semaphore_down_grants_available_units() {
    let mut p = detecting();
    sys_semaphore_create(&mut p, 2);
    assert_eq!(sys_semaphore_down(&mut p, 0, 1, 3), 0);
    assert_eq!(p.work, vec![1]);
    assert_eq!(p.allocated[1][0], 1);
    assert_eq!(p.need[1][0], 0);
    assert_eq!(sys_semaphore_down(&mut p, 0, 2, 3), 0);
    assert_eq!(p.work, vec![0]);
    assert_eq!(p.allocated[2][0], 1);
}

#[test]
fn semaphore_down_refused_when_no_thread_can_finish() {
    let mut p = detecting();
    sys_semaphore_create(&mut p, 1);
    assert_eq!(sys_semaphore_down(&mut p, 0, 1, 2), 0);
    assert_eq!(sys_semaphore_down(&mut p, 0, 1, 2), DEADLOCK);
    assert_eq!(p.work, vec![0]);
    assert_eq!(p.allocated[1][0], 1);
    assert_eq!(p.need[1][0], 1);
}

#[test]
fn semaphore_down_waits_when_another_thread_can_finish() {
    let mut p = detecting();
    sys_semaphore_create(&mut p, 1);
    assert_eq!(sys_semaphore_down(&mut p, 0, 1, 3), 0);
    // Thread 2 needs nothing more, so thread 1 may wait.
    assert_eq!(sys_semaphore_down(&mut p, 0, 1, 3), 0);
    assert_eq!(p.work, vec![0]);
    assert_eq!(p.need[1][0], 1);
}

#[test]
fn semaphore_down_skips_finished_and_needy_threads() {
    let mut p = detecting();
    sys_semaphore_create(&mut p, 1);
    sys_semaphore_down(&mut p, 0, 1, 4);
    p.finish[2] = true;
    p.need[3][0] = 1;
    assert_eq!(sys_semaphore_down(&mut p, 0, 1, 4), DEADLOCK);
    p.finish[2] = false;
    assert_eq!(sys_semaphore_down(&mut p, 0, 1, 4), 0);
    assert_eq!(p.need[1][0], 2);
}

#[test]
fn semaphore_down_ignores_thread_zero() {
    let mut p = detecting();
    sys_semaphore_create(&mut p, 0);
    // Only thread 0 besides the caller: it is never considered.
    assert_eq!(sys_semaphore_down(&mut p, 0, 1, 2), DEADLOCK);
}

#[test]
fn semaphore_up_returns_a_unit() {
    let mut p = detecting();
    sys_semaphore_create(&mut p, 1);
    sys_semaphore_down(&mut p, 0, 1, 2);
    assert_eq!(sys_semaphore_up(&mut p, 0, 1), 0);
    assert_eq!(p.work, vec![1]);
    assert_eq!(p.allocated[1][0], 0);
}

#[test]
fn semaphore_without_detection_only_proceeds() {
    let mut p = ProcessSync::new();
    sys_semaphore_create(&mut p, 0);
    assert_eq!(sys_semaphore_down(&mut p, 0, 1, 2), 0);
    assert_eq!(sys_semaphore_up(&mut p, 0, 1), 0);
    assert_eq!(p.work, vec![0]);
    assert_eq!(p.need, vec![vec![0u32; 10]; 10]);
}

#[test]
fn semaphore_operations_conserve_units() {
    let mut p = detecting();
    sys_semaphore_create(&mut p, 3);
    let total = |p: &ProcessSync| p.work[0] + p.allocated.iter().map(|r| r[0]).sum::<u32>();
    assert_eq!(total(&p), 3);
    sys_semaphore_down(&mut p, 0, 1, 3);
    sys_semaphore_down(&mut p, 0, 2, 3);
    assert_eq!(total(&p), 3);
    sys_semaphore_up(&mut p, 0, 1);
    assert_eq!(total(&p), 3);
}

#[test]
fn condvar_create_fills_first_free_slot() {
    let mut p = ProcessSync::new();
    assert_eq!(sys_condvar_create(&mut p), 0);
    assert_eq!(sys_condvar_create(&mut p), 1);
    p.condvar_list[0] = false;
    assert_eq!(sys_condvar_create(&mut p), 0);
    assert_eq!(p.condvar_list, vec![true, true]);
}

#[test]
fn condvar_signal_and_wait_return_zero() {
    let mut p = ProcessSync::new();
    sys_condvar_create(&mut p);
    sys_mutex_create(&mut p, true);
    assert_eq!(sys_condvar_signal(&p, 0), 0);
    assert_eq!(sys_condvar_wait(&p, 0, 0), 0);
}

#[test]
fn semaphore_down_then_up_restores_counters() {
    let mut p = detecting();
    sys_semaphore_create(&mut p, 2);
    let (work, allocated, need) = (p.work.clone(), p.allocated.clone(), p.need.clone());
    assert_eq!(sys_semaphore_down(&mut p, 0, 3, 5), 0);
    assert_eq!(sys_semaphore_up(&mut p, 0, 3), 0);
    assert_eq!(p.work, work);
    assert_eq!(p.allocated, allocated);
    assert_eq!(p.need, need);
}

#[test]
fn semaphore_down_allowed_checks_tables() {
    let mut p = detecting();
    assert!(!semaphore_down_allowed(&p, 0, 1, 2));
    sys_semaphore_create(&mut p, 1);
    assert!(semaphore_down_allowed(&p, 0, 1, 2));
    assert!(!semaphore_down_allowed(&p, 0, 10, 2));
    // Once the unit is taken, a down scans the threads; thread 10 has no
    // `finish` entry, and is reached when threads 2 to 9 have finished.
    sys_semaphore_down(&mut p, 0, 1, 2);
    for t in 2..10 {
        p.finish[t] = true;
    }
    assert!(!semaphore_down_allowed(&p, 0, 1, 21));
    // The scan stops at the first thread that can run, before thread 10.
    assert!(semaphore_down_allowed(&p, 0, 2, 21));
    sys_enable_deadlock_detect(&mut p, 0);
    assert!(semaphore_down_allowed(&p, 0, 10, 21));
}

#[test]
fn thread_exit_marks_finished() {
    let mut p = ProcessSync::new();
    thread_exit(&mut p, 3);
    assert!(p.finish[3]);
    assert_eq!(p.finish.iter().filter(|f| **f).count(), 1);
}

#[test]
fn exited_thread_no_longer_counts_for_a_down() {
    let mut p = detecting();
    sys_semaphore_create(&mut p, 1);
    assert_eq!(sys_semaphore_down(&mut p, 0, 1, 3), 0);
    thread_exit(&mut p, 2);
    assert_eq!(sys_semaphore_down(&mut p, 0, 1, 3), DEADLOCK);
}

#[test]
fn mutex_lock_and_unlock_conserve_units() {
    let mut p = detecting();
    sys_mutex_create(&mut p, true);
    let total = |p: &ProcessSync| p.work[0] + p.allocated.iter().map(|r| r[0]).sum::<u32>();
    sys_mutex_lock(&mut p, 0, 4);
    assert_eq!(total(&p), 1);
    sys_mutex_lock(&mut p, 0, 5);
    assert_eq!(total(&p), 1);
    sys_mutex_unlock(&mut p, 0, 4);
    assert_eq!(total(&p), 1);
}
