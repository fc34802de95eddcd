use os::manager::TaskManager;
use os::stride::{Stride, BIG_STRIDE};

#[test]
fn stride_starts_at_zero() {
    let s = Stride::new();
    assert_eq!(s.get_stride(), 0);
}

#[test]
fn stride_update_adds_pass() {
    let mut s = Stride::new();
    s.update(10);
    assert_eq!(s.get_stride(), 10);
    s.update(BIG_STRIDE / 2);
    assert_eq!(s.get_stride(), 10 + 0x7f_8000);
}

#[test]
fn big_stride_value() {
    assert_eq!(BIG_STRIDE, 0xff_0000);
}

#[test]
fn fetch_from_empty_queue_is_none() {
    let mut m: TaskManager<u32> = TaskManager::new();
    assert_eq!(m.fetch(|_t: &u32| 0), None);
}

#[test]
fn fetch_takes_smallest_stride() {
    let mut m: TaskManager<(u32, usize)> = TaskManager::new();
    m.add((1, 30));
    m.add((2, 10));
    m.add((3, 20));
    assert_eq!(m.fetch(|t: &(u32, usize)| t.1), Some((2, 10)));
    assert_eq!(m.fetch(|t: &(u32, usize)| t.1), Some((3, 20)));
    assert_eq!(m.fetch(|t: &(u32, usize)| t.1), Some((1, 30)));
    assert_eq!(m.fetch(|t: &(u32, usize)| t.1), None);
}

#[test]
fn fetch_prefers_earliest_among_equal_strides() {
    let mut m: TaskManager<(u32, usize)> = TaskManager::new();
    m.add((1, 50));
    m.add((2, 5));
    m.add((3, 5));
    assert_eq!(m.fetch(|t: &(u32, usize)| t.1), Some((2, 5)));
    assert_eq!(m.fetch(|t: &(u32, usize)| t.1), Some((3, 5)));
}

#[test]
fn fetch_is_first_in_first_out_among_equal_strides() {
    let mut m: TaskManager<u32> = TaskManager::new();
    for t in 1..=5u32 {
        m.add(t);
    }
    for t in 1..=5u32 {
        assert_eq!(m.fetch(|_t: &u32| 16), Some(t));
    }
    assert_eq!(m.fetch(|_t: &u32| 16), None);
}

#[test]
fn fetch_with_all_strides_at_max_takes_first() {
    let mut m: TaskManager<u32> = TaskManager::new();
    m.add(7);
    m.add(8);
    assert_eq!(m.fetch(|_t: &u32| usize::MAX), Some(7));
    assert_eq!(m.fetch(|_t: &u32| usize::MAX), Some(8));
}

#[test]
fn stride_spread_stays_within_half_big_stride() {
    // Priorities of at least 2: passes of at most BIG_STRIDE / 2.
    let priorities = [2usize, 3, 5];
    let mut m: TaskManager<(usize, Stride)> = TaskManager::new();
    for (i, _) in priorities.iter().enumerate() {
        m.add((i, Stride::new()));
    }
    for _round in 0..200 {
        let (i, mut s) = m.fetch(|t: &(usize, Stride)| t.1.get_stride()).unwrap();
        s.update(BIG_STRIDE / priorities[i]);
        m.add((i, s));
        let mut strides = Vec::new();
        let mut rest = Vec::new();
        while let Some(t) = m.fetch(|t: &(usize, Stride)| t.0) {
            strides.push(t.1.get_stride());
            rest.push(t);
        }
        for t in rest {
            m.add(t);
        }
        let max = *strides.iter().max().unwrap();
        let min = *strides.iter().min().unwrap();
        assert!(max - min <= BIG_STRIDE / 2);
    }
}
