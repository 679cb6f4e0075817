use ion_monitor::history::{max_value, History};

#[test]
fn new_history_is_empty_with_unit_peaks() {
    let history = History::new(120, 4);
    assert!(history.cpu().is_empty());
    assert!(history.ram().is_empty());
    assert_eq!(history.cpu_max(), 1);
    assert_eq!(history.ram_max(), 1);
}

#[test]
fn first_push_spaces_the_whole_window() {
    let mut history = History::new(8, 4);
    history.push(30, 60);
    assert_eq!(history.cpu(), &[30, 0, 0, 0, 0, 0, 0, 0, 0, 0][..]);
    assert_eq!(history.ram(), &[60, 0, 0, 0, 0, 0, 0, 0, 0, 0][..]);
    assert_eq!(history.cpu_max(), 30);
    assert_eq!(history.ram_max(), 60);
}

#[test]
fn separators_follow_every_gap_samples() {
    let mut history = History::new(6, 2);
    for v in [1, 2, 3, 4, 5, 6, 7] {
        history.push(v, 10 * v);
    }
    assert_eq!(history.cpu(), &[2, 3, 0, 4, 5, 0, 6, 7, 0][..]);
    assert_eq!(history.ram(), &[20, 30, 0, 40, 50, 0, 60, 70, 0][..]);
    assert_eq!(history.cpu_max(), 7);
    assert_eq!(history.ram_max(), 70);
}

#[test]
fn readings_above_one_hundred_are_capped() {
    let mut history = History::new(3, 3);
    history.push(250, u64::MAX);
    assert_eq!(history.cpu(), &[100, 0, 0, 0][..]);
    assert_eq!(history.ram_max(), 100);
}

#[test]
fn zero_gap_counts_as_one() {
    let mut history = History::new(3, 0);
    history.push(9, 8);
    assert_eq!(history.cpu(), &[9, 0, 0, 0, 0, 0][..]);
}

#[test]
fn all_zero_window_scales_to_one() {
    let mut history = History::new(4, 4);
    history.push(0, 0);
    assert_eq!(history.cpu_max(), 1);
    assert_eq!(history.ram_max(), 1);
}

#[test]
fn series_length_is_window_plus_separators() {
    for (size, gap) in [(120usize, 4usize), (7, 3), (1, 1), (0, 5), (10, 20)] {
        let mut history = History::new(size, gap);
        history.push(50, 50);
        assert_eq!(history.cpu().len(), size + size / gap.max(1));
        assert!(history.cpu().iter().all(|v| *v <= history.cpu_max()));
    }
}

#[test]
fn max_value_of_values() {
    assert_eq!(max_value(&[]), 1);
    assert_eq!(max_value(&[0, 0]), 0);
    assert_eq!(max_value(&[3, 9, 2]), 9);
    assert_eq!(max_value(&[u64::MAX, 4]), u64::MAX);
}

#[test]
fn zero_gap_matches_gap_one_after_pushes() {
    let mut a = History::new(5, 0);
    let mut b = History::new(5, 1);
    for (c, r) in [(10, 20), (130, 5), (7, 99), (0, 0), (55, 66), (1, 2)] {
        a.push(c, r);
        b.push(c, r);
        assert_eq!(a.cpu(), b.cpu());
        assert_eq!(a.ram(), b.ram());
        assert_eq!(a.cpu_max(), b.cpu_max());
        assert_eq!(a.ram_max(), b.ram_max());
    }
}

#[test]
fn full_history_is_a_sliding_window() {
    let mut a = History::new(3, 2);
    let mut b = History::new(3, 2);
    for (c, r) in [(90, 91), (80, 81), (5, 6), (7, 8), (9, 10)] {
        a.push(c, r);
    }
    for (c, r) in [(1, 1), (5, 6), (7, 8), (9, 10)] {
        b.push(c, r);
    }
    assert_eq!(a.cpu(), b.cpu());
    assert_eq!(a.ram(), b.ram());
    assert_eq!(a.cpu_max(), 9);
    assert_eq!(b.cpu_max(), 9);
    assert_eq!(a.ram_max(), b.ram_max());
}

#[test]
fn ram_series_ignores_cpu_readings() {
    let mut a = History::new(4, 2);
    let mut b = History::new(4, 2);
    for (i, r) in [3u64, 40, 17].iter().enumerate() {
        a.push(i as u64 * 30, *r);
        b.push(99 - i as u64, *r);
    }
    assert_eq!(a.ram(), b.ram());
    assert_eq!(a.ram_max(), b.ram_max());
    assert_ne!(a.cpu(), b.cpu());
}

#[test]
fn scales_stay_between_one_and_one_hundred() {
    let mut h = History::new(6, 3);
    for v in [0u64, 500, 12, u64::MAX, 100, 3, 0, 0] {
        h.push(v, v / 2);
        assert!((1..=100).contains(&h.cpu_max()));
        assert!((1..=100).contains(&h.ram_max()));
    }
}
