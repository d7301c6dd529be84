use cardiac_monitor::estimator::{pop_trimmed_top, run_cycle, BeatTracker};
use cardiac_monitor::signal::Heartbeat;
use heapless::binary_heap::{BinaryHeap, Max};

fn beat(high_idx: usize, low_idx: usize) -> Heartbeat {
    Heartbeat { high_idx, low_idx }
}

fn heap_of(items: &[usize]) -> BinaryHeap<usize, Max, 16> {
    let mut heap = BinaryHeap::new();
    for &d in items {
        heap.push(d).unwrap();
    }
    heap
}

/// The interval of a cycle that accepts heartbeats whose high points are
/// `highs`.
fn interval_of(highs: &[usize]) -> Option<usize> {
    let mut t = BeatTracker::new();
    for &h in highs {
        let hb = beat(h, h + 1);
        assert!(t.can_accept(hb));
        t.accept(hb);
    }
    t.finish().interval
}

#[test]
fn an_empty_cycle_has_nothing() {
    let s = BeatTracker::new().finish();
    assert_eq!(s.heartbeats.len(), 0);
    assert_eq!(s.accepted, 0);
    assert_eq!(s.interval, None);
}

#[test]
fn one_heartbeat_gives_no_interval() {
    let mut t = BeatTracker::new();
    t.accept(beat(3, 6));
    let s = t.finish();
    assert_eq!(s.heartbeats.as_slice(), &[beat(3, 6)]);
    assert_eq!(s.accepted, 1);
    assert_eq!(s.interval, None);
}

#[test]
fn two_heartbeats_give_their_distance() {
    let mut t = BeatTracker::new();
    t.accept(beat(3, 6));
    t.accept(beat(8, 12));
    let s = t.finish();
    assert_eq!(s.heartbeats.as_slice(), &[beat(3, 6), beat(8, 12)]);
    assert_eq!(s.accepted, 2);
    assert_eq!(s.interval, Some(5));
}

#[test]
fn the_interval_is_what_is_on_top_after_half_is_taken_away() {
    // distances 10
    assert_eq!(interval_of(&[0, 10]), Some(10));
    // distances 10, 30: one is taken away, 10 is left
    assert_eq!(interval_of(&[0, 10, 40]), Some(10));
    // distances 30, 10
    assert_eq!(interval_of(&[0, 30, 40]), Some(10));
    // distances 10, 30, 20: one is taken away, 20 is on top
    assert_eq!(interval_of(&[0, 10, 40, 60]), Some(20));
    // distances 10, 40, 20, 30: two are taken away, 20 is on top
    assert_eq!(interval_of(&[0, 10, 50, 70, 100]), Some(20));
    // distances 5, 1, 4, 2, 3: two are taken away, 3 is on top
    assert_eq!(interval_of(&[0, 5, 6, 10, 12, 15]), Some(3));
}

#[test]
fn a_long_gap_from_a_missed_beat_does_not_show() {
    // distances 20, 21, 60, 19, 20
    assert_eq!(interval_of(&[0, 20, 41, 101, 120, 140]), Some(20));
}

#[test]
fn equal_distances_give_that_distance() {
    assert_eq!(interval_of(&[0, 7, 14, 21, 28, 35, 42]), Some(7));
}

#[test]
fn two_heartbeats_on_one_high_point_give_distance_zero() {
    assert_eq!(interval_of(&[4, 4]), Some(0));
    // distances 0, 6, 6
    assert_eq!(interval_of(&[4, 4, 10, 16]), Some(6));
    // distances 0, 0, 6
    assert_eq!(interval_of(&[4, 4, 4, 10]), Some(0));
}

#[test]
fn only_the_first_sixteen_heartbeats_are_kept() {
    let mut t = BeatTracker::new();
    for i in 0..20usize {
        t.accept(beat(10 * i, 10 * i + 3));
    }
    let s = t.finish();
    assert_eq!(s.accepted, 20);
    assert_eq!(s.heartbeats.len(), 16);
    for i in 0..16usize {
        assert_eq!(s.heartbeats[i], beat(10 * i, 10 * i + 3));
    }
    assert_eq!(s.interval, Some(10));
}

#[test]
fn only_the_first_sixteen_distances_count() {
    // 17 heartbeats give 16 distances of 1; everything after is a distance
    // of 100 and comes too late to be kept.
    let mut highs: Vec<usize> = (0..17).collect();
    for k in 1..=10usize {
        highs.push(16 + 100 * k);
    }
    assert_eq!(interval_of(&highs), Some(1));

    // The other way round: sixteen long distances first.
    let mut highs: Vec<usize> = (0..17).map(|i| 100 * i).collect();
    for k in 1..=10usize {
        highs.push(1600 + k);
    }
    assert_eq!(interval_of(&highs), Some(100));
}

#[test]
fn sixteen_distances_are_all_kept() {
    // distances 1, 2, ..., 16: eight are taken away, 8 is on top
    let mut highs = vec![0usize];
    for d in 1..=16usize {
        let last = *highs.last().unwrap();
        highs.push(last + d);
    }
    assert_eq!(interval_of(&highs), Some(8));
}

#[test]
fn a_heartbeat_before_the_last_one_is_not_admitted() {
    let mut t = BeatTracker::new();
    assert!(t.can_accept(beat(9, 12)));
    t.accept(beat(9, 12));
    assert!(t.can_accept(beat(9, 14)));
    assert!(t.can_accept(beat(10, 14)));
    assert!(!t.can_accept(beat(8, 14)));
}

#[test]
fn pop_trimmed_top_of_given_heaps() {
    assert_eq!(pop_trimmed_top(heap_of(&[])), None);
    assert_eq!(pop_trimmed_top(heap_of(&[42])), Some(42));
    assert_eq!(pop_trimmed_top(heap_of(&[1, 2])), Some(1));
    assert_eq!(pop_trimmed_top(heap_of(&[2, 1])), Some(1));
    assert_eq!(pop_trimmed_top(heap_of(&[3, 1, 2])), Some(2));
    assert_eq!(pop_trimmed_top(heap_of(&[4, 1, 3, 2])), Some(2));
    assert_eq!(pop_trimmed_top(heap_of(&[5, 5, 1, 1])), Some(1));
    assert_eq!(pop_trimmed_top(heap_of(&[5, 5, 5, 1])), Some(5));
    assert_eq!(
        pop_trimmed_top(heap_of(&[16, 15, 14, 13, 12, 11, 10, 9, 8, 7, 6, 5, 4, 3, 2, 1])),
        Some(8)
    );
}

#[test]
fn the_same_cycle_gives_the_same_summary() {
    let highs = [0usize, 20, 41, 101, 120, 140];
    let run = || {
        let mut t = BeatTracker::new();
        for &h in highs.iter() {
            t.accept(beat(h, h + 2));
        }
        t.finish()
    };
    let a = run();
    let b = run();
    assert_eq!(a.heartbeats, b.heartbeats);
    assert_eq!(a.accepted, b.accepted);
    assert_eq!(a.interval, b.interval);
}

fn signs_of(data: &[f32]) -> Vec<bool> {
    let mut signs = Vec::new();
    for i in 0..data.len().saturating_sub(1) {
        signs.push(data[i + 1] - data[i] >= 0.0);
    }
    signs
}

#[test]
fn a_cycle_over_the_sample_window_accepts_the_deep_beat_only() {
    let data = [
        1.0f32, 2.0, 3.0, 4.0, 5.0, 4.0, 3.0, 4.0, 5.0, 6.0, 4.0, 2.0, 0.0, 1.0,
    ];
    let signs = signs_of(&data);
    // amplitudes span 0 .. 6, so a beat passes with a drop of more than 1.5
    let threshold = (6.0 - 0.0) / 4.0;
    let s = run_cycle(&signs, |hb: Heartbeat| {
        (data[hb.high_idx] - data[hb.low_idx]).abs() > threshold
    });
    assert_eq!(s.heartbeats.as_slice(), &[beat(8, 12)]);
    assert_eq!(s.accepted, 1);
    assert_eq!(s.interval, None);
}

#[test]
fn a_cycle_that_accepts_everything_keeps_every_detected_beat() {
    let data = [
        1.0f32, 2.0, 3.0, 4.0, 5.0, 4.0, 3.0, 4.0, 5.0, 6.0, 4.0, 2.0, 0.0, 1.0,
    ];
    let signs = signs_of(&data);
    let s = run_cycle(&signs, |_hb: Heartbeat| true);
    assert_eq!(s.heartbeats.as_slice(), &[beat(3, 6), beat(8, 12)]);
    assert_eq!(s.accepted, 2);
    assert_eq!(s.interval, Some(5));
}

#[test]
fn a_cycle_that_accepts_nothing_is_empty() {
    let signs = [true, true, false, true, true, false, true];
    let s = run_cycle(&signs, |_hb: Heartbeat| false);
    assert_eq!(s.heartbeats.len(), 0);
    assert_eq!(s.accepted, 0);
    assert_eq!(s.interval, None);
}

#[test]
fn a_cycle_over_no_samples_is_empty() {
    let s = run_cycle(&[], |_hb: Heartbeat| true);
    assert_eq!(s.heartbeats.len(), 0);
    assert_eq!(s.accepted, 0);
    assert_eq!(s.interval, None);
}

#[test]
fn a_cycle_asks_about_each_detected_beat_once_and_in_order() {
    let signs = [true, true, false, true, true, false, true, false, true];
    let asked = std::cell::RefCell::new(Vec::new());
    let s = run_cycle(&signs, |hb: Heartbeat| {
        asked.borrow_mut().push(hb);
        hb.low_idx != 6
    });
    assert_eq!(
        asked.into_inner(),
        vec![beat(1, 3), beat(4, 6), beat(4, 8)]
    );
    assert_eq!(s.heartbeats.as_slice(), &[beat(1, 3), beat(4, 8)]);
    assert_eq!(s.accepted, 2);
    assert_eq!(s.interval, Some(3));
}

#[test]
fn a_regular_pulse_gives_its_period() {
    // a saw with a period of 20 samples: 15 up, 5 down
    let mut data = Vec::new();
    for i in 0..160usize {
        let phase = i % 20;
        let v = if phase < 15 { phase as f32 } else { 15.0 - 3.0 * (phase - 15) as f32 };
        data.push(v);
    }
    let signs = signs_of(&data);
    let s = run_cycle(&signs, |hb: Heartbeat| {
        (data[hb.high_idx] - data[hb.low_idx]).abs() > 15.0 / 4.0
    });
    assert_eq!(s.accepted, 7);
    assert_eq!(s.heartbeats.len(), 7);
    assert_eq!(s.heartbeats[0], beat(14, 20));
    assert_eq!(s.heartbeats[6], beat(134, 140));
    assert_eq!(s.interval, Some(20));
    // sixty seconds of twenty-five samples each, over the interval
    assert_eq!(60.0 * 25.0 / s.interval.unwrap() as f32, 75.0);
}

#[test]
fn repeating_a_cycle_repeats_its_summary() {
    let data = [
        5.0f32, 6.0, 7.0, 3.0, 2.0, 4.0, 6.0, 8.0, 1.0, 2.0, 3.0, 0.0, 0.5, 2.0, 1.0, 3.0,
    ];
    let signs = signs_of(&data);
    let run = || {
        run_cycle(&signs, |hb: Heartbeat| {
            (data[hb.high_idx] - data[hb.low_idx]).abs() > 2.0
        })
    };
    let a = run();
    let b = run();
    assert_eq!(a.heartbeats, b.heartbeats);
    assert_eq!(a.accepted, b.accepted);
    assert_eq!(a.interval, b.interval);
    assert_eq!(a.heartbeats.as_slice(), &[beat(1, 4), beat(6, 8)]);
    assert_eq!(a.accepted, 2);
    assert_eq!(a.interval, Some(5));
}

#[test]
fn a_heart_rate_is_absent_or_above_zero() {
    let windows: [&[f32]; 5] = [
        &[0.0; 12],
        &[1.0, 2.0, 3.0, 1.0, 0.0, 2.0, 4.0, 6.0, 2.0, 1.0, 3.0, 5.0, 0.0, 1.0],
        &[1.0, 2.0, 3.0, 1.0, 2.0, 1.0, 2.0, 1.0, 2.0],
        &[5.0, 4.0, 3.0, 2.0, 1.0],
        &[0.0, 3.0, 6.0, 0.0, 3.0, 6.0, 9.0, 0.0, 2.0, 4.0, 6.0, 8.0, 0.0, 1.0],
    ];
    let mut with_rate = 0;
    for data in windows.iter() {
        let signs = signs_of(data);
        let s = run_cycle(&signs, |_hb: Heartbeat| true);
        assert_eq!(s.interval.is_some(), s.accepted >= 2);
        if let Some(interval) = s.interval {
            let bpm = 60.0 * 25.0 / interval as f32;
            assert!(bpm > 0.0);
            with_rate += 1;
        }
    }
    assert_eq!(with_rate, 3);
}
