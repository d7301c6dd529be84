use cardiac_monitor::signal::{DerivItr, DerivItrItem, Heartbeat, HeartbeatItr};

/// One flag per step between neighbours: whether the step is not negative.
fn signs_of(data: &[f32]) -> Vec<bool> {
    let mut signs = Vec::new();
    for i in 0..data.len().saturating_sub(1) {
        signs.push(data[i + 1] - data[i] >= 0.0);
    }
    signs
}

fn all_beats(signs: &[bool]) -> Vec<Heartbeat> {
    let mut itr = HeartbeatItr::new(signs);
    let mut beats = Vec::new();
    while let Some(hb) = itr.next() {
        beats.push(hb);
    }
    beats
}

#[test]
fn test_deriv_itr() {
    let data = [1.0, 1.0, 1.0];
    let signs = signs_of(&data);
    let mut ditr = DerivItr::new(&signs);
    let d = ditr.next();
    assert_eq!(d, Some(DerivItrItem { idx: 0, rising: true }));
    assert_eq!(data[0], 1.0);
    assert_eq!(data[1] - data[0], 0.0);
    let d = ditr.next();
    assert_eq!(d, Some(DerivItrItem { idx: 1, rising: true }));
    assert_eq!(data[1], 1.0);
    assert_eq!(data[2] - data[1], 0.0);

    let data = [1.0, 2.0, 1.0];
    let signs = signs_of(&data);
    let mut ditr = DerivItr::new(&signs);
    let d = ditr.next();
    assert_eq!(d, Some(DerivItrItem { idx: 0, rising: true }));
    assert_eq!(data[0], 1.0);
    assert_eq!(data[1] - data[0], 1.0);
    let d = ditr.next();
    assert_eq!(d, Some(DerivItrItem { idx: 1, rising: false }));
    assert_eq!(data[1], 2.0);
    assert_eq!(data[2] - data[1], -1.0);
}

#[test]
fn test_heartbeat_itr() {
    let data = [
        1.0, 2.0, 3.0, 4.0, 5.0, 4.0, 3.0, 4.0, 5.0, 6.0, 4.0, 2.0, 0.0, 1.0,
    ];
    let signs = signs_of(&data);

    let mut hbitr = HeartbeatItr::new(&signs);
    let hb = hbitr.next();
    assert_eq!(hb, Some(Heartbeat { high_idx: 3, low_idx: 6 }));
    assert_eq!(data[3], 4.0);
    assert_eq!(data[6], 3.0);

    let hb = hbitr.next();
    assert_eq!(hb, Some(Heartbeat { high_idx: 8, low_idx: 12 }));
    assert_eq!(data[8], 5.0);
    assert_eq!(data[12], 0.0);
}

#[test]
fn the_sample_window_yields_exactly_two_heartbeats() {
    let data = [
        1.0, 2.0, 3.0, 4.0, 5.0, 4.0, 3.0, 4.0, 5.0, 6.0, 4.0, 2.0, 0.0, 1.0,
    ];
    let signs = signs_of(&data);
    assert_eq!(
        all_beats(&signs),
        vec![
            Heartbeat { high_idx: 3, low_idx: 6 },
            Heartbeat { high_idx: 8, low_idx: 12 }
        ]
    );
    let mut hbitr = HeartbeatItr::new(&signs);
    assert!(hbitr.next().is_some());
    assert!(hbitr.next().is_some());
    assert_eq!(hbitr.next(), None);
    assert_eq!(hbitr.next(), None);
}

#[test]
fn deriv_itr_ends_after_the_last_sample() {
    let signs = [true, false];
    let mut ditr = DerivItr::new(&signs);
    assert_eq!(ditr.next(), Some(DerivItrItem { idx: 0, rising: true }));
    assert_eq!(ditr.next(), Some(DerivItrItem { idx: 1, rising: false }));
    assert_eq!(ditr.next(), None);
    assert_eq!(ditr.next(), None);
}

#[test]
fn no_samples_no_heartbeats() {
    let signs: [bool; 0] = [];
    assert_eq!(DerivItr::new(&signs).next(), None);
    assert_eq!(all_beats(&signs), vec![]);
    assert_eq!(all_beats(&signs_of(&[3.0])), vec![]);
    assert_eq!(all_beats(&signs_of(&[])), vec![]);
}

#[test]
fn a_flat_window_has_no_heartbeat() {
    assert_eq!(all_beats(&signs_of(&[1.0, 1.0, 1.0, 1.0, 1.0])), vec![]);
}

#[test]
fn a_rise_alone_or_a_fall_alone_has_no_heartbeat() {
    assert_eq!(all_beats(&[true, true, true, true]), vec![]);
    assert_eq!(all_beats(&[false, false, false]), vec![]);
    assert_eq!(all_beats(&[true, true, false, false]), vec![]);
}

#[test]
fn the_first_sample_cannot_be_a_high_point() {
    // A rise of one step, a fall, a rise: no step had a non-negative step
    // before it and after it, so nothing closes.
    assert_eq!(all_beats(&[true, false, true]), vec![]);
    // One step more of rise at the start gives the high point.
    assert_eq!(
        all_beats(&[true, true, false, true]),
        vec![Heartbeat { high_idx: 1, low_idx: 3 }]
    );
}

#[test]
fn a_fall_at_the_start_closes_nothing() {
    assert_eq!(all_beats(&[false, true, true, false, true]), vec![Heartbeat {
        high_idx: 2,
        low_idx: 4
    }]);
}

#[test]
fn a_short_rise_keeps_the_high_point_of_the_rise_before() {
    // Rise, fall, a rise of one step, fall, rise: the second heartbeat has
    // the high point of the first.
    let signs = [true, true, false, true, false, true];
    assert_eq!(
        all_beats(&signs),
        vec![
            Heartbeat { high_idx: 1, low_idx: 3 },
            Heartbeat { high_idx: 1, low_idx: 5 }
        ]
    );
}

#[test]
fn the_high_point_is_the_last_step_of_the_rise() {
    let signs = [true, true, true, true, false, false, false, true];
    assert_eq!(
        all_beats(&signs),
        vec![Heartbeat { high_idx: 3, low_idx: 7 }]
    );
}

#[test]
fn the_detector_gives_the_same_answer_each_time() {
    let data = [
        5.0, 6.0, 7.0, 3.0, 2.0, 4.0, 6.0, 8.0, 1.0, 2.0, 3.0, 0.0, 0.5,
    ];
    let signs = signs_of(&data);
    assert_eq!(all_beats(&signs), all_beats(&signs));
    assert_eq!(
        all_beats(&signs),
        vec![
            Heartbeat { high_idx: 1, low_idx: 4 },
            Heartbeat { high_idx: 6, low_idx: 8 },
            Heartbeat { high_idx: 9, low_idx: 11 }
        ]
    );
}

#[test]
fn heartbeat_zero_is_all_zero() {
    assert_eq!(Heartbeat::zero(), Heartbeat { high_idx: 0, low_idx: 0 });
}
