use cardiac_monitor::circ::{wrap_next, Circ};

#[test]
fn test_add() {
    let mut c = Circ::<u32, 3>::new(0);
    c.add(1);
    c.add(2);
    c.add(3);

    assert_eq!(c.data, [1, 2, 3]);

    c.add(4);
    c.add(5);
    assert_eq!(c.data, [4, 5, 3]);
}

#[test]
fn test_iter() {
    let mut c = Circ::<u32, 3>::new(0);

    let all: Vec<u32> = c.iter().collect();
    assert_eq!(vec![0, 0, 0], all);

    c.add(1);
    let all: Vec<u32> = c.iter().collect();
    assert_eq!(vec![0, 0, 1], all);

    c.add(2);
    let all: Vec<u32> = c.iter().collect();
    assert_eq!(vec![0, 1, 2], all);

    c.add(3);
    c.add(4);

    let all: Vec<u32> = c.iter().collect();
    assert_eq!(vec![2, 3, 4], all);
}

#[test]
fn wrap_next_steps_and_wraps() {
    assert_eq!(wrap_next::<3>(0), 1);
    assert_eq!(wrap_next::<3>(1), 2);
    assert_eq!(wrap_next::<3>(2), 0);
    assert_eq!(wrap_next::<1>(0), 0);
    assert_eq!(wrap_next::<3>(7), 0);
    assert_eq!(wrap_next::<0>(0), 0);
    assert_eq!(wrap_next::<3>(usize::MAX), 0);
}

#[test]
fn new_buffer_holds_the_initial_value() {
    let c = Circ::<i16, 4>::new(-7);
    assert_eq!(c.data, [-7, -7, -7, -7]);
    assert_eq!(c.snapshot(), [-7, -7, -7, -7]);
}

#[test]
fn fewer_writes_than_slots_keep_the_initial_values_first() {
    let mut c = Circ::<u8, 5>::new(0);
    c.add(10);
    c.add(20);
    assert_eq!(c.snapshot(), [0, 0, 0, 10, 20]);
    assert_eq!(c.data, [10, 20, 0, 0, 0]);
}

#[test]
fn many_writes_leave_the_last_ones_in_order() {
    let mut c = Circ::<u32, 4>::new(0);
    for v in 1..=11u32 {
        c.add(v);
    }
    assert_eq!(c.snapshot(), [8, 9, 10, 11]);
    let all: Vec<u32> = c.iter().collect();
    assert_eq!(all, vec![8, 9, 10, 11]);
}

#[test]
fn exactly_as_many_writes_as_slots() {
    let mut c = Circ::<u32, 3>::new(9);
    c.add(1);
    c.add(2);
    c.add(3);
    assert_eq!(c.snapshot(), [1, 2, 3]);
}

#[test]
fn a_walk_ends_after_the_newest_value_and_stays_ended() {
    let mut c = Circ::<u32, 2>::new(0);
    c.add(5);
    let mut it = c.iter();
    assert_eq!(it.next(), Some(0));
    assert_eq!(it.next(), Some(5));
    assert_eq!(it.next(), None);
    assert_eq!(it.next(), None);
}

#[test]
fn a_walk_can_be_started_again() {
    let mut c = Circ::<u32, 3>::new(0);
    c.add(1);
    c.add(2);
    c.add(3);
    c.add(4);
    let first: Vec<u32> = c.iter().collect();
    let second: Vec<u32> = c.iter().collect();
    assert_eq!(first, vec![2, 3, 4]);
    assert_eq!(first, second);
}

#[test]
fn collect_hands_out_what_is_left_of_a_walk() {
    let mut c = Circ::<u32, 3>::new(0);
    c.add(1);
    c.add(2);
    c.add(3);
    let mut it = c.iter();
    assert_eq!(it.next(), Some(1));
    assert_eq!(it.collect(), vec![2, 3]);
}

#[test]
fn a_buffer_of_one_slot_holds_the_last_write() {
    let mut c = Circ::<u32, 1>::new(0);
    assert_eq!(c.snapshot(), [0]);
    c.add(1);
    c.add(2);
    assert_eq!(c.snapshot(), [2]);
}

#[test]
fn a_copy_of_a_buffer_goes_its_own_way() {
    let mut c = Circ::<u32, 2>::new(0);
    c.add(1);
    let mut d = c.clone();
    d.add(2);
    assert_eq!(c.snapshot(), [0, 1]);
    assert_eq!(d.snapshot(), [1, 2]);
}

#[test]
fn whatever_is_read_was_written_whole() {
    // Writes and reads in a fixed but irregular order. Every pair written has
    // its two halves tied together, so a pair made of two writes would show.
    let mut c = Circ::<(u32, u32), 4>::new((0, 0));
    let mut written: Vec<(u32, u32)> = Vec::new();
    let mut seed = 12345u32;
    for step in 1..=200u32 {
        seed = seed.wrapping_mul(1_103_515_245).wrapping_add(12_345);
        if (seed >> 16) % 3 != 0 {
            let pair = (step, step.wrapping_mul(2_654_435_761));
            c.add(pair);
            written.push(pair);
        } else {
            let seen = c.snapshot();
            for pair in seen.iter() {
                assert!(*pair == (0, 0) || written.contains(pair));
            }
            let newest = written.len().min(4);
            assert_eq!(&seen[4 - newest..], &written[written.len() - newest..]);
            for pair in &seen[..4 - newest] {
                assert_eq!(*pair, (0, 0));
            }
        }
    }
    assert!(written.len() > 100);
}
