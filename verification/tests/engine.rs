use ekn::{Ekn, EknType};

#[test]
fn default_engine() {
    let ekn = Ekn::default();
    assert_eq!(ekn.get_steps(), 8);
    assert_eq!(ekn.get_events(), 3);
    assert_eq!(ekn.get_rotation(), 0);
    assert_eq!(ekn.get_current_step(), 0);
    assert_eq!(ekn.get_pattern(), vec![1u8, 0, 0, 1, 0, 0, 1, 0]);
}

#[test]
fn new_3_8_pattern() {
    let ekn = Ekn::new(3, 8);
    assert_eq!(ekn.get_pattern(), vec![1u8, 0, 0, 1, 0, 0, 1, 0]);
}

#[test]
fn euclid_set_for_8_and_nontrivial_trim() {
    let mut ekn = Ekn::new(3, 8);
    assert_eq!(ekn.get_events_list(), vec![1u32, 3, 5, 7]);
    let ev = ekn.set_euclidian(EknType::EuclidianNoTrivial);
    assert_eq!(ekn.get_events_list(), vec![3u32, 5]);
    assert_eq!(ev, 3);
    assert_eq!(ekn.get_events(), 3);
}

#[test]
fn all_mode_lists_every_count() {
    let mut ekn = Ekn::new(3, 8);
    let ev = ekn.set_euclidian(EknType::All);
    assert_eq!(ev, 1);
    assert_eq!(ekn.get_events_list(), vec![1u32, 2, 3, 4, 5, 6, 7]);
    assert_eq!(ekn.get_pattern(), vec![1u8, 0, 0, 0, 0, 0, 0, 0]);
}

#[test]
fn euclid_set_for_12() {
    let ekn = Ekn::new(1, 12);
    assert_eq!(ekn.get_events_list(), vec![1u32, 5, 7, 11]);
}

#[test]
fn set_steps_5_keeps_3_events() {
    let mut ekn = Ekn::default();
    let (events, steps) = ekn.set_steps(5);
    assert_eq!((events, steps), (3, 5));
    assert_eq!(ekn.get_events_list(), vec![1u32, 2, 3, 4]);
    let pattern = ekn.get_pattern();
    assert_eq!(pattern.len(), 5);
    assert_eq!(pattern.iter().filter(|&&x| x == 1).count(), 3);
}

#[test]
fn small_step_counts_are_forced_to_2() {
    let mut ekn = Ekn::default();
    let (events, steps) = ekn.set_steps(0);
    assert_eq!((events, steps), (1, 2));
    assert_eq!(ekn.get_events_list(), vec![1u32]);
    assert_eq!(ekn.get_pattern(), vec![1u8, 0]);
    let mut ekn2 = Ekn::default();
    assert_eq!(ekn2.set_steps(1), (1, 2));
}

#[test]
fn rotation_clamps_to_steps_minus_1() {
    let mut ekn = Ekn::new(3, 8);
    let r = ekn.set_rotation(10);
    assert_eq!(r, 7);
    assert_eq!(ekn.get_rotation(), 7);
}

#[test]
fn rotation_shifts_pattern_right() {
    let mut ekn = Ekn::new(3, 8);
    let r = ekn.set_rotation(2);
    assert_eq!(r, 2);
    assert_eq!(ekn.get_pattern(), vec![1u8, 0, 1, 0, 0, 1, 0, 0]);
    let pattern = ekn.get_pattern();
    assert_eq!(pattern.iter().filter(|&&x| x == 1).count(), 3);
}

#[test]
fn nearest_snaps_up_then_down() {
    let mut ekn = Ekn::new(3, 8);
    assert_eq!(ekn.get_nearest_euclidian_events(100), 7);
    assert_eq!(ekn.get_nearest_euclidian_events(2), 3);
    assert_eq!(ekn.get_nearest_euclidian_events(1), 1);
    assert_eq!(ekn.get_nearest_euclidian_events(3), 3);
    assert_eq!(ekn.get_nearest_euclidian_events(0), 1);
}

#[test]
fn set_events_snaps_to_valid_count() {
    let mut ekn = Ekn::new(3, 8);
    let ev = ekn.set_events(4);
    assert_eq!(ev, 5);
    assert_eq!(ekn.get_events(), 5);
    let pattern = ekn.get_pattern();
    assert_eq!(pattern.iter().filter(|&&x| x == 1).count(), 5);
}

#[test]
fn next_step_has_period_steps() {
    let mut ekn = Ekn::new(3, 8);
    assert_eq!(ekn.get_current_step(), 0);
    for expected in 1..8u32 {
        assert_eq!(ekn.next_step(), expected);
    }
    assert_eq!(ekn.next_step(), 0);
    assert_eq!(ekn.get_current_step(), 0);
}

#[test]
fn set_current_step_wraps() {
    let mut ekn = Ekn::new(3, 8);
    assert_eq!(ekn.set_current_step(11), 3);
    assert_eq!(ekn.get_current_step(), 3);
}

#[test]
fn rotation_keeps_playback_position() {
    let mut ekn = Ekn::new(3, 8);
    ekn.next_step();
    ekn.next_step();
    assert_eq!(ekn.get_current_step(), 2);
    ekn.set_rotation(1);
    assert_eq!(ekn.get_current_step(), 2);
}

#[test]
fn config_changes_restart_playback() {
    let mut ekn = Ekn::new(3, 8);
    ekn.next_step();
    ekn.set_events(3);
    assert_eq!(ekn.get_current_step(), 0);
    ekn.next_step();
    ekn.set_steps(8);
    assert_eq!(ekn.get_current_step(), 0);
    ekn.next_step();
    ekn.set_euclidian(EknType::Euclidian);
    assert_eq!(ekn.get_current_step(), 0);
}

#[test]
fn is_event_follows_pattern() {
    let mut ekn = Ekn::new(3, 8);
    assert!(ekn.is_event());
    ekn.next_step();
    assert!(!ekn.is_event());
    ekn.next_step();
    assert!(!ekn.is_event());
    ekn.next_step();
    assert!(ekn.is_event());
}

#[test]
fn pattern_matches_generator_crate() {
    for &(k, n) in &[(3usize, 8usize), (5, 13), (4, 9), (7, 12)] {
        let mut expected = vec![0u8; n];
        euclidian_rythms::euclidian_rythm(&mut expected, k).unwrap();
        let ekn = Ekn::new(k as u32, n as u32);
        assert_eq!(ekn.get_events(), k as u32);
        assert_eq!(ekn.get_pattern(), expected);
    }
}
