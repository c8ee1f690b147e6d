use lan_mouse::emulation::Scroll120Accumulator;

#[test]
fn whole_steps_pass_straight_through() {
    let mut a = Scroll120Accumulator::new();
    assert_eq!(a.accumulate(0, 120), 1);
    assert_eq!(a.accumulate(0, -120), -1);
}

#[test]
fn high_resolution_fractions_accumulate_instead_of_vanishing() {
    let mut a = Scroll120Accumulator::new();
    for _ in 0..4 {
        assert_eq!(a.accumulate(0, 24), 0);
    }
    assert_eq!(a.accumulate(0, 24), 1);
}

#[test]
fn remainder_is_kept_across_events() {
    let mut a = Scroll120Accumulator::new();
    assert_eq!(a.accumulate(0, 100), 0);
    assert_eq!(a.accumulate(0, 100), 1);
    assert_eq!(a.accumulate(0, 40), 1);
    assert_eq!(a.accumulate(0, 119), 0);
}

#[test]
fn axes_are_independent() {
    let mut a = Scroll120Accumulator::new();
    assert_eq!(a.accumulate(0, 60), 0);
    assert_eq!(a.accumulate(1, 60), 0);
    assert_eq!(a.accumulate(0, 60), 1);
    assert_eq!(a.accumulate(1, 60), 1);
}

#[test]
fn direction_change_cancels_rather_than_latching() {
    let mut a = Scroll120Accumulator::new();
    assert_eq!(a.accumulate(0, 60), 0);
    assert_eq!(a.accumulate(0, -60), 0);
    assert_eq!(a.accumulate(0, -120), -1);
}

#[test]
fn negative_totals_round_toward_zero() {
    let mut a = Scroll120Accumulator::new();
    assert_eq!(a.accumulate(2, -250), -2);
    assert_eq!(a.accumulate(7, -9), 0);
    assert_eq!(a.accumulate(1, -1), 0);
    assert_eq!(a.accumulate(1, -100), -1);
    assert_eq!(a.accumulate(0, 359), 2);
}

#[test]
fn a_default_accumulator_holds_nothing() {
    let mut a = Scroll120Accumulator::default();
    assert_eq!(a.accumulate(0, 60), 0);
    assert_eq!(a.accumulate(0, 60), 1);
    assert_eq!(a.accumulate(1, -120), -1);
}
