use weather_node::anemometer::CycleCounter;

#[test]
fn a_pin_that_goes_high_is_counted_once() {
    let mut counter = CycleCounter::new(false);
    assert_eq!(counter.cycle_count(), 0);
    assert!(counter.observe(false, false));
    assert_eq!(counter.cycle_count(), 0);
    assert!(counter.observe(true, true));
    assert_eq!(counter.cycle_count(), 1);
    assert!(counter.observe(true, true));
    assert_eq!(counter.cycle_count(), 1);
    assert!(counter.observe(false, false));
    assert!(counter.observe(true, false));
    assert_eq!(counter.cycle_count(), 2);
}

#[test]
fn the_second_look_of_a_round_is_what_is_remembered() {
    let mut counter = CycleCounter::new(true);
    // High at the first look: no change from the level at the start.
    assert!(counter.observe(true, false));
    assert_eq!(counter.cycle_count(), 0);
    // Low was remembered, so high at the first look counts.
    assert!(counter.observe(true, false));
    assert_eq!(counter.cycle_count(), 1);
    // The pin went high between the two looks: it is remembered as high and not counted.
    assert!(counter.observe(false, true));
    assert!(counter.observe(true, true));
    assert_eq!(counter.cycle_count(), 1);
}
