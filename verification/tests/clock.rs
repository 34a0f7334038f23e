use std::time::Duration;

use midi_clock_shifter::clock::{RealTime, SimClock, TimeSource};

#[test]
fn sim_clock_only_advances_when_told() {
    let mut clock = SimClock::new();
    let t0 = clock.now();
    clock.advance(Duration::from_secs(1));
    assert_eq!(clock.now(), t0 + Duration::from_secs(1));
}

#[test]
fn sim_clock_reads_the_same_instant_until_advanced() {
    let clock = SimClock::new();
    let a = clock.now();
    std::hint::black_box(RealTime.now());
    let b = clock.now();
    assert_eq!(a, b);
}

#[test]
fn sim_clock_try_advance_moves_by_the_duration() {
    let mut clock = SimClock::new();
    let t0 = clock.now();
    assert!(clock.try_advance(Duration::from_millis(20)));
    assert!(clock.try_advance(Duration::from_millis(5)));
    assert_eq!(clock.now(), t0 + Duration::from_millis(25));
}

#[test]
fn sim_clock_try_advance_refuses_an_unrepresentable_instant() {
    let mut clock = SimClock::new();
    let t0 = clock.now();
    assert!(!clock.try_advance(Duration::MAX));
    assert_eq!(clock.now(), t0);
}

#[test]
fn real_time_moves_forward() {
    let a = RealTime.now();
    let b = RealTime.now();
    assert!(b >= a);
}
