use midi_clock_shifter::engine::estimator::{
    initial_fit_ready, Acquisition, LockState, TickStep, TickVerdict, TrackingState,
};

#[test]
fn initial_fit_needs_24_samples() {
    assert!(!initial_fit_ready(23));
    assert!(initial_fit_ready(24));
}

#[test]
fn lock_state_follows_the_phase() {
    assert_eq!(LockState::default(), LockState::NoSignal);
    let mut a = Acquisition::new();
    assert_eq!(a.lock_state(), LockState::NoSignal);
    assert_eq!(a.model_next_k(), None);
    assert_eq!(a.on_tick(false, false), TickStep::BeginCollecting);
    assert_eq!(a.lock_state(), LockState::Acquiring);
    for _ in 2..24 {
        assert_eq!(a.on_tick(false, false), TickStep::Collect);
        assert_eq!(a.model_next_k(), None);
        assert_eq!(a.lock_state(), LockState::Acquiring);
    }
    assert_eq!(a.on_tick(false, false), TickStep::Fit { samples: 24 });
    assert_eq!(a.model_next_k(), Some(24));
    assert_eq!(a.lock_state(), LockState::Acquiring);
    assert_eq!(a.on_tick(false, true), TickStep::Judged(TickVerdict::Accepted));
    assert_eq!(a.lock_state(), LockState::Locked);
    assert_eq!(a.model_next_k(), Some(25));

    let mut t = TrackingState::start(24);
    assert_eq!(t.lock_state(), LockState::Acquiring);
    assert_eq!(t.on_tick(false, true), TickVerdict::Accepted);
    assert_eq!(t.lock_state(), LockState::Locked);
    assert_eq!(t.next_k(), 25);
}

#[test]
fn outlier_run_returns_to_collecting_and_timeout_to_no_signal() {
    let mut a = Acquisition::new();
    for _ in 0..24 {
        a.on_tick(false, false);
    }
    assert_eq!(a.model_next_k(), Some(24));
    assert_eq!(a.on_tick(true, false), TickStep::Judged(TickVerdict::Rejected));
    assert_eq!(a.on_tick(true, false), TickStep::Judged(TickVerdict::Rejected));
    assert_eq!(a.on_tick(true, false), TickStep::Judged(TickVerdict::Reacquire));
    assert_eq!(a.model_next_k(), None);
    assert_eq!(a.lock_state(), LockState::Acquiring);
    assert_eq!(a.on_tick(false, false), TickStep::Collect);
    a.on_timeout();
    assert_eq!(a.lock_state(), LockState::NoSignal);
    assert_eq!(a.on_tick(false, false), TickStep::BeginCollecting);
}

#[test]
fn single_outlier_is_rejected_without_losing_lock() {
    let mut t = TrackingState::start(24);
    t.on_tick(false, true);
    assert_eq!(t.on_tick(true, false), TickVerdict::Rejected);
    assert_eq!(t.lock_state(), LockState::Locked);
    assert_eq!(t.next_k(), 26);
    assert_eq!(t.on_tick(false, true), TickVerdict::Accepted);
}

#[test]
fn third_consecutive_outlier_reacquires() {
    let mut t = TrackingState::start(0);
    assert_eq!(t.on_tick(true, true), TickVerdict::Rejected);
    assert_eq!(t.on_tick(true, true), TickVerdict::Rejected);
    assert_eq!(t.on_tick(true, true), TickVerdict::Reacquire);

    let mut u = TrackingState::start(0);
    u.on_tick(true, true);
    u.on_tick(true, true);
    assert_eq!(u.on_tick(false, false), TickVerdict::Accepted, "an accepted tick resets the count");
    assert_eq!(u.on_tick(true, true), TickVerdict::Rejected);
    assert_eq!(u.on_tick(true, true), TickVerdict::Rejected);
    assert_eq!(u.lock_state(), LockState::Acquiring);
}
