use midi_clock_shifter::engine::scheduler::OutputScheduler;

#[test]
fn tick_count_stays_consistent_across_a_pending_start() {
    let model_next_k = 0;
    let mut sched = OutputScheduler::new();

    sched.arm_start(20);

    let mut last_k: Option<u64> = None;
    let mut fired_at = None;
    for _ in 0..40 {
        let k = sched.peek_next(model_next_k);
        if let Some(lk) = last_k {
            assert_eq!(k, lk + 1, "tick index must not gap or repeat");
        }
        if sched.take_due_start(k) {
            fired_at = Some(k);
        }
        sched.commit(k);
        last_k = Some(k);
    }

    assert_eq!(
        fired_at,
        Some(20),
        "the pending start must fire exactly once, at tick 20"
    );
}

#[test]
fn stop_cancels_a_pending_start() {
    let model_next_k = 0;
    let mut sched = OutputScheduler::new();

    sched.arm_start(5);
    assert!(sched.has_pending_start());
    sched.cancel_start();
    assert!(!sched.has_pending_start());

    for _ in 0..10 {
        let k = sched.peek_next(model_next_k);
        assert!(
            !sched.take_due_start(k),
            "a cancelled start must never fire"
        );
        sched.commit(k);
    }
}

#[test]
fn a_fresh_output_starts_at_the_model_tick_and_keeps_its_own_count() {
    let mut sched = OutputScheduler::new();
    assert_eq!(sched.last_committed_k(), None);
    assert_eq!(sched.next_unsent_k(42), 42);
    let k = sched.peek_next(42);
    assert_eq!(k, 42);
    assert_eq!(sched.peek_next(99), 42, "peeking again without a commit keeps the index");
    sched.commit(k);
    assert_eq!(sched.last_committed_k(), Some(42));
    assert_eq!(sched.next_unsent_k(7), 43);
    assert_eq!(sched.peek_next(7), 43);
}

#[test]
fn reset_forgets_the_position_but_keeps_a_pending_start() {
    let mut sched = OutputScheduler::default();
    sched.arm_start(30);
    let k = sched.peek_next(10);
    sched.commit(k);
    sched.reset();
    assert!(sched.has_pending_start());
    assert_eq!(sched.peek_next(25), 25);
    assert_eq!(sched.last_committed_k(), Some(10));
}

#[test]
fn a_start_fires_once_only_for_its_own_tick() {
    let mut sched = OutputScheduler::new();
    sched.arm_start(3);
    assert!(!sched.take_due_start(2));
    assert!(sched.take_due_start(3));
    assert!(!sched.take_due_start(3));
    sched.arm_start(4);
    sched.arm_start(6);
    assert!(!sched.take_due_start(4), "a newer start replaces the pending one");
    assert!(sched.take_due_start(6));
}
