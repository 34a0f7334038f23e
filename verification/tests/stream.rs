use midi_clock_shifter::engine::scheduler::OutputScheduler;
use midi_clock_shifter::engine::stream::{tick_pass, TickOutcome};
use midi_clock_shifter::engine::transport::{arm_output_start, TickBytes, TransportState};

#[test]
fn tick_pass_without_a_model_holds_and_forgets_the_position() {
    let t = TransportState::new();
    let mut sched = OutputScheduler::new();
    assert_eq!(tick_pass(&t, &mut sched, true, Some(5), |_| true), TickOutcome::Sent(5, TickBytes::Clock));
    assert_eq!(tick_pass(&t, &mut sched, true, None, |_| true), TickOutcome::Held);
    assert_eq!(sched.next_unsent_k(40), 40, "the position was forgotten");
    assert_eq!(sched.last_committed_k(), Some(5));
}

#[test]
fn tick_pass_waits_for_the_send_time_and_sends_consecutive_ticks() {
    let t = TransportState::new();
    let mut sched = OutputScheduler::new();
    assert_eq!(tick_pass(&t, &mut sched, false, Some(10), |k| k < 12), TickOutcome::Sent(10, TickBytes::Clock));
    assert_eq!(tick_pass(&t, &mut sched, false, Some(99), |k| k < 12), TickOutcome::Sent(11, TickBytes::Clock));
    assert_eq!(tick_pass(&t, &mut sched, false, Some(99), |k| k < 12), TickOutcome::NotDue(12));
    assert_eq!(tick_pass(&t, &mut sched, false, Some(99), |_| true), TickOutcome::Sent(12, TickBytes::Clock));
}

#[test]
fn tick_pass_holds_forwarding_outputs_while_stopped_or_awaiting_lock() {
    let mut t = TransportState::new();
    t.handle_stop();
    let mut fwd = OutputScheduler::new();
    let mut plain = OutputScheduler::new();
    assert_eq!(tick_pass(&t, &mut fwd, true, Some(3), |_| true), TickOutcome::Held);
    assert_eq!(tick_pass(&t, &mut plain, false, Some(3), |_| true), TickOutcome::Sent(3, TickBytes::Clock));

    assert_eq!(t.begin_start(false, Some(4)), None);
    assert_eq!(tick_pass(&t, &mut fwd, true, Some(4), |_| true), TickOutcome::Held);
    let k_d = t.arm_when_locked(true, Some(30)).expect("locked with a model");
    assert_eq!(arm_output_start(&mut fwd, true, k_d, t.quantum_ticks(), 30, true, |k| k >= 100), Some(126));
    assert_eq!(tick_pass(&t, &mut fwd, true, Some(31), |k| k <= 126), TickOutcome::Sent(126, TickBytes::StartThenClock));
    assert_eq!(tick_pass(&t, &mut fwd, true, Some(32), |_| true), TickOutcome::Sent(127, TickBytes::Clock));
}
