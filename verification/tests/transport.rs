use std::time::{Duration, Instant};

use midi_clock_shifter::engine::scheduler::OutputScheduler;
use midi_clock_shifter::engine::transport::{
    arm_output_start, latest_committed, output_position, quantum_ticks, resync_target, send_due_tick,
    start_due, stop_output, RunState, TickBytes, TransportState, TICKS_PER_BAR,
};
use midi_clock_shifter::engine::OutputPosition;

/// The floating-point tick model `T(k) = t_ref + k * period` relative to `epoch`.
struct Model {
    epoch: Instant,
    t_ref_secs: f64,
    period_secs: f64,
}

fn offset_instant(base: Instant, secs: f64) -> Instant {
    if secs >= 0.0 {
        base + Duration::from_secs_f64(secs)
    } else {
        base - Duration::from_secs_f64(-secs)
    }
}

impl Model {
    fn predicted_instant(&self, k: u64) -> Instant {
        offset_instant(self.epoch, self.t_ref_secs + k as f64 * self.period_secs)
    }
}

fn model_at(epoch: Instant, bpm: f64) -> Model {
    Model {
        epoch,
        t_ref_secs: 0.0,
        period_secs: 60.0 / (bpm * 24.0),
    }
}

fn resync(model: &Model, shift_secs: f64, k_d: u64, q: u64, earliest: u64, now: Instant) -> u64 {
    resync_target(k_d, q, earliest, |k: u64| {
        offset_instant(model.predicted_instant(k), -shift_secs) > now
    })
    .expect("a boundary in the future exists")
}

#[test]
fn lead_offset_resyncs_before_the_tick_at_downbeat_plus_quantum() {
    let epoch = Instant::now();
    let bpm = 125.0;
    let model = model_at(epoch, bpm);
    let k_d = 10;
    let q = quantum_ticks(1);
    let shift = 0.2;

    let now = model.predicted_instant(k_d) - Duration::from_micros(1);

    let target = resync(&model, shift, k_d, q, k_d, now);
    assert_eq!(target, k_d + q, "should land on the next quantum boundary");

    let expected_send_at = model.predicted_instant(target) - Duration::from_secs_f64(shift);
    let send_at = offset_instant(model.predicted_instant(target), -shift);
    assert_eq!(send_at, expected_send_at);
    assert!(send_at > now, "must still be scheduled in the future");
}

#[test]
fn large_lead_offset_pushes_resync_to_the_next_quantum_boundary() {
    let epoch = Instant::now();
    let model = model_at(epoch, 60.0);
    let k_d = 0;
    let q = quantum_ticks(1);
    assert_eq!(model.predicted_instant(q) - epoch, Duration::from_secs(4));

    let now = model.predicted_instant(k_d) - Duration::from_micros(1);
    let target = resync(&model, 4.0, k_d, q, k_d, now);

    assert_eq!(target, k_d + q, "must move to the second bar (n = 1)");
}

#[test]
fn negative_offset_resyncs_at_the_first_boundary_and_sends_late() {
    let epoch = Instant::now();
    let model = model_at(epoch, 60.0);
    let k_d = 0;
    let q = quantum_ticks(1);

    let now = model.predicted_instant(k_d) - Duration::from_micros(1);
    let target = resync(&model, -4.0, k_d, q, k_d, now);

    assert_eq!(target, k_d, "n = 0: the first boundary is used");
    let send_at = offset_instant(model.predicted_instant(target), 4.0);
    assert!(
        send_at > model.predicted_instant(k_d),
        "a negative offset sends the resync after the downbeat arrives"
    );
}

#[test]
fn quantum_ticks_counts_bars_of_96_ticks() {
    assert_eq!(quantum_ticks(1), 96);
    assert_eq!(quantum_ticks(2), 192);
    assert_eq!(quantum_ticks(4), 384);
    assert_eq!(quantum_ticks(0), 96);
    assert_eq!(quantum_ticks(u32::MAX), 96 * u32::MAX as u64);
}

#[test]
fn resync_skips_boundaries_already_sent_and_asks_only_later_ones() {
    let asked = std::cell::RefCell::new(Vec::new());
    let target = resync_target(5, 96, 200, |k: u64| {
        asked.borrow_mut().push(k);
        k >= 389
    });
    assert_eq!(target, Some(389));
    assert_eq!(*asked.borrow(), vec![293, 389]);
    assert_eq!(resync_target(u64::MAX - 10, 96, 0, |_| false), None);
}

#[test]
fn start_while_locked_arms_at_the_model_tick() {
    let mut t = TransportState::new();
    assert_eq!(t.run_state, RunState::Running);
    assert_eq!(t.begin_start(true, Some(40)), Some(40));
    assert_eq!(t.bar0_tick, Some(40));
    assert!(!t.awaiting_start_lock);
}

#[test]
fn start_before_lock_waits_and_arms_once_locked() {
    let mut t = TransportState::new();
    assert_eq!(t.begin_start(false, Some(3)), None);
    assert!(t.awaiting_start_lock);
    assert!(t.start_pending(&[]));
    assert_eq!(t.arm_when_locked(false, Some(10)), None);
    assert_eq!(t.arm_when_locked(true, None), None);
    assert_eq!(t.arm_when_locked(true, Some(24)), Some(24));
    assert_eq!(t.bar0_tick, Some(24));
    assert_eq!(t.arm_when_locked(true, Some(30)), None, "armed only once");
    assert!(!t.start_pending(&[false, false]));
    assert!(t.start_pending(&[false, true]));
}

#[test]
fn stop_pauses_forwarding_outputs_only_until_the_next_start() {
    let mut t = TransportState::new();
    t.begin_start(false, None);
    assert!(t.output_paused(true), "a forwarding output is held while a start waits for lock");
    assert!(!t.output_paused(false));
    t.handle_stop();
    assert_eq!(t.run_state, RunState::Stopped);
    assert!(!t.awaiting_start_lock, "a stop drops a start waiting for lock");
    assert!(t.output_paused(true));
    assert!(!t.output_paused(false));
    assert_eq!(t.arm_when_locked(true, Some(5)), None);
    t.begin_start(true, Some(5));
    assert!(!t.output_paused(true));
}

#[test]
fn continue_is_forwarded_only_when_enabled_and_to_forwarding_outputs() {
    let mut t = TransportState::new();
    assert!(!t.continue_forwarded(true));
    t.set_forward_continue(true);
    assert!(t.continue_forwarded(true));
    assert!(!t.continue_forwarded(false));
}

#[test]
fn only_forwarding_outputs_get_start_and_stop() {
    let mut fwd = OutputScheduler::new();
    let mut silent = OutputScheduler::new();
    let armed_fwd = arm_output_start(&mut fwd, true, 0, 96, 0, false, |_| true);
    let armed_silent = arm_output_start(&mut silent, false, 0, 96, 0, false, |_| true);
    assert_eq!(armed_fwd, Some(0));
    assert_eq!(armed_silent, None);
    assert!(!silent.has_pending_start());
    assert!(!start_due(&mut silent, 0, false));
    assert!(start_due(&mut fwd, 0, true));
    assert!(!start_due(&mut fwd, 0, true), "fires once");

    arm_output_start(&mut fwd, true, 0, 96, 0, false, |k| k > 0);
    assert!(fwd.has_pending_start());
    assert!(stop_output(&mut fwd, true));
    assert!(!fwd.has_pending_start());
    assert!(!stop_output(&mut silent, false));
}

#[test]
fn arming_respects_ticks_already_sent() {
    let mut sched = OutputScheduler::new();
    for _ in 0..100 {
        let k = sched.peek_next(0);
        sched.commit(k);
    }
    assert_eq!(arm_output_start(&mut sched, true, 0, 96, 0, false, |_| true), Some(192));
}

#[test]
fn output_position_counts_ticks_and_bars_from_the_downbeat() {
    assert_eq!(output_position(None, Some(10), 1), None);
    assert_eq!(output_position(Some(10), None, 1), None);
    assert_eq!(output_position(Some(10), Some(9), 1), None);
    assert_eq!(
        output_position(Some(10), Some(10), 4),
        Some(OutputPosition { tick_in_bar: 0, bar_in_phrase: 0 })
    );
    assert_eq!(
        output_position(Some(10), Some(10 + 96 + 5), 4),
        Some(OutputPosition { tick_in_bar: 5, bar_in_phrase: 1 })
    );
    assert_eq!(
        output_position(Some(0), Some(4 * TICKS_PER_BAR + 3), 2),
        Some(OutputPosition { tick_in_bar: 3, bar_in_phrase: 0 })
    );
    let mut t = TransportState::new();
    t.set_resync_quantum_bars(2);
    t.begin_start(true, Some(100));
    assert_eq!(
        t.output_position(Some(100 + 96 * 3 + 1)),
        Some(OutputPosition { tick_in_bar: 1, bar_in_phrase: 1 })
    );
    assert_eq!(t.quantum_ticks(), 192);
}

#[test]
fn latest_committed_is_the_largest_sent_tick() {
    assert_eq!(latest_committed(&[]), None);
    assert_eq!(latest_committed(&[None, None]), None);
    assert_eq!(latest_committed(&[Some(3), None, Some(9), Some(4)]), Some(9));
}

#[test]
fn start_before_lock_holds_forwarding_ticks_until_the_armed_start() {
    let mut t = TransportState::new();
    let mut fwd = OutputScheduler::new();
    let mut plain = OutputScheduler::new();
    assert_eq!(t.begin_start(false, Some(7)), None);
    assert!(t.output_paused(true));
    assert!(!t.output_paused(false));
    assert_eq!(send_due_tick(&mut plain, 7, false), TickBytes::Clock);

    let k_d = t.arm_when_locked(true, Some(30)).expect("locked with a model");
    assert_eq!(k_d, 30);
    assert!(!t.output_paused(true));
    let armed = arm_output_start(&mut fwd, true, k_d, t.quantum_ticks(), 30, true, |k| k >= 40);
    assert_eq!(armed, Some(126));
    assert_eq!(fwd.next_unsent_k(31), 126, "the held output begins at the armed boundary");
    let k = fwd.peek_next(31);
    assert_eq!(k, 126);
    assert_eq!(send_due_tick(&mut fwd, k, true), TickBytes::StartThenClock);
    assert_eq!(fwd.last_committed_k(), Some(126));
    let k = fwd.peek_next(200);
    assert_eq!(k, 127);
    assert_eq!(send_due_tick(&mut fwd, k, true), TickBytes::Clock);
}

#[test]
fn arming_without_hold_keeps_the_tick_position() {
    let mut sched = OutputScheduler::new();
    for _ in 0..5 {
        let k = sched.peek_next(10);
        assert_eq!(send_due_tick(&mut sched, k, true), TickBytes::Clock);
    }
    assert_eq!(arm_output_start(&mut sched, true, 0, 96, 10, false, |_| true), Some(96));
    assert_eq!(sched.next_unsent_k(0), 15);
    assert!(sched.has_pending_start());
    for k in 15..96 {
        assert_eq!(sched.peek_next(0), k);
        assert_eq!(send_due_tick(&mut sched, k, true), TickBytes::Clock);
    }
    assert_eq!(send_due_tick(&mut sched, 96, false), TickBytes::Clock, "a non-forwarding output never gets 0xFA");
    assert!(sched.has_pending_start());
}

#[test]
fn send_due_tick_attaches_the_start_once() {
    let mut sched = OutputScheduler::new();
    sched.start_at(12);
    assert_eq!(sched.peek_next(0), 12);
    assert_eq!(send_due_tick(&mut sched, 12, true), TickBytes::StartThenClock);
    assert!(!sched.has_pending_start());
    assert_eq!(send_due_tick(&mut sched, 13, true), TickBytes::Clock);
    assert_eq!(sched.last_committed_k(), Some(13));
}
