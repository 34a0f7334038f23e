//! What one output receives: a model of the engine loop as it concerns a
//! single output, event by event, built from the transport and scheduler
//! transitions that the engine uses, and the laws of the resulting byte stream.
use super::scheduler::{OutputScheduler, SchedulerModel};
use super::transport::{armed_model, send_due_tick, TickBytes, TransportState};
use super::{CLOCK, CONTINUE, START, STOP};
use vstd::prelude::*;

verus! {

/// An event of the engine loop as it concerns one output.
pub enum OutputEvent {
    /// An incoming (or manual) start; `target` is the boundary the output is
    /// armed at if the start arms now.
    Start { locked: bool, model_next_k: Option<u64>, target: Option<u64> },
    /// The loop's check whether a start waiting for lock can now be armed;
    /// `target` as for `Start`.
    LockCheck { locked: bool, model_next_k: Option<u64>, target: Option<u64> },
    /// An incoming `0xFC`.
    Stop,
    /// An incoming `0xFB`.
    Continue,
    /// The forward-continue setting changes.
    SetForwardContinue(bool),
    /// The output's turn in the tick pass: under the current model (`None`: no
    /// model), its next tick's send time has (`due`) or has not come.
    Tick { model_next_k: Option<u64>, due: bool },
}

/// The transport state and the output's scheduling state.
pub struct OutputTrack {
    pub transport: TransportState,
    pub sched: SchedulerModel,
}

impl OutputTrack {
    /// The state after `e` and the bytes the output is sent for it, in order;
    /// `forward_transport` is the output's forward start/stop setting.
    pub open spec fn step(self, forward_transport: bool, e: OutputEvent) -> (OutputTrack, Seq<u8>) {
        match e {
            OutputEvent::Start { locked, model_next_k, target } => {
                let (t2, arm) = self.transport.after_start(locked, model_next_k);
                let s2 = if arm is Some && forward_transport {
                    armed_model(self.sched, target, false)
                } else {
                    self.sched
                };
                (OutputTrack { transport: t2, sched: s2 }, Seq::empty())
            },
            OutputEvent::LockCheck { locked, model_next_k, target } => {
                let (t2, arm) = self.transport.after_lock_check(locked, model_next_k);
                let s2 = if arm is Some && forward_transport {
                    armed_model(self.sched, target, true)
                } else {
                    self.sched
                };
                (OutputTrack { transport: t2, sched: s2 }, Seq::empty())
            },
            OutputEvent::Stop => (
                OutputTrack {
                    transport: self.transport.after_stop(),
                    sched: if forward_transport {
                        SchedulerModel { pending_start: None, ..self.sched }
                    } else {
                        self.sched
                    },
                },
                if forward_transport { seq![STOP] } else { Seq::empty() },
            ),
            OutputEvent::Continue => (
                self,
                if self.transport.forward_continue && forward_transport {
                    seq![CONTINUE]
                } else {
                    Seq::empty()
                },
            ),
            OutputEvent::SetForwardContinue(b) => (
                OutputTrack { transport: TransportState { forward_continue: b, ..self.transport }, ..self },
                Seq::empty(),
            ),
            OutputEvent::Tick { model_next_k, due } => match model_next_k {
                None => (OutputTrack { sched: SchedulerModel { next_k: None, ..self.sched }, ..self }, Seq::empty()),
                Some(mk) => if self.transport.paused(forward_transport) {
                    (OutputTrack { sched: SchedulerModel { next_k: None, ..self.sched }, ..self }, Seq::empty())
                } else {
                    let p = self.sched.peeked(mk);
                    let k = self.sched.next_index(mk);
                    if due && k < u64::MAX {
                        let start = forward_transport && p.start_due_at(k);
                        let after = if forward_transport { p.after_due_check(k) } else { p };
                        (
                            OutputTrack { sched: after.committed(k), ..self },
                            if start { seq![START, CLOCK] } else { seq![CLOCK] },
                        )
                    } else {
                        (OutputTrack { sched: p, ..self }, Seq::empty())
                    }
                },
            },
        }
    }
}

/// The state after `events` and everything the output was sent, in order.
pub open spec fn trace(s: OutputTrack, forward_transport: bool, events: Seq<OutputEvent>) -> (OutputTrack, Seq<u8>)
    decreases events.len(),
{
    if events.len() == 0 {
        (s, Seq::empty())
    } else {
        let (mid, sent) = trace(s, forward_transport, events.drop_last());
        let (last, more) = mid.step(forward_transport, events.last());
        (last, sent + more)
    }
}

/// Every `0xFA` in `b` is immediately followed by `0xF8`.
pub open spec fn start_then_clock(b: Seq<u8>) -> bool {
    forall|i: int| 0 <= i < b.len() && #[trigger] b[i] == START ==> i + 1 < b.len() && b[i + 1] == CLOCK
}

/// `b` holds no `x`.
pub open spec fn lacks(b: Seq<u8>, x: u8) -> bool {
    forall|i: int| 0 <= i < b.len() ==> #[trigger] b[i] != x
}

/// The first `0xF8` in `b`, if any, comes right after an `0xFA`.
pub open spec fn first_clock_led_by_start(b: Seq<u8>) -> bool {
    forall|i: int|
        0 <= i < b.len() && #[trigger] b[i] == CLOCK && (forall|j: int| 0 <= j < i ==> b[j] != CLOCK) ==> i >= 1
            && b[i - 1] == START
}

/// What one event sends an output: at most two bytes; `0xFC` only for a stop,
/// to a forwarding output; `0xFB` only for a continue, to a forwarding output
/// while continue is forwarded; `0xFA` only to a forwarding output, first, and
/// then followed by `0xF8`; `0xF8` only for a tick pass that finds the tick due
/// under a model, on an output that is not held.
pub proof fn lemma_step_bytes(s: OutputTrack, forward_transport: bool, e: OutputEvent)
    ensures
        ({
            let b = s.step(forward_transport, e).1;
            &&& b.len() <= 2
            &&& start_then_clock(b)
            &&& forall|i: int| 0 <= i < b.len() && #[trigger] b[i] == STOP ==> e is Stop && forward_transport
            &&& forall|i: int|
                0 <= i < b.len() && #[trigger] b[i] == CONTINUE ==> e is Continue && forward_transport
                    && s.transport.forward_continue
            &&& forall|i: int| 0 <= i < b.len() && #[trigger] b[i] == START ==> forward_transport
            &&& forall|i: int|
                0 <= i < b.len() && #[trigger] b[i] == CLOCK ==> (e matches OutputEvent::Tick {
                    model_next_k: Some(_),
                    due: true,
                }) && !s.transport.paused(forward_transport)
            &&& forall|i: int|
                0 <= i < b.len() && #[trigger] b[i] == START ==> (e matches OutputEvent::Tick {
                    model_next_k: Some(mk),
                    ..
                } && s.sched.pending_start == Some(s.sched.next_index(mk)))
                    && s.step(forward_transport, e).0.sched.pending_start is None
        }),
{
    let b = s.step(forward_transport, e).1;
    assert(seq![STOP][0] == STOP);
    assert(seq![CONTINUE][0] == CONTINUE);
    assert(seq![CLOCK][0] == CLOCK);
    assert(seq![START, CLOCK][0] == START);
    assert(seq![START, CLOCK][1] == CLOCK);
}

proof fn lemma_start_then_clock_concat(a: Seq<u8>, c: Seq<u8>)
    requires
        start_then_clock(a),
        start_then_clock(c),
    ensures
        start_then_clock(a + c),
{
    let ac = a + c;
    assert forall|i: int| 0 <= i < ac.len() && #[trigger] ac[i] == START implies i + 1 < ac.len() && ac[i + 1] == CLOCK by {
        if i < a.len() {
            assert(ac[i] == a[i]);
            assert(ac[i + 1] == a[i + 1]);
        } else {
            assert(ac[i] == c[i - a.len()]);
            assert(ac[i + 1] == c[i + 1 - a.len()]);
        }
    }
}

proof fn lemma_lacks_concat(a: Seq<u8>, c: Seq<u8>, x: u8)
    ensures
        lacks(a + c, x) == (lacks(a, x) && lacks(c, x)),
{
    let ac = a + c;
    if lacks(a, x) && lacks(c, x) {
        assert forall|i: int| 0 <= i < ac.len() implies #[trigger] ac[i] != x by {
            if i < a.len() {
                assert(ac[i] == a[i]);
            } else {
                assert(ac[i] == c[i - a.len()]);
            }
        }
    }
    if lacks(ac, x) {
        assert forall|i: int| 0 <= i < a.len() implies #[trigger] a[i] != x by {
            assert(ac[i] == a[i]);
        }
        assert forall|i: int| 0 <= i < c.len() implies #[trigger] c[i] != x by {
            assert(ac[i + a.len()] == c[i]);
        }
    }
}

/// The shape of everything an output is sent, over any sequence of events:
/// every `0xFA` is immediately followed by `0xF8`; an output that does not
/// forward start/stop never gets `0xFA`, `0xFB` or `0xFC`; with continue not
/// forwarded at first and never switched on, no `0xFB` goes out; and without a
/// tick pass that finds a tick due under a model, no `0xF8` goes out.
pub proof fn lemma_stream_shape(s: OutputTrack, forward_transport: bool, events: Seq<OutputEvent>)
    ensures
        ({
            let (end, b) = trace(s, forward_transport, events);
            &&& start_then_clock(b)
            &&& !forward_transport ==> lacks(b, START) && lacks(b, STOP) && lacks(b, CONTINUE)
            &&& (!s.transport.forward_continue && forall|j: int|
                0 <= j < events.len() ==> !(#[trigger] events[j] matches OutputEvent::SetForwardContinue(true)))
                ==> lacks(b, CONTINUE) && !end.transport.forward_continue
            &&& (forall|j: int|
                0 <= j < events.len() ==> !(#[trigger] events[j] matches OutputEvent::Tick {
                    model_next_k: Some(_),
                    due: true,
                })) ==> lacks(b, CLOCK)
        }),
    decreases events.len(),
{
    if events.len() > 0 {
        let pre = events.drop_last();
        let e = events.last();
        lemma_stream_shape(s, forward_transport, pre);
        let (mid, a) = trace(s, forward_transport, pre);
        let c = mid.step(forward_transport, e).1;
        lemma_step_bytes(mid, forward_transport, e);
        lemma_start_then_clock_concat(a, c);
        lemma_lacks_concat(a, c, START);
        lemma_lacks_concat(a, c, STOP);
        lemma_lacks_concat(a, c, CONTINUE);
        lemma_lacks_concat(a, c, CLOCK);
        assert forall|j: int| 0 <= j < pre.len() implies #[trigger] pre[j] == events[j] by {}
        assert(events[events.len() - 1] == e);
    } else {
        assert(start_then_clock(Seq::<u8>::empty()));
    }
}

/// After a stop, a forwarding output is sent `0xFC` and then no `0xF8` until the
/// next start, whatever else happens (lock checks, continues, tick passes with
/// or without a model).
pub proof fn lemma_stop_holds_until_start(s: OutputTrack, events: Seq<OutputEvent>)
    requires
        events.len() >= 1,
        events[0] is Stop,
        forall|j: int| 1 <= j < events.len() ==> !(#[trigger] events[j] is Start),
    ensures
        ({
            let (end, b) = trace(s, true, events);
            &&& end.transport.paused(true)
            &&& !end.transport.awaiting_start_lock
            &&& b.len() >= 1
            &&& b[0] == STOP
            &&& lacks(b.subrange(1, b.len() as int), CLOCK)
        }),
    decreases events.len(),
{
    if events.len() == 1 {
        reveal_with_fuel(trace, 2);
        assert(events.drop_last() =~= Seq::<OutputEvent>::empty());
        let b = trace(s, true, events).1;
        assert(b =~= seq![STOP]);
        assert(b.subrange(1, b.len() as int) =~= Seq::<u8>::empty());
    } else {
        let pre = events.drop_last();
        let e = events.last();
        assert(pre[0] == events[0]);
        assert forall|j: int| 1 <= j < pre.len() implies !(#[trigger] pre[j] is Start) by {
            assert(pre[j] == events[j]);
        }
        lemma_stop_holds_until_start(s, pre);
        assert(events[events.len() - 1] == e);
        assert(!(e is Start));
        let (mid, a) = trace(s, true, pre);
        let c = mid.step(true, e).1;
        lemma_step_bytes(mid, true, e);
        let b = a + c;
        assert(b[0] == a[0]);
        assert(b.subrange(1, b.len() as int) =~= a.subrange(1, a.len() as int) + c);
        lemma_lacks_concat(a.subrange(1, a.len() as int), c, CLOCK);
    }
}

/// The stage of a start that waited for lock, as seen by a forwarding output.
spec fn deferred_stage(st: OutputTrack, b: Seq<u8>) -> bool {
    &&& st.transport.run_state == super::transport::RunState::Running
    &&& first_clock_led_by_start(b)
    &&& {
        ||| st.transport.awaiting_start_lock && lacks(b, CLOCK)
        ||| !st.transport.awaiting_start_lock && lacks(b, CLOCK) && st.sched.next_k is Some
            && st.sched.pending_start == st.sched.next_k
        ||| !st.transport.awaiting_start_lock && !lacks(b, CLOCK)
    }
}

proof fn lemma_led_append(a: Seq<u8>, c: Seq<u8>)
    requires
        first_clock_led_by_start(a),
        !lacks(a, CLOCK) || lacks(c, CLOCK) || c == seq![START, CLOCK],
    ensures
        first_clock_led_by_start(a + c),
        !lacks(a, CLOCK) ==> !lacks(a + c, CLOCK),
{
    let ac = a + c;
    assert forall|i: int|
        0 <= i < ac.len() && #[trigger] ac[i] == CLOCK && (forall|j: int| 0 <= j < i ==> ac[j] != CLOCK) implies i >= 1
        && ac[i - 1] == START by {
        if i < a.len() {
            assert(ac[i] == a[i]);
            assert forall|j: int| 0 <= j < i implies a[j] != CLOCK by {
                assert(ac[j] == a[j]);
            }
            assert(ac[i - 1] == a[i - 1]);
        } else {
            if !lacks(a, CLOCK) {
                let w = choose|w: int| 0 <= w < a.len() && a[w] == CLOCK;
                assert(ac[w] == a[w]);
            } else if lacks(c, CLOCK) {
                assert(ac[i] == c[i - a.len()]);
            } else {
                assert(c == seq![START, CLOCK]);
                if i == a.len() {
                    assert(ac[i] == c[0]);
                } else {
                    assert(i == a.len() + 1);
                    assert(ac[i - 1] == c[0]);
                }
            }
        }
    }
    if !lacks(a, CLOCK) {
        let w = choose|w: int| 0 <= w < a.len() && a[w] == CLOCK;
        assert(ac[w] == a[w]);
    }
}

proof fn lemma_deferred_stages(s: OutputTrack, events: Seq<OutputEvent>)
    requires
        events.len() >= 1,
        events[0] matches OutputEvent::Start { locked, model_next_k, .. } && !(locked && model_next_k is Some),
        forall|j: int|
            1 <= j < events.len() ==> !(#[trigger] events[j] is Start) && !(events[j] is Stop)
                && !(events[j] matches OutputEvent::Tick { model_next_k: None, .. }),
        forall|j: int|
            1 <= j < events.len() ==> (#[trigger] events[j] matches OutputEvent::LockCheck {
                locked: true,
                model_next_k: Some(_),
                target,
            } ==> target is Some),
    ensures
        deferred_stage(trace(s, true, events).0, trace(s, true, events).1),
    decreases events.len(),
{
    if events.len() == 1 {
        reveal_with_fuel(trace, 2);
        assert(events.drop_last() =~= Seq::<OutputEvent>::empty());
        let b = trace(s, true, events).1;
        assert(b =~= Seq::<u8>::empty());
    } else {
        let pre = events.drop_last();
        let e = events.last();
        assert(pre[0] == events[0]);
        assert forall|j: int|
            1 <= j < pre.len() implies !(#[trigger] pre[j] is Start) && !(pre[j] is Stop)
                && !(pre[j] matches OutputEvent::Tick { model_next_k: None, .. }) by {
            assert(pre[j] == events[j]);
        }
        assert forall|j: int|
            1 <= j < pre.len() implies (#[trigger] pre[j] matches OutputEvent::LockCheck {
                locked: true,
                model_next_k: Some(_),
                target,
            } ==> target is Some) by {
            assert(pre[j] == events[j]);
        }
        lemma_deferred_stages(s, pre);
        assert(events[events.len() - 1] == e);
        let (mid, a) = trace(s, true, pre);
        let (last, c) = mid.step(true, e);
        lemma_step_bytes(mid, true, e);
        if !lacks(c, CLOCK) {
            let w = choose|w: int| 0 <= w < c.len() && c[w] == CLOCK;
            assert(c[w] == CLOCK);
            assert(!mid.transport.paused(true));
            if lacks(a, CLOCK) {
                let mk = e->Tick_model_next_k->Some_0;
                assert(mid.sched.next_index(mk) == mid.sched.next_k->Some_0);
                assert(c == seq![START, CLOCK]);
            }
        }
        lemma_led_append(a, c);
        lemma_lacks_concat(a, c, CLOCK);
    }
}

/// A start that arrives while the estimator is not locked (or has no model)
/// holds a forwarding output: it gets no `0xF8` until the start is armed once the estimator locks,
/// and its first `0xF8` is the one sent right after that `0xFA` — its ticks
/// start just before the start. Stated for runs with no further start or stop,
/// no loss of the model, and a boundary found whenever the start is armed.
pub proof fn lemma_deferred_start_begins_with_start(s: OutputTrack, events: Seq<OutputEvent>)
    requires
        events.len() >= 1,
        events[0] matches OutputEvent::Start { locked, model_next_k, .. } && !(locked && model_next_k is Some),
        forall|j: int|
            1 <= j < events.len() ==> !(#[trigger] events[j] is Start) && !(events[j] is Stop)
                && !(events[j] matches OutputEvent::Tick { model_next_k: None, .. }),
        forall|j: int|
            1 <= j < events.len() ==> (#[trigger] events[j] matches OutputEvent::LockCheck {
                locked: true,
                model_next_k: Some(_),
                target,
            } ==> target is Some),
    ensures
        first_clock_led_by_start(trace(s, true, events).1),
        trace(s, true, events).0.transport.awaiting_start_lock ==> lacks(trace(s, true, events).1, CLOCK),
{
    lemma_deferred_stages(s, events);
}

/// How many times `x` occurs in `b`.
pub open spec fn occurrences(b: Seq<u8>, x: u8) -> nat
    decreases b.len(),
{
    if b.len() == 0 {
        0
    } else {
        occurrences(b.drop_last(), x) + if b.last() == x { 1nat } else { 0nat }
    }
}

/// 1 while the output has a start pending, else 0.
pub open spec fn pending_count(s: OutputTrack) -> nat {
    if s.sched.pending_start is Some { 1 } else { 0 }
}

proof fn lemma_occurrences_concat(a: Seq<u8>, c: Seq<u8>, x: u8)
    ensures
        occurrences(a + c, x) == occurrences(a, x) + occurrences(c, x),
    decreases c.len(),
{
    if c.len() > 0 {
        lemma_occurrences_concat(a, c.drop_last(), x);
        assert((a + c).drop_last() =~= a + c.drop_last());
        assert((a + c).last() == c.last());
    } else {
        assert(a + c =~= a);
    }
}

proof fn lemma_step_sends_pending_start(s: OutputTrack, forward_transport: bool, e: OutputEvent)
    requires
        !(e is Start),
        !(e is LockCheck),
    ensures
        occurrences(s.step(forward_transport, e).1, START) + pending_count(s.step(forward_transport, e).0)
            <= pending_count(s),
{
    reveal_with_fuel(occurrences, 3);
    let b = s.step(forward_transport, e).1;
    assert(seq![START, CLOCK].drop_last() =~= seq![START]);
    assert(seq![START].drop_last() =~= Seq::<u8>::empty());
    assert(seq![CLOCK].drop_last() =~= Seq::<u8>::empty());
    assert(seq![STOP].drop_last() =~= Seq::<u8>::empty());
    assert(seq![CONTINUE].drop_last() =~= Seq::<u8>::empty());
}

/// A start goes out at most once per arming: over events that arm nothing (no
/// start, no lock check), an output is sent `0xFA` at most once, only if a
/// start was pending at the outset, and after it no start is pending any more.
pub proof fn lemma_start_sent_once_per_arming(s: OutputTrack, forward_transport: bool, events: Seq<OutputEvent>)
    requires
        forall|j: int| 0 <= j < events.len() ==> !(#[trigger] events[j] is Start) && !(events[j] is LockCheck),
    ensures
        occurrences(trace(s, forward_transport, events).1, START) + pending_count(
            trace(s, forward_transport, events).0,
        ) <= pending_count(s),
    decreases events.len(),
{
    if events.len() > 0 {
        let pre = events.drop_last();
        assert forall|j: int| 0 <= j < pre.len() implies !(#[trigger] pre[j] is Start) && !(pre[j] is LockCheck) by {
            assert(pre[j] == events[j]);
        }
        lemma_start_sent_once_per_arming(s, forward_transport, pre);
        let (mid, a) = trace(s, forward_transport, pre);
        let e = events.last();
        assert(e == events[events.len() - 1]);
        lemma_step_sends_pending_start(mid, forward_transport, e);
        lemma_occurrences_concat(a, mid.step(forward_transport, e).1, START);
    } else {
        assert(occurrences(Seq::<u8>::empty(), START) == 0);
    }
}

/// What one turn of an output in the tick pass did.
#[derive(Debug, Clone, Copy, PartialEq, Eq, Structural)]
pub enum TickOutcome {
    /// The output is held, or there is no model: nothing sent, its tick
    /// position forgotten.
    Held,
    /// Tick `k` is the output's next one, but it is not due yet.
    NotDue(u64),
    /// Tick `k` went out, with these bytes.
    Sent(u64, TickBytes),
}

impl TickOutcome {
    /// The bytes the output is sent.
    pub open spec fn bytes(self) -> Seq<u8> {
        match self {
            TickOutcome::Sent(_, b) => b.bytes(),
            _ => Seq::empty(),
        }
    }
}

/// One output's turn in the tick pass: a held output (or one with no model)
/// forgets its tick position; otherwise its next tick `k` goes out when
/// `is_due(k)` says its send time has come, preceded by `0xFA` when its pending
/// start is attached to `k`. The result is exactly the `Tick` step of the
/// output's model, with `due` what `is_due` answered.
pub fn tick_pass<F: Fn(u64) -> bool>(
    transport: &TransportState,
    sched: &mut OutputScheduler,
    forward_transport: bool,
    model_next_k: Option<u64>,
    is_due: F,
) -> (r: TickOutcome)
    requires
        forall|k: u64| is_due.requires((k,)),
    ensures
        (r is Held) == (model_next_k is None || transport.paused(forward_transport)),
        r matches TickOutcome::NotDue(k) ==> k == old(sched)@.next_index(model_next_k->0)
            && (k < u64::MAX ==> is_due.ensures((k,), false)),
        r matches TickOutcome::Sent(k, _) ==> k == old(sched)@.next_index(model_next_k->0)
            && is_due.ensures((k,), true),
        r matches TickOutcome::Sent(k, TickBytes::StartThenClock) ==> forward_transport
            && old(sched)@.pending_start == Some(k) && final(sched)@.pending_start is None,
        r matches TickOutcome::Sent(k, TickBytes::Clock) ==> !(forward_transport && old(sched)@.pending_start
            == Some(k)) && final(sched)@.pending_start == old(sched)@.pending_start,
        !(r is Sent) ==> final(sched)@.pending_start == old(sched)@.pending_start,
        ((OutputTrack { transport: *transport, sched: final(sched)@ }, r.bytes())) == (OutputTrack {
            transport: *transport,
            sched: old(sched)@,
        }).step(forward_transport, OutputEvent::Tick { model_next_k, due: r is Sent }),
{
    match model_next_k {
        None => {
            sched.reset();
            TickOutcome::Held
        },
        Some(mk) => {
            if transport.output_paused(forward_transport) {
                sched.reset();
                TickOutcome::Held
            } else {
                let k = sched.peek_next(mk);
                if k < u64::MAX && is_due(k) {
                    let b = send_due_tick(sched, k, forward_transport);
                    proof {
                        assert(TickBytes::StartThenClock.bytes() == seq![START, CLOCK]);
                        assert(TickBytes::Clock.bytes() == seq![CLOCK]);
                    }
                    TickOutcome::Sent(k, b)
                } else {
                    TickOutcome::NotDue(k)
                }
            }
        },
    }
}

} // verus!
