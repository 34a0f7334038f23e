//! Start/stop/resync rules: the resync quantum, which boundary a pending output
//! `0xFA` attaches to, and the engine's transport state (running or stopped, a
//! start waiting for lock, the position counter's origin).
use super::scheduler::{OutputScheduler, SchedulerModel};
use super::{OutputPosition, CLOCK, START};
use vstd::prelude::*;

verus! {

/// MIDI clock ticks per 4/4 bar at 24 PPQN.
pub const TICKS_PER_BAR: u64 = 96;

/// Default resync quantum, in bars.
pub const DEFAULT_RESYNC_QUANTUM_BARS: u32 = 1;

/// Ticks per resync quantum of `quantum_bars` bars (at least one bar).
pub open spec fn spec_quantum_ticks(quantum_bars: u32) -> int {
    TICKS_PER_BAR * (if quantum_bars < 1 { 1int } else { quantum_bars as int })
}

/// `Q`: ticks per resync quantum (1, 2 or 4 bars; 0 counts as 1).
pub fn quantum_ticks(quantum_bars: u32) -> (r: u64)
    ensures
        r == spec_quantum_ticks(quantum_bars),
{
    let bars: u64 = if quantum_bars < 1 { 1 } else { quantum_bars as u64 };
    TICKS_PER_BAR * bars
}

/// Whether output ticks currently flow to forward-transport-enabled outputs.
#[derive(Debug, Clone, Copy, PartialEq, Eq, Structural)]
pub enum RunState {
    Running,
    Stopped,
}

impl Default for RunState {
    fn default() -> (r: Self)
        ensures
            r == RunState::Running,
    {
        RunState::Running
    }
}

/// The `n`-th resync boundary counted from the downbeat `k_d`.
pub open spec fn boundary(k_d: u64, quantum_ticks: u64, n: nat) -> int {
    k_d + n * quantum_ticks
}

/// `r` is the resync target for downbeat `k_d`, quantum `quantum_ticks` and
/// first unsent tick `earliest_unsent`: the first boundary `k_d + n·Q` at or
/// after `earliest_unsent` for which `send_in_future` answered `true`, every
/// earlier such boundary having been answered `false`; or `None` when every
/// such boundary representable as a `u64` was answered `false`.
pub open spec fn is_resync_result<F: Fn(u64) -> bool>(
    k_d: u64,
    quantum_ticks: u64,
    earliest_unsent: u64,
    send_in_future: F,
    r: Option<u64>,
) -> bool {
    match r {
        Some(t) => exists|n: nat|
            {
                &&& t == #[trigger] boundary(k_d, quantum_ticks, n)
                &&& t >= earliest_unsent
                &&& send_in_future.ensures((t,), true)
                &&& forall|m: nat|
                    m < n && #[trigger] boundary(k_d, quantum_ticks, m) >= earliest_unsent
                        ==> send_in_future.ensures((boundary(k_d, quantum_ticks, m) as u64,), false)
            },
        None => forall|m: nat|
            earliest_unsent <= #[trigger] boundary(k_d, quantum_ticks, m) <= u64::MAX
                ==> send_in_future.ensures((boundary(k_d, quantum_ticks, m) as u64,), false),
    }
}

/// The smallest boundary `k_d + n·Q` (`n >= 0`) that this output has not
/// already sent (`>= earliest_unsent`) and whose send time is still in the
/// future, as `send_in_future` reports for a tick index. `None` if no boundary
/// representable as a `u64` qualifies.
pub fn resync_target<F: Fn(u64) -> bool>(
    k_d: u64,
    quantum_ticks: u64,
    earliest_unsent: u64,
    send_in_future: F,
) -> (r: Option<u64>)
    requires
        quantum_ticks > 0,
        forall|k: u64| send_in_future.requires((k,)),
    ensures
        is_resync_result(k_d, quantum_ticks, earliest_unsent, send_in_future, r),
{
    let mut candidate: u64 = k_d;
    let ghost mut n: nat = 0;
    loop
        invariant
            quantum_ticks > 0,
            forall|k: u64| send_in_future.requires((k,)),
            candidate == boundary(k_d, quantum_ticks, n),
            forall|m: nat|
                m < n && #[trigger] boundary(k_d, quantum_ticks, m) >= earliest_unsent
                    ==> send_in_future.ensures((boundary(k_d, quantum_ticks, m) as u64,), false),
        decreases u64::MAX - candidate,
    {
        if candidate >= earliest_unsent {
            let in_future = send_in_future(candidate);
            if in_future {
                return Some(candidate);
            }
        }
        if candidate > u64::MAX - quantum_ticks {
            proof {
                assert forall|m: nat|
                    earliest_unsent <= #[trigger] boundary(k_d, quantum_ticks, m) <= u64::MAX implies
                    send_in_future.ensures((boundary(k_d, quantum_ticks, m) as u64,), false) by {
                    if m > n {
                        assert(boundary(k_d, quantum_ticks, m) >= boundary(k_d, quantum_ticks, n) + quantum_ticks) by (nonlinear_arith)
                            requires m > n, quantum_ticks > 0;
                    }
                }
            }
            return None;
        }
        assert(boundary(k_d, quantum_ticks, n + 1) == candidate + quantum_ticks) by (nonlinear_arith)
            requires candidate == boundary(k_d, quantum_ticks, n);
        candidate = candidate + quantum_ticks;
        proof {
            n = n + 1;
        }
    }
}


/// The engine's transport state: whether forwarding outputs run or are
/// stopped, whether a start is waiting for the estimator to lock, where the
/// position counter starts, and the resync/continue settings.
#[derive(Debug, Clone, Copy, PartialEq, Eq, Structural)]
pub struct TransportState {
    pub run_state: RunState,
    /// A start arrived while the estimator was not locked yet; armed as soon
    /// as it locks.
    pub awaiting_start_lock: bool,
    /// The position counter's origin: input tick index of the last processed
    /// downbeat, tick 0 of bar 0.
    pub bar0_tick: Option<u64>,
    pub resync_quantum_bars: u32,
    /// Whether an incoming `0xFB` continue is forwarded.
    pub forward_continue: bool,
}

impl TransportState {
    /// Running, no start pending, no position yet, 1-bar quantum, continue not forwarded.
    pub open spec fn initial() -> TransportState {
        TransportState {
            run_state: RunState::Running,
            awaiting_start_lock: false,
            bar0_tick: None,
            resync_quantum_bars: DEFAULT_RESYNC_QUANTUM_BARS,
            forward_continue: false,
        }
    }

    /// The state after an incoming (or manual) start, and the downbeat index to
    /// arm the outputs at, if the estimator is locked and has a model now.
    pub open spec fn after_start(self, locked: bool, model_next_k: Option<u64>) -> (TransportState, Option<u64>) {
        if locked && model_next_k is Some {
            (
                TransportState {
                    run_state: RunState::Running,
                    awaiting_start_lock: false,
                    bar0_tick: model_next_k,
                    ..self
                },
                model_next_k,
            )
        } else {
            (TransportState { run_state: RunState::Running, awaiting_start_lock: true, ..self }, None)
        }
    }

    /// The state after a lock check, and the downbeat index to arm the outputs
    /// at, if a start was waiting and the estimator is now locked with a model.
    pub open spec fn after_lock_check(self, locked: bool, model_next_k: Option<u64>) -> (TransportState, Option<u64>) {
        if self.awaiting_start_lock && locked && model_next_k is Some {
            (TransportState { awaiting_start_lock: false, bar0_tick: model_next_k, ..self }, model_next_k)
        } else {
            (self, None)
        }
    }

    /// The state after an incoming `0xFC`.
    pub open spec fn after_stop(self) -> TransportState {
        TransportState { run_state: RunState::Stopped, awaiting_start_lock: false, ..self }
    }

    /// Whether an output's ticks are held back: a forwarding output after a stop
    /// until the next start, and while a start waits for the estimator to lock.
    pub open spec fn paused(self, forward_transport: bool) -> bool {
        forward_transport && (self.run_state == RunState::Stopped || self.awaiting_start_lock)
    }

    pub fn new() -> (r: Self)
        ensures
            r == TransportState::initial(),
    {
        TransportState {
            run_state: RunState::Running,
            awaiting_start_lock: false,
            bar0_tick: None,
            resync_quantum_bars: DEFAULT_RESYNC_QUANTUM_BARS,
            forward_continue: false,
        }
    }

    pub fn set_resync_quantum_bars(&mut self, quantum_bars: u32)
        ensures
            *final(self) == (TransportState { resync_quantum_bars: quantum_bars, ..*old(self) }),
    {
        self.resync_quantum_bars = quantum_bars;
    }

    pub fn set_forward_continue(&mut self, forward: bool)
        ensures
            *final(self) == (TransportState { forward_continue: forward, ..*old(self) }),
    {
        self.forward_continue = forward;
    }

    /// `Q` for the current quantum setting.
    pub fn quantum_ticks(&self) -> (r: u64)
        ensures
            r == spec_quantum_ticks(self.resync_quantum_bars),
    {
        quantum_ticks(self.resync_quantum_bars)
    }

    /// Handles an incoming (or manual) start: transport runs again; if the
    /// estimator is locked with a model, returns the downbeat index `k_d`
    /// (the model's next tick) to arm every forwarding output at, and makes it
    /// tick 0 of bar 0; otherwise the start waits for lock.
    pub fn begin_start(&mut self, locked: bool, model_next_k: Option<u64>) -> (arm_at: Option<u64>)
        ensures
            (*final(self), arm_at) == old(self).after_start(locked, model_next_k),
    {
        self.run_state = RunState::Running;
        if locked && model_next_k.is_some() {
            self.awaiting_start_lock = false;
            self.bar0_tick = model_next_k;
            model_next_k
        } else {
            self.awaiting_start_lock = true;
            None
        }
    }

    /// Arms a start that was waiting for lock, once the estimator is locked with
    /// a model: returns the downbeat index to arm the outputs at.
    pub fn arm_when_locked(&mut self, locked: bool, model_next_k: Option<u64>) -> (arm_at: Option<u64>)
        ensures
            (*final(self), arm_at) == old(self).after_lock_check(locked, model_next_k),
    {
        if self.awaiting_start_lock && locked && model_next_k.is_some() {
            self.awaiting_start_lock = false;
            self.bar0_tick = model_next_k;
            model_next_k
        } else {
            None
        }
    }

    /// Handles an incoming `0xFC`: forwarding outputs stop until the next start,
    /// and a start waiting for lock is dropped.
    pub fn handle_stop(&mut self)
        ensures
            *final(self) == old(self).after_stop(),
    {
        self.run_state = RunState::Stopped;
        self.awaiting_start_lock = false;
    }

    /// Whether an output's ticks are held back: forwarding outputs while stopped,
    /// and while a start waits for the estimator to lock (their ticks then begin
    /// with the start armed once it locks).
    pub fn output_paused(&self, forward_transport: bool) -> (r: bool)
        ensures
            r == self.paused(forward_transport),
    {
        forward_transport && (self.run_state == RunState::Stopped || self.awaiting_start_lock)
    }

    /// Whether an incoming `0xFB` is passed on to an output.
    pub fn continue_forwarded(&self, forward_transport: bool) -> (r: bool)
        ensures
            r == (self.forward_continue && forward_transport),
    {
        self.forward_continue && forward_transport
    }

    /// The pending-start indicator: a start waits for lock, or some forwarding
    /// output has a start armed (`forwarding_pending[i]` for each forwarding output).
    pub fn start_pending(&self, forwarding_pending: &[bool]) -> (r: bool)
        ensures
            r == (self.awaiting_start_lock || forwarding_pending@.contains(true)),
    {
        if self.awaiting_start_lock {
            return true;
        }
        let mut i: usize = 0;
        while i < forwarding_pending.len()
            invariant
                i <= forwarding_pending@.len(),
                forall|j: int| 0 <= j < i ==> !forwarding_pending@[j],
            decreases forwarding_pending@.len() - i,
        {
            if forwarding_pending[i] {
                return true;
            }
            i = i + 1;
        }
        false
    }

    /// The output position of the latest tick sent (`reference_k`) relative to
    /// the position counter's origin.
    pub fn output_position(&self, reference_k: Option<u64>) -> (r: Option<OutputPosition>)
        ensures
            r == position_of(self.bar0_tick, reference_k, self.resync_quantum_bars),
    {
        output_position(self.bar0_tick, reference_k, self.resync_quantum_bars)
    }
}

/// The output position of tick `reference_k` when tick `bar0` is tick 0 of
/// bar 0: the tick within its 4/4 bar and the bar within the resync quantum.
/// None before a downbeat, without a sent tick, or for a tick before `bar0`.
pub open spec fn position_of(bar0: Option<u64>, reference_k: Option<u64>, quantum_bars: u32) -> Option<OutputPosition> {
    match (bar0, reference_k) {
        (Some(b), Some(k)) => if k >= b {
            let elapsed = k - b;
            Some(
                OutputPosition {
                    tick_in_bar: (elapsed % (TICKS_PER_BAR as int)) as u32,
                    bar_in_phrase: ((elapsed % spec_quantum_ticks(quantum_bars)) / (TICKS_PER_BAR as int)) as u32,
                },
            )
        } else {
            None
        },
        _ => None,
    }
}

/// Output position of `reference_k` against the origin `bar0` for a quantum of
/// `quantum_bars` bars.
pub fn output_position(bar0: Option<u64>, reference_k: Option<u64>, quantum_bars: u32) -> (r: Option<OutputPosition>)
    ensures
        r == position_of(bar0, reference_k, quantum_bars),
        r matches Some(p) ==> p.tick_in_bar < TICKS_PER_BAR && p.bar_in_phrase
            < (if quantum_bars < 1 { 1 } else { quantum_bars }),
{
    match (bar0, reference_k) {
        (Some(b), Some(k)) => {
            if k >= b {
                let elapsed = k - b;
                let q = quantum_ticks(quantum_bars);
                let in_phrase = elapsed % q;
                let bars: u64 = if quantum_bars < 1 { 1 } else { quantum_bars as u64 };
                assert(in_phrase / TICKS_PER_BAR < bars) by (nonlinear_arith)
                    requires in_phrase < q, q == TICKS_PER_BAR * bars, bars >= 1;
                Some(
                    OutputPosition {
                        tick_in_bar: (elapsed % TICKS_PER_BAR) as u32,
                        bar_in_phrase: (in_phrase / TICKS_PER_BAR) as u32,
                    },
                )
            } else {
                None
            }
        },
        _ => None,
    }
}


/// A stop holds every forwarding output until the next start, never holds an
/// output that does not forward start/stop, and drops a start that was still
/// waiting for lock, so that later lock checks arm nothing.
pub proof fn lemma_stop_holds_forwarding_outputs_until_start(
    t: TransportState,
    locked: bool,
    model_next_k: Option<u64>,
    k: u64,
)
    ensures
        t.after_stop().paused(true),
        !t.after_stop().paused(false),
        t.after_stop().after_lock_check(locked, model_next_k).1 is None,
        !t.after_stop().after_start(true, Some(k)).0.paused(true),
{
}

/// A start that arrives before the estimator is locked is deferred, and holds
/// every forwarding output (and no other) while it waits; it is then armed
/// exactly once, at the first lock check that finds the estimator locked, at
/// that model's next tick, which releases the forwarding outputs; later lock
/// checks arm nothing more. A start while locked arms immediately.
pub proof fn lemma_deferred_start_arms_once(t: TransportState, model_before: Option<u64>, k_d: u64, locked_later: bool, model_later: Option<u64>)
    ensures
        t.after_start(false, model_before).1 is None,
        t.after_start(false, model_before).0.awaiting_start_lock,
        t.after_start(false, model_before).0.paused(true),
        !t.after_start(false, model_before).0.paused(false),
        ({
            let waiting = t.after_start(false, model_before).0;
            let (armed_state, armed_at) = waiting.after_lock_check(true, Some(k_d));
            &&& armed_at == Some(k_d)
            &&& !armed_state.paused(true)
            &&& armed_state.bar0_tick == Some(k_d)
            &&& armed_state.after_lock_check(locked_later, model_later).1 is None
        }),
        t.after_start(true, Some(k_d)).1 == Some(k_d),
        !t.after_start(true, Some(k_d)).0.awaiting_start_lock,
{
}

/// The position counter restarts at every resync boundary: the downbeat `k_d`
/// that a start armed, and every boundary `k_d + n·Q` after it, is tick 0 of
/// bar 0; any later tick has a tick-in-bar below 96 and a bar within the quantum.
pub proof fn lemma_position_restarts_at_boundaries(k_d: u64, quantum_bars: u32, n: nat, k: u64)
    requires
        k_d + n * spec_quantum_ticks(quantum_bars) <= u64::MAX,
    ensures
        position_of(Some(k_d), Some((k_d + n * spec_quantum_ticks(quantum_bars)) as u64), quantum_bars)
            == Some(OutputPosition { tick_in_bar: 0, bar_in_phrase: 0 }),
        k >= k_d ==> (position_of(Some(k_d), Some(k), quantum_bars) matches Some(p)
            && p.tick_in_bar < TICKS_PER_BAR
            && p.bar_in_phrase < (if quantum_bars < 1 { 1 } else { quantum_bars })),
{
    let q = spec_quantum_ticks(quantum_bars);
    let bars: int = if quantum_bars < 1 { 1 } else { quantum_bars as int };
    assert(q == 96 * bars);
    let e = n * q;
    assert(e == (n as int) * q);
    vstd::arithmetic::div_mod::lemma_mod_multiples_basic(n as int, q);
    assert(e == (n * bars) * 96) by (nonlinear_arith)
        requires e == n * q, q == 96 * bars;
    vstd::arithmetic::div_mod::lemma_mod_multiples_basic(n * bars, 96);
    assert(0int / 96 == 0);
    if k >= k_d {
        let el = k - k_d;
        let r = el % q;
        assert(r / 96 < bars) by (nonlinear_arith)
            requires 0 <= r < q, q == 96 * bars, bars >= 1;
        assert(r / 96 < u32::MAX + 1);
    }
}

/// The output position counts the ticks sent since the downbeat `b`: tick
/// `b + j` is tick `j mod 96` of its 4/4 bar (so a bar runs through every tick
/// 0..95) and bar `(j mod Q) / 96` of the quantum; the downbeat itself is tick 0
/// of bar 0, a tick before it has no position, and each further tick moves the
/// tick-in-bar on by one, wrapping after 95 into the next bar of the quantum,
/// which wraps after the quantum's last bar.
pub proof fn lemma_position_counts_ticks(b: u64, j: nat, quantum_bars: u32, early: u64)
    requires
        b + j + 1 <= u64::MAX,
    ensures
        ({
            let bars: int = if quantum_bars < 1 { 1 } else { quantum_bars as int };
            let p = position_of(Some(b), Some((b + j) as u64), quantum_bars);
            let p2 = position_of(Some(b), Some((b + j + 1) as u64), quantum_bars);
            &&& p == Some(OutputPosition {
                tick_in_bar: (j % 96) as u32,
                bar_in_phrase: (((j as int) % (96 * bars)) / 96) as u32,
            })
            &&& p->0.tick_in_bar < 96
            &&& p->0.bar_in_phrase < bars
            &&& p2->0.tick_in_bar == (p->0.tick_in_bar + 1) % 96
            &&& p2->0.bar_in_phrase == (if p->0.tick_in_bar == 95 {
                (p->0.bar_in_phrase + 1) % bars
            } else {
                p->0.bar_in_phrase as int
            })
        }),
        position_of(Some(b), Some(b), quantum_bars) == Some(OutputPosition { tick_in_bar: 0, bar_in_phrase: 0 }),
        early < b ==> position_of(Some(b), Some(early), quantum_bars) is None,
{
    let bars: int = if quantum_bars < 1 { 1 } else { quantum_bars as int };
    let q: int = 96 * bars;
    assert(spec_quantum_ticks(quantum_bars) == q);
    lemma_count_in_cycle(j as int, bars);
    assert(0int % 96 == 0);
    assert(0int % q == 0) by (nonlinear_arith) requires q >= 96;
    assert(0int / 96 == 0);
    assert((((j as int) % q) / 96) < bars) by (nonlinear_arith)
        requires q == 96 * bars, bars >= 1;
    assert((((j + 1) as int % q) / 96) < bars) by (nonlinear_arith)
        requires q == 96 * bars, bars >= 1;
}

/// Counting `j` in a cycle of `bars` bars of 96 ticks: one more tick moves the
/// tick on by one, and the bar on when the tick wraps.
proof fn lemma_count_in_cycle(j: int, bars: int)
    requires
        j >= 0,
        bars >= 1,
    ensures
        (j + 1) % 96 == (j % 96 + 1) % 96,
        ((j + 1) % (96 * bars)) / 96 == (if j % 96 == 95 {
            ((j % (96 * bars)) / 96 + 1) % bars
        } else {
            (j % (96 * bars)) / 96
        }),
{
    let q = 96 * bars;
    vstd::arithmetic::div_mod::lemma_add_mod_noop(j, 1, 96);
    assert(1int % 96 == 1);
    vstd::arithmetic::div_mod::lemma_mod_mod(j, 96, bars);
    vstd::arithmetic::div_mod::lemma_add_mod_noop(j, 1, q);
    assert(1int % q == 1) by (nonlinear_arith) requires q == 96 * bars, bars >= 1;
    let r = j % q;
    assert(0 <= r < q) by (nonlinear_arith) requires q == 96 * bars, bars >= 1, r == j % q;
    let a = r / 96;
    let t = r % 96;
    assert(r == 96 * a + t && 0 <= t < 96) by (nonlinear_arith) requires r >= 0, a == r / 96, t == r % 96;
    assert(a < bars) by (nonlinear_arith) requires r == 96 * a + t, 0 <= t, r < q, q == 96 * bars;
    assert(a >= 0) by (nonlinear_arith) requires r == 96 * a + t, t < 96, r >= 0;
    assert(j % 96 == t);
    assert((j + 1) % q == (r + 1) % q);
    if t == 95 {
        if a + 1 == bars {
            assert(r + 1 == q);
            assert((r + 1) % q == 0) by (nonlinear_arith) requires r + 1 == q, q > 0;
            assert((a + 1) % bars == 0) by (nonlinear_arith) requires a + 1 == bars, bars > 0;
            assert(0int / 96 == 0);
        } else {
            assert(r + 1 < q) by (nonlinear_arith) requires r == 96 * a + 95, a + 1 < bars, q == 96 * bars;
            vstd::arithmetic::div_mod::lemma_small_mod((r + 1) as nat, q as nat);
            assert((r + 1) / 96 == a + 1) by (nonlinear_arith) requires r == 96 * a + 95;
            vstd::arithmetic::div_mod::lemma_small_mod((a + 1) as nat, bars as nat);
        }
    } else {
        assert(r + 1 < q) by (nonlinear_arith) requires r == 96 * a + t, t < 95, a < bars, q == 96 * bars;
        vstd::arithmetic::div_mod::lemma_small_mod((r + 1) as nat, q as nat);
        assert((r + 1) / 96 == a) by (nonlinear_arith) requires r == 96 * a + t, 0 <= t < 95;
    }
}

/// `latest_of` is the largest sent tick: `None` exactly when no entry has sent
/// a tick, and otherwise a tick some entry sent that no entry's tick exceeds.
pub proof fn lemma_latest_is_largest(ks: Seq<Option<u64>>)
    ensures
        (latest_of(ks) is None) == (forall|i: int| 0 <= i < ks.len() ==> #[trigger] ks[i] is None),
        latest_of(ks) matches Some(m) ==> (exists|i: int| 0 <= i < ks.len() && #[trigger] ks[i] == Some(m))
            && (forall|i: int| 0 <= i < ks.len() && #[trigger] ks[i] is Some ==> ks[i]->0 <= m),
    decreases ks.len(),
{
    if ks.len() > 0 {
        let pre = ks.drop_last();
        lemma_latest_is_largest(pre);
        assert forall|i: int| 0 <= i < pre.len() implies #[trigger] pre[i] == ks[i] by {}
        let n = ks.len() - 1;
        if latest_of(ks) is None {
            assert forall|i: int| 0 <= i < ks.len() implies #[trigger] ks[i] is None by {
                if i < n {
                    assert(pre[i] == ks[i]);
                }
            }
        }
        match latest_of(ks) {
            Some(m) => {
                match latest_of(pre) {
                    Some(pm) => {
                        let w = choose|i: int| 0 <= i < pre.len() && #[trigger] pre[i] == Some(pm);
                        assert(pre[w] == ks[w]);
                        match ks[n] {
                            Some(k) => {
                                if k > pm {
                                    assert(ks[n] == Some(m));
                                } else {
                                    assert(ks[w] == Some(m));
                                }
                            },
                            None => {
                                assert(ks[w] == Some(m));
                            },
                        }
                    },
                    None => {
                        assert(ks[n] == Some(m));
                    },
                }
                assert forall|i: int| 0 <= i < ks.len() && #[trigger] ks[i] is Some implies ks[i]->0 <= m by {
                    if i < n {
                        assert(pre[i] == ks[i]);
                    }
                }
            },
            None => {},
        }
    }
}

/// The largest of the sent tick indices in `ks` (`None` entries are outputs
/// that sent nothing yet).
pub open spec fn latest_of(ks: Seq<Option<u64>>) -> Option<u64>
    decreases ks.len(),
{
    if ks.len() == 0 {
        None
    } else {
        let rest = latest_of(ks.drop_last());
        match (ks.last(), rest) {
            (Some(k), Some(m)) => Some(if k > m { k } else { m }),
            (Some(k), None) => Some(k),
            (None, _) => rest,
        }
    }
}

/// The reference tick for the output position: the latest tick any forwarding
/// output has sent.
pub fn latest_committed(ks: &[Option<u64>]) -> (r: Option<u64>)
    ensures
        r == latest_of(ks@),
        (r is None) == (forall|i: int| 0 <= i < ks@.len() ==> #[trigger] ks@[i] is None),
        r matches Some(m) ==> (exists|i: int| 0 <= i < ks@.len() && #[trigger] ks@[i] == Some(m))
            && (forall|i: int| 0 <= i < ks@.len() && #[trigger] ks@[i] is Some ==> ks@[i]->0 <= m),
{
    proof {
        lemma_latest_is_largest(ks@);
    }
    let mut best: Option<u64> = None;
    let mut i: usize = 0;
    while i < ks.len()
        invariant
            i <= ks@.len(),
            best == latest_of(ks@.subrange(0, i as int)),
        decreases ks@.len() - i,
    {
        assert(ks@.subrange(0, i as int + 1).drop_last() == ks@.subrange(0, i as int));
        best = match (ks[i], best) {
            (Some(k), Some(m)) => Some(if k > m { k } else { m }),
            (Some(k), None) => Some(k),
            (None, b) => b,
        };
        i = i + 1;
    }
    assert(ks@.subrange(0, ks@.len() as int) == ks@);
    best
}

/// Arms a pending start on one output for a resync at downbeat `k_d`: only a
/// forwarding output is armed, at the smallest boundary it has not sent yet
/// whose send time is still in the future. With `hold_until_start` (a start
/// that waited for lock, while the output's ticks were held) the output's
/// ticks then begin at that boundary, the first one carrying the start;
/// otherwise its ticks run on and the start is attached to that boundary.
/// Returns the armed target.
pub fn arm_output_start<F: Fn(u64) -> bool>(
    sched: &mut OutputScheduler,
    forward_transport: bool,
    k_d: u64,
    quantum_ticks: u64,
    model_next_k: u64,
    hold_until_start: bool,
    send_in_future: F,
) -> (armed: Option<u64>)
    requires
        quantum_ticks > 0,
        forall|k: u64| send_in_future.requires((k,)),
    ensures
        !forward_transport ==> armed is None && final(sched)@ == old(sched)@,
        forward_transport ==> is_resync_result(
            k_d,
            quantum_ticks,
            old(sched)@.next_index(model_next_k),
            send_in_future,
            armed,
        ),
        final(sched)@ == armed_model(old(sched)@, armed, hold_until_start),
{
    if !forward_transport {
        return None;
    }
    let earliest = sched.next_unsent_k(model_next_k);
    let target = resync_target(k_d, quantum_ticks, earliest, send_in_future);
    match target {
        Some(t) => {
            if hold_until_start {
                sched.start_at(t);
            } else {
                sched.arm_start(t);
            }
            Some(t)
        },
        None => None,
    }
}

/// An output's scheduling state after arming at `armed` (nothing armed: unchanged).
pub open spec fn armed_model(m: SchedulerModel, armed: Option<u64>, hold_until_start: bool) -> SchedulerModel {
    match armed {
        Some(t) => if hold_until_start {
            m.started_at(t)
        } else {
            SchedulerModel { pending_start: Some(t), ..m }
        },
        None => m,
    }
}

/// The bytes that go out for one due tick, in order.
#[derive(Debug, Clone, Copy, PartialEq, Eq, Structural)]
pub enum TickBytes {
    /// `0xF8` alone.
    Clock,
    /// `0xFA` immediately followed by `0xF8`.
    StartThenClock,
}

impl TickBytes {
    pub open spec fn bytes(self) -> Seq<u8> {
        match self {
            TickBytes::Clock => seq![CLOCK],
            TickBytes::StartThenClock => seq![START, CLOCK],
        }
    }
}

/// Sends due tick `k` of an output: whether its `0xF8` is preceded by `0xFA`
/// (the output forwards start/stop and its pending start is attached to `k`),
/// and the output moves on to tick `k + 1`.
pub fn send_due_tick(sched: &mut OutputScheduler, k: u64, forward_transport: bool) -> (r: TickBytes)
    requires
        k < u64::MAX,
    ensures
        r == if forward_transport && old(sched)@.start_due_at(k) {
            TickBytes::StartThenClock
        } else {
            TickBytes::Clock
        },
        final(sched)@ == (if forward_transport {
            old(sched)@.after_due_check(k)
        } else {
            old(sched)@
        }).committed(k),
{
    let start = start_due(sched, k, forward_transport);
    sched.commit(k);
    if start {
        TickBytes::StartThenClock
    } else {
        TickBytes::Clock
    }
}

/// Whether an `0xFA` goes out immediately before output tick `k`: only on a
/// forwarding output, and only for the tick its pending start is attached to
/// (which consumes it).
pub fn start_due(sched: &mut OutputScheduler, k: u64, forward_transport: bool) -> (due: bool)
    ensures
        due == (forward_transport && old(sched)@.start_due_at(k)),
        final(sched)@ == if forward_transport { old(sched)@.after_due_check(k) } else { old(sched)@ },
{
    forward_transport && sched.take_due_start(k)
}

/// Handles an incoming `0xFC` for one output: a forwarding output has its
/// pending start cancelled and is sent `0xFC` (returns `true`); any other output
/// is left alone.
pub fn stop_output(sched: &mut OutputScheduler, forward_transport: bool) -> (send_stop: bool)
    ensures
        send_stop == forward_transport,
        final(sched)@ == if forward_transport {
            SchedulerModel { pending_start: None, ..old(sched)@ }
        } else {
            old(sched)@
        },
{
    if forward_transport {
        sched.cancel_start();
        true
    } else {
        false
    }
}

} // verus!
