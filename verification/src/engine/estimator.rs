//! Lock state of the incoming clock model: how many ticks the initial fit
//! needs, how a tracked tick is accepted or rejected as an outlier, when the
//! model is re-initialised, and which lock state the UI shows.
//!
//! The model itself (least-squares fit, PLL update, jitter RMS) is floating
//! point and is computed by the caller; it hands in, per tick, whether the
//! tick was an outlier and whether the jitter is below the lock threshold.
use vstd::prelude::*;

verus! {

/// Ticks needed for the initial least-squares fit before tracking starts.
pub const INITIAL_FIT_SAMPLES: usize = 24;
/// Window size for the running jitter RMS.
pub const JITTER_WINDOW: usize = 96;
/// Consecutive outliers before the model is re-initialised.
pub const MAX_OUTLIER_STREAK: u32 = 3;

#[derive(Debug, Clone, Copy, PartialEq, Eq, Structural)]
pub enum LockState {
    NoSignal,
    Acquiring,
    Locked,
}

impl Default for LockState {
    fn default() -> (r: Self)
        ensures
            r == LockState::NoSignal,
    {
        LockState::NoSignal
    }
}

/// Whether enough samples were collected for the initial fit.
pub fn initial_fit_ready(samples: usize) -> (r: bool)
    ensures
        r == (samples >= INITIAL_FIT_SAMPLES),
{
    samples >= INITIAL_FIT_SAMPLES
}

/// What happens to a tick fed to a tracking model.
#[derive(Debug, Clone, Copy, PartialEq, Eq, Structural)]
pub enum TickVerdict {
    /// Within half a period of the prediction: the model is updated with it.
    Accepted,
    /// An outlier, rejected; the model is left as it was.
    Rejected,
    /// The last of `MAX_OUTLIER_STREAK` consecutive outliers: tempo jump or
    /// dropout, the model must be re-initialised from this tick.
    Reacquire,
}

/// The abstract state of a [`TrackingState`].
pub struct TrackingModel {
    /// Index of the next tick to be fed into the model.
    pub k: u64,
    /// Consecutive outliers so far.
    pub outlier_streak: u32,
    /// Jitter was below the lock threshold after the last accepted tick.
    pub locked: bool,
}

impl TrackingModel {
    /// The verdict on a tick, and the state after it (meaningless after
    /// `Reacquire`, which discards the model).
    pub open spec fn on_tick(self, outlier: bool, jitter_below_threshold: bool) -> (TickVerdict, TrackingModel)
        recommends
            self.k < u64::MAX,
    {
        if outlier {
            if self.outlier_streak + 1 >= MAX_OUTLIER_STREAK {
                (TickVerdict::Reacquire, self)
            } else {
                (
                    TickVerdict::Rejected,
                    TrackingModel {
                        k: (self.k + 1) as u64,
                        outlier_streak: (self.outlier_streak + 1) as u32,
                        ..self
                    },
                )
            }
        } else {
            (
                TickVerdict::Accepted,
                TrackingModel { k: (self.k + 1) as u64, outlier_streak: 0, locked: jitter_below_threshold },
            )
        }
    }

    pub open spec fn lock_state(self) -> LockState {
        if self.locked {
            LockState::Locked
        } else {
            LockState::Acquiring
        }
    }
}

/// Tick index, outlier streak and lock flag of a model that is tracking.
#[derive(Debug)]
pub struct TrackingState {
    k: u64,
    outlier_streak: u32,
    locked: bool,
}

impl View for TrackingState {
    type V = TrackingModel;

    closed spec fn view(&self) -> TrackingModel {
        TrackingModel { k: self.k, outlier_streak: self.outlier_streak, locked: self.locked }
    }
}

impl TrackingState {
    #[verifier::type_invariant]
    spec fn streak_below_limit(self) -> bool {
        self.outlier_streak < MAX_OUTLIER_STREAK
    }

    /// Tracking starts after the initial fit over `k` samples: the next tick has
    /// index `k`, no outliers yet, not locked yet.
    pub fn start(k: u64) -> (r: Self)
        ensures
            r@ == (TrackingModel { k, outlier_streak: 0, locked: false }),
    {
        TrackingState { k, outlier_streak: 0, locked: false }
    }

    /// Index of the next tick the model expects.
    pub fn next_k(&self) -> (r: u64)
        ensures
            r == self@.k,
    {
        self.k
    }

    /// `Locked` once jitter has settled below the threshold, `Acquiring` before.
    pub fn lock_state(&self) -> (r: LockState)
        ensures
            r == self@.lock_state(),
    {
        if self.locked {
            LockState::Locked
        } else {
            LockState::Acquiring
        }
    }

    /// Feeds one tick: `outlier` is whether it arrived more than half a period
    /// from its prediction; `jitter_below_threshold` is whether, with this tick
    /// accepted, the jitter RMS is below the lock threshold.
    pub fn on_tick(&mut self, outlier: bool, jitter_below_threshold: bool) -> (verdict: TickVerdict)
        requires
            old(self)@.k < u64::MAX,
        ensures
            (verdict, final(self)@) == old(self)@.on_tick(outlier, jitter_below_threshold),
            final(self)@.outlier_streak < MAX_OUTLIER_STREAK,
            !outlier ==> verdict == TickVerdict::Accepted && final(self)@.locked == jitter_below_threshold,
    {
        proof {
            use_type_invariant(&*self);
        }
        if outlier {
            if self.outlier_streak + 1 >= MAX_OUTLIER_STREAK {
                TickVerdict::Reacquire
            } else {
                self.outlier_streak = self.outlier_streak + 1;
                self.k = self.k + 1;
                TickVerdict::Rejected
            }
        } else {
            self.outlier_streak = 0;
            self.locked = jitter_below_threshold;
            self.k = self.k + 1;
            TickVerdict::Accepted
        }
    }
}

/// The phase of the estimator as a value: no signal; collecting the initial
/// fit's samples (how many so far); or tracking.
pub enum PhaseModel {
    NoSignal,
    Collecting { samples: nat },
    Tracking(TrackingModel),
}

/// What the caller does with the model for a tick.
#[derive(Debug, Clone, Copy, PartialEq, Eq, Structural)]
pub enum TickStep {
    /// First tick after no signal: start collecting from this tick.
    BeginCollecting,
    /// Add this tick's arrival time to the samples.
    Collect,
    /// Add this tick's arrival time, fit the model over all `samples`, and track.
    Fit { samples: usize },
    /// A tracked tick, with its verdict (`Reacquire`: collect afresh from this tick).
    Judged(TickVerdict),
}

impl PhaseModel {
    /// The step for a tick and the phase after it; `outlier` and
    /// `jitter_below_threshold` only matter while tracking.
    pub open spec fn on_tick(self, outlier: bool, jitter_below_threshold: bool) -> (TickStep, PhaseModel) {
        match self {
            PhaseModel::NoSignal => (TickStep::BeginCollecting, PhaseModel::Collecting { samples: 1 }),
            PhaseModel::Collecting { samples } => if samples + 1 >= INITIAL_FIT_SAMPLES {
                (
                    TickStep::Fit { samples: (samples + 1) as usize },
                    PhaseModel::Tracking(
                        TrackingModel { k: (samples + 1) as u64, outlier_streak: 0, locked: false },
                    ),
                )
            } else {
                (TickStep::Collect, PhaseModel::Collecting { samples: samples + 1 })
            },
            PhaseModel::Tracking(t) => {
                let (v, t2) = t.on_tick(outlier, jitter_below_threshold);
                if v == TickVerdict::Reacquire {
                    (TickStep::Judged(v), PhaseModel::Collecting { samples: 1 })
                } else {
                    (TickStep::Judged(v), PhaseModel::Tracking(t2))
                }
            },
        }
    }

    pub open spec fn lock_state(self) -> LockState {
        match self {
            PhaseModel::NoSignal => LockState::NoSignal,
            PhaseModel::Collecting { .. } => LockState::Acquiring,
            PhaseModel::Tracking(t) => t.lock_state(),
        }
    }

    /// The next tick index of the model, which exists only while tracking.
    pub open spec fn model_next_k(self) -> Option<u64> {
        match self {
            PhaseModel::Tracking(t) => Some(t.k),
            _ => None,
        }
    }

    /// `n` ticks that are not outliers, with jitter not yet settled.
    pub open spec fn steady_ticks(self, n: nat) -> PhaseModel
        decreases n,
    {
        if n == 0 {
            self
        } else {
            self.steady_ticks((n - 1) as nat).on_tick(false, false).1
        }
    }
}

enum Phase {
    NoSignal,
    Collecting { samples: usize },
    Tracking(TrackingState),
}

/// The estimator's phase: acquiring the clock, tracking it, or no signal.
pub struct Acquisition {
    phase: Phase,
}

impl View for Acquisition {
    type V = PhaseModel;

    closed spec fn view(&self) -> PhaseModel {
        match self.phase {
            Phase::NoSignal => PhaseModel::NoSignal,
            Phase::Collecting { samples } => PhaseModel::Collecting { samples: samples as nat },
            Phase::Tracking(t) => PhaseModel::Tracking(t@),
        }
    }
}

impl Acquisition {
    #[verifier::type_invariant]
    spec fn collecting_below_fit(self) -> bool {
        self.phase matches Phase::Collecting { samples } ==> 1 <= samples < INITIAL_FIT_SAMPLES
    }

    /// No signal yet.
    pub fn new() -> (r: Self)
        ensures
            r@ == PhaseModel::NoSignal,
    {
        Acquisition { phase: Phase::NoSignal }
    }

    /// `NoSignal`, `Acquiring` while collecting, or the tracking model's lock state.
    pub fn lock_state(&self) -> (r: LockState)
        ensures
            r == self@.lock_state(),
    {
        match &self.phase {
            Phase::NoSignal => LockState::NoSignal,
            Phase::Collecting { .. } => LockState::Acquiring,
            Phase::Tracking(t) => t.lock_state(),
        }
    }

    /// The model's next tick index, if a model exists (tracking).
    pub fn model_next_k(&self) -> (r: Option<u64>)
        ensures
            r == self@.model_next_k(),
    {
        match &self.phase {
            Phase::Tracking(t) => Some(t.next_k()),
            _ => None,
        }
    }

    /// Feeds one tick; `outlier` and `jitter_below_threshold` are the caller's
    /// floating-point verdicts on it, used only while tracking.
    pub fn on_tick(&mut self, outlier: bool, jitter_below_threshold: bool) -> (step: TickStep)
        requires
            old(self)@ matches PhaseModel::Tracking(t) ==> t.k < u64::MAX,
        ensures
            (step, final(self)@) == old(self)@.on_tick(outlier, jitter_below_threshold),
    {
        proof {
            use_type_invariant(&*self);
        }
        let mut phase = Phase::NoSignal;
        std::mem::swap(&mut phase, &mut self.phase);
        let (step, next) = match phase {
            Phase::NoSignal => (TickStep::BeginCollecting, Phase::Collecting { samples: 1 }),
            Phase::Collecting { samples } => {
                let n = samples + 1;
                if initial_fit_ready(n) {
                    (TickStep::Fit { samples: n }, Phase::Tracking(TrackingState::start(n as u64)))
                } else {
                    (TickStep::Collect, Phase::Collecting { samples: n })
                }
            },
            Phase::Tracking(mut t) => {
                let v = t.on_tick(outlier, jitter_below_threshold);
                match v {
                    TickVerdict::Reacquire => (TickStep::Judged(v), Phase::Collecting { samples: 1 }),
                    _ => (TickStep::Judged(v), Phase::Tracking(t)),
                }
            },
        };
        self.phase = next;
        step
    }

    /// No tick for the timeout: back to no signal.
    pub fn on_timeout(&mut self)
        ensures
            final(self)@ == PhaseModel::NoSignal,
    {
        self.phase = Phase::NoSignal;
    }
}

/// Acquisition: the first tick after no signal starts collecting; the lock
/// state is `Acquiring` while the initial fit's 24 samples are collected; the
/// 24th tick fits the model, which then expects tick 24 next, with no outliers
/// yet and not locked; re-initialisation collects afresh from that tick; and a
/// timeout returns to no signal from any phase.
pub proof fn lemma_acquisition(n: nat, t: TrackingModel, jitter_ok: bool)
    requires
        1 <= n <= INITIAL_FIT_SAMPLES,
    ensures
        PhaseModel::NoSignal.on_tick(false, false).0 == TickStep::BeginCollecting,
        n < INITIAL_FIT_SAMPLES ==> PhaseModel::NoSignal.steady_ticks(n) == (PhaseModel::Collecting { samples: n }),
        PhaseModel::NoSignal.steady_ticks(n).lock_state() == LockState::Acquiring,
        PhaseModel::NoSignal.steady_ticks(n).model_next_k() is None <==> n < INITIAL_FIT_SAMPLES,
        PhaseModel::NoSignal.steady_ticks(INITIAL_FIT_SAMPLES as nat) == PhaseModel::Tracking(
            TrackingModel { k: INITIAL_FIT_SAMPLES as u64, outlier_streak: 0, locked: false },
        ),
        (t.outlier_streak + 1 >= MAX_OUTLIER_STREAK) ==> PhaseModel::Tracking(t).on_tick(true, jitter_ok) == (
        TickStep::Judged(TickVerdict::Reacquire), PhaseModel::Collecting { samples: 1 }),
{
    lemma_collecting((INITIAL_FIT_SAMPLES - 1) as nat);
    if n < INITIAL_FIT_SAMPLES {
        lemma_collecting(n);
    }
}

proof fn lemma_collecting(n: nat)
    requires
        1 <= n < INITIAL_FIT_SAMPLES,
    ensures
        PhaseModel::NoSignal.steady_ticks(n) == (PhaseModel::Collecting { samples: n }),
    decreases n,
{
    if n > 1 {
        lemma_collecting((n - 1) as nat);
    } else {
        reveal_with_fuel(PhaseModel::steady_ticks, 2);
    }
}

/// The lock state follows the jitter on every accepted tick: a tick that is not
/// an outlier is accepted, moves the model on by one tick, and leaves it
/// `Locked` exactly when the jitter with that tick is below the threshold —
/// whatever the lock state was before, so a lock is lost again when the
/// jitter rises. A rejected outlier leaves the lock state as it was. The same
/// holds of the whole phase machine while it tracks.
pub proof fn lemma_lock_follows_jitter(t: TrackingModel, jitter_below_threshold: bool, jitter_ok: bool)
    requires
        t.k < u64::MAX,
    ensures
        t.on_tick(false, jitter_below_threshold).0 == TickVerdict::Accepted,
        t.on_tick(false, jitter_below_threshold).1.k == t.k + 1,
        t.on_tick(false, jitter_below_threshold).1.lock_state() == (if jitter_below_threshold {
            LockState::Locked
        } else {
            LockState::Acquiring
        }),
        t.on_tick(true, jitter_ok).0 == TickVerdict::Rejected ==> t.on_tick(true, jitter_ok).1.lock_state()
            == t.lock_state(),
        PhaseModel::Tracking(t).on_tick(false, jitter_below_threshold).0 == TickStep::Judged(TickVerdict::Accepted),
        PhaseModel::Tracking(t).on_tick(false, jitter_below_threshold).1.lock_state() == (if jitter_below_threshold {
            LockState::Locked
        } else {
            LockState::Acquiring
        }),
        PhaseModel::Tracking(t).on_tick(false, jitter_below_threshold).1.model_next_k() == Some((t.k + 1) as u64),
{
}

/// The verdicts on ticks fed one after another from `t` (`outliers[i]`: whether
/// tick `i` is an outlier), and the state after them; nothing more is fed once
/// the model is re-initialised.
pub open spec fn after_ticks(t: TrackingModel, outliers: Seq<bool>, jitter_ok: bool) -> (Seq<TickVerdict>, TrackingModel)
    decreases outliers.len(),
{
    if outliers.len() == 0 {
        (Seq::empty(), t)
    } else {
        let (vs, s) = after_ticks(t, outliers.drop_last(), jitter_ok);
        if vs.len() > 0 && vs.last() == TickVerdict::Reacquire {
            (vs, s)
        } else {
            let (v, s2) = s.on_tick(outliers.last(), jitter_ok);
            (vs.push(v), s2)
        }
    }
}

/// Number of `true` answers at the end of `s`.
pub open spec fn trailing_outliers(s: Seq<bool>) -> nat
    decreases s.len(),
{
    if s.len() == 0 {
        0
    } else if s.last() {
        trailing_outliers(s.drop_last()) + 1
    } else {
        0
    }
}

/// `s` holds `MAX_OUTLIER_STREAK` (three) consecutive outliers somewhere.
pub open spec fn has_outlier_run(s: Seq<bool>) -> bool {
    exists|i: int| 0 <= i && i + 2 < s.len() && #[trigger] s[i] && s[i + 1] && s[i + 2]
}

proof fn lemma_run_split(p: Seq<bool>, x: bool)
    ensures
        has_outlier_run(p.push(x)) == (has_outlier_run(p) || (x && trailing_outliers(p) >= 2)),
        !has_outlier_run(p) ==> trailing_outliers(p) <= 2,
        trailing_outliers(p.push(x)) == if x { trailing_outliers(p) + 1 } else { 0 },
    decreases p.len(),
{
    let s = p.push(x);
    assert(s.drop_last() =~= p);
    if p.len() >= 1 {
        lemma_run_split(p.drop_last(), p.last());
        assert(p.drop_last().push(p.last()) =~= p);
    }
    if p.len() >= 2 {
        let pp = p.drop_last();
        lemma_run_split(pp.drop_last(), pp.last());
        assert(pp.drop_last().push(pp.last()) =~= pp);
    }
    // trailing >= 2 means the last two entries of p are outliers
    if trailing_outliers(p) >= 2 {
        assert(p.len() >= 2);
        assert(p.last());
        assert(p.drop_last().last());
        assert(p[p.len() - 1]);
        assert(p[p.len() - 2]);
    }
    if !has_outlier_run(p) && trailing_outliers(p) >= 3 {
        let pp = p.drop_last();
        assert(pp.len() >= 2);
        assert(pp.drop_last().last());
        assert(p[p.len() - 3] && p[p.len() - 2] && p[p.len() - 1]);
        assert(has_outlier_run(p));
    }
    if has_outlier_run(p) {
        let i = choose|i: int| 0 <= i && i + 2 < p.len() && #[trigger] p[i] && p[i + 1] && p[i + 2];
        assert(s[i] && s[i + 1] && s[i + 2]);
    }
    if x && trailing_outliers(p) >= 2 {
        let i = s.len() - 3;
        assert(s[i] && s[i + 1] && s[i + 2]);
    }
    if has_outlier_run(s) && !has_outlier_run(p) {
        let i = choose|i: int| 0 <= i && i + 2 < s.len() && #[trigger] s[i] && s[i + 1] && s[i + 2];
        if i + 2 < p.len() {
            assert(p[i] && p[i + 1] && p[i + 2]);
        } else {
            assert(i + 2 == p.len());
            assert(x);
            assert(p[p.len() - 1] && p[p.len() - 2]);
            assert(p.last());
            let pp = p.drop_last();
            assert(pp.last());
            assert(trailing_outliers(pp) >= 1);
        }
    }
}

/// Outlier rejection, over any sequence of ticks fed to a freshly started
/// tracking model (`outliers[i]`: whether tick `i` is an outlier): the model is
/// re-initialised exactly when three consecutive outliers occur, at the third
/// of them. Until then every tick is accepted or rejected as it is an outlier
/// or not, the outlier count is the number of consecutive outliers at the end,
/// and the tick index has advanced by one per tick.
pub proof fn lemma_three_consecutive_outliers_reacquire(t: TrackingModel, outliers: Seq<bool>, jitter_ok: bool)
    requires
        t.outlier_streak == 0,
        t.k + outliers.len() <= u64::MAX,
    ensures
        ({
            let (vs, st) = after_ticks(t, outliers, jitter_ok);
            &&& !has_outlier_run(outliers) ==> {
                &&& vs.len() == outliers.len()
                &&& forall|i: int| 0 <= i < vs.len() ==> #[trigger] vs[i] == (if outliers[i] {
                    TickVerdict::Rejected
                } else {
                    TickVerdict::Accepted
                })
                &&& st.outlier_streak == trailing_outliers(outliers)
                &&& st.k == t.k + outliers.len()
            }
            &&& has_outlier_run(outliers) ==> vs.len() > 0 && vs.last() == TickVerdict::Reacquire
        }),
    decreases outliers.len(),
{
    if outliers.len() > 0 {
        let p = outliers.drop_last();
        let x = outliers.last();
        lemma_three_consecutive_outliers_reacquire(t, p, jitter_ok);
        lemma_run_split(p, x);
        assert(p.push(x) =~= outliers);
        let (vp, sp) = after_ticks(t, p, jitter_ok);
        if !has_outlier_run(p) {
            if vp.len() > 0 {
                assert(vp.last() == vp[vp.len() - 1]);
            }
            let (vs, st) = after_ticks(t, outliers, jitter_ok);
            assert(vs == vp.push(sp.on_tick(x, jitter_ok).0));
            if !has_outlier_run(outliers) {
                assert forall|i: int| 0 <= i < vs.len() implies #[trigger] vs[i] == (if outliers[i] {
                    TickVerdict::Rejected
                } else {
                    TickVerdict::Accepted
                }) by {
                    if i < vp.len() {
                        assert(vs[i] == vp[i]);
                        assert(outliers[i] == p[i]);
                    }
                }
            }
        }
    }
}

} // verus!
