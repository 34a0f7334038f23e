//! Per-output tick position: which input tick index an output sends next, the
//! index its pending `0xFA` is attached to, and the last index it sent.
//!
//! The send *times* of those ticks (offset, trim, slewing, catch-up spacing) are
//! computed by the caller in floating point; everything that decides *which*
//! tick comes next lives here.
use vstd::prelude::*;

verus! {

/// The abstract state of an [`OutputScheduler`].
pub struct SchedulerModel {
    /// Next output tick index to send; `None` until (re)initialised from a model.
    pub next_k: Option<u64>,
    /// Input tick index a pending output `0xFA` is sent immediately before.
    pub pending_start: Option<u64>,
    /// The last tick index actually sent.
    pub last_committed_k: Option<u64>,
}

impl SchedulerModel {
    pub open spec fn fresh() -> SchedulerModel {
        SchedulerModel { next_k: None, pending_start: None, last_committed_k: None }
    }

    /// The tick the output sends next, given the estimator's next expected index.
    pub open spec fn next_index(self, model_next_k: u64) -> u64 {
        match self.next_k {
            Some(k) => k,
            None => model_next_k,
        }
    }

    /// State after peeking: the next index is fixed.
    pub open spec fn peeked(self, model_next_k: u64) -> SchedulerModel {
        SchedulerModel { next_k: Some(self.next_index(model_next_k)), ..self }
    }

    /// State after tick `k` was sent.
    pub open spec fn committed(self, k: u64) -> SchedulerModel
        recommends
            k < u64::MAX,
    {
        SchedulerModel { next_k: Some((k + 1) as u64), last_committed_k: Some(k), ..self }
    }

    /// State after the output is set to begin at tick `target`, with the start
    /// attached to that very tick.
    pub open spec fn started_at(self, target: u64) -> SchedulerModel {
        SchedulerModel { next_k: Some(target), pending_start: Some(target), ..self }
    }

    /// Whether a due start is reported for tick `k`.
    pub open spec fn start_due_at(self, k: u64) -> bool {
        self.pending_start == Some(k)
    }

    /// State after asking whether tick `k` carries the pending start.
    pub open spec fn after_due_check(self, k: u64) -> SchedulerModel {
        if self.start_due_at(k) {
            SchedulerModel { pending_start: None, ..self }
        } else {
            self
        }
    }

    /// One tick sent on schedule: peek the index, report whether the pending
    /// start is due there, then commit it.
    pub open spec fn step(self, model_next_k: u64) -> SchedulerModel {
        let k = self.next_index(model_next_k);
        self.peeked(model_next_k).after_due_check(k).committed(k)
    }

    /// `n` ticks sent on schedule.
    pub open spec fn run(self, model_next_k: u64, n: nat) -> SchedulerModel
        decreases n,
    {
        if n == 0 {
            self
        } else {
            self.run(model_next_k, (n - 1) as nat).step(model_next_k)
        }
    }

    /// The tick indices sent by `n` ticks on schedule, in order.
    pub open spec fn run_ticks(self, model_next_k: u64, n: nat) -> Seq<u64>
        decreases n,
    {
        if n == 0 {
            Seq::empty()
        } else {
            let before = self.run(model_next_k, (n - 1) as nat);
            self.run_ticks(model_next_k, (n - 1) as nat).push(before.next_index(model_next_k))
        }
    }

    /// The tick indices at which a start fired during `n` ticks on schedule.
    pub open spec fn run_starts(self, model_next_k: u64, n: nat) -> Seq<u64>
        decreases n,
    {
        if n == 0 {
            Seq::empty()
        } else {
            let before = self.run(model_next_k, (n - 1) as nat);
            let k = before.next_index(model_next_k);
            let earlier = self.run_starts(model_next_k, (n - 1) as nat);
            if before.start_due_at(k) {
                earlier.push(k)
            } else {
                earlier
            }
        }
    }
}

/// Scheduling position of a single output.
#[derive(Debug)]
pub struct OutputScheduler {
    next_k: Option<u64>,
    pending_start: Option<u64>,
    last_committed_k: Option<u64>,
}

impl View for OutputScheduler {
    type V = SchedulerModel;

    closed spec fn view(&self) -> SchedulerModel {
        SchedulerModel {
            next_k: self.next_k,
            pending_start: self.pending_start,
            last_committed_k: self.last_committed_k,
        }
    }
}

impl Default for OutputScheduler {
    fn default() -> (r: Self)
        ensures
            r@ == SchedulerModel::fresh(),
    {
        OutputScheduler::new()
    }
}

impl OutputScheduler {
    /// No position, no pending start, nothing sent yet.
    pub fn new() -> (r: Self)
        ensures
            r@ == SchedulerModel::fresh(),
    {
        OutputScheduler { next_k: None, pending_start: None, last_committed_k: None }
    }

    /// Forgets the current tick position, so the output starts fresh at the
    /// model's current tick once one reappears. A pending start survives.
    pub fn reset(&mut self)
        ensures
            final(self)@ == (SchedulerModel { next_k: None, ..old(self)@ }),
    {
        self.next_k = None;
    }

    /// This output's next not-yet-sent tick index: the earliest index a pending
    /// resync boundary may still land on.
    pub fn next_unsent_k(&self, model_next_k: u64) -> (r: u64)
        ensures
            r == self@.next_index(model_next_k),
    {
        match self.next_k {
            Some(k) => k,
            None => model_next_k,
        }
    }

    /// Arms (or replaces) a pending start: an `0xFA` will be sent immediately
    /// before output tick `target_k`.
    pub fn arm_start(&mut self, target_k: u64)
        ensures
            final(self)@ == (SchedulerModel { pending_start: Some(target_k), ..old(self)@ }),
    {
        self.pending_start = Some(target_k);
    }

    /// Sets the output to begin at tick `target` with a start attached to it: its
    /// first tick sent will be `target`, immediately preceded by `0xFA`.
    pub fn start_at(&mut self, target: u64)
        ensures
            final(self)@ == old(self)@.started_at(target),
    {
        self.next_k = Some(target);
        self.pending_start = Some(target);
    }

    /// Cancels a pending start without sending it.
    pub fn cancel_start(&mut self)
        ensures
            final(self)@ == (SchedulerModel { pending_start: None, ..old(self)@ }),
    {
        self.pending_start = None;
    }

    pub fn has_pending_start(&self) -> (r: bool)
        ensures
            r == self@.pending_start is Some,
    {
        self.pending_start.is_some()
    }

    /// If `k` is the pending start's target, consumes it (so it fires exactly
    /// once) and reports that an `0xFA` must be sent immediately before this
    /// tick's `0xF8`.
    pub fn take_due_start(&mut self, k: u64) -> (due: bool)
        ensures
            due == old(self)@.start_due_at(k),
            final(self)@ == old(self)@.after_due_check(k),
    {
        match self.pending_start {
            Some(t) => {
                if t == k {
                    self.pending_start = None;
                    true
                } else {
                    false
                }
            },
            None => false,
        }
    }

    /// The last tick index actually sent.
    pub fn last_committed_k(&self) -> (r: Option<u64>)
        ensures
            r == self@.last_committed_k,
    {
        self.last_committed_k
    }

    /// The index of the next tick to send, given the estimator's next expected
    /// index; fixes it, so repeated calls without a commit return the same index.
    pub fn peek_next(&mut self, model_next_k: u64) -> (k: u64)
        ensures
            k == old(self)@.next_index(model_next_k),
            final(self)@ == old(self)@.peeked(model_next_k),
    {
        let k = match self.next_k {
            Some(k) => k,
            None => model_next_k,
        };
        self.next_k = Some(k);
        k
    }

    /// Records that tick `k` was sent; the next tick is `k + 1`.
    pub fn commit(&mut self, k: u64)
        requires
            k < u64::MAX,
        ensures
            final(self)@ == old(self)@.committed(k),
    {
        self.next_k = Some(k + 1);
        self.last_committed_k = Some(k);
    }
}

/// Output tick indices are strictly monotonic: after tick `k` is sent, the next
/// tick is `k + 1`, whatever the estimator expects, and peeking twice without a
/// commit gives the same index.
pub proof fn lemma_tick_after_commit(m: SchedulerModel, k: u64, model_next_k: u64, other_next_k: u64)
    requires
        k < u64::MAX,
    ensures
        m.committed(k).next_index(model_next_k) == k + 1,
        m.peeked(model_next_k).next_index(other_next_k) == m.next_index(model_next_k),
{
}

proof fn lemma_run_next_index(m: SchedulerModel, model_next_k: u64, n: nat)
    requires
        m.next_index(model_next_k) + n <= u64::MAX,
    ensures
        m.run(model_next_k, n).next_index(model_next_k) == m.next_index(model_next_k) + n,
        m.run(model_next_k, n).next_k is Some || n == 0,
        m.run_ticks(model_next_k, n).len() == n,
        forall|i: int| 0 <= i < n ==> #[trigger] m.run_ticks(model_next_k, n)[i] == m.next_index(model_next_k) + i,
    decreases n,
{
    if n > 0 {
        lemma_run_next_index(m, model_next_k, (n - 1) as nat);
    }
}

proof fn lemma_run_pending(m: SchedulerModel, model_next_k: u64, n: nat)
    requires
        m.next_index(model_next_k) + n <= u64::MAX,
    ensures
        m.pending_start matches Some(t) ==> {
            let k0 = m.next_index(model_next_k);
            if k0 <= t < k0 + n {
                &&& m.run(model_next_k, n).pending_start is None
                &&& m.run_starts(model_next_k, n) == seq![t]
            } else {
                &&& m.run(model_next_k, n).pending_start == m.pending_start
                &&& m.run_starts(model_next_k, n) == Seq::<u64>::empty()
            }
        },
        m.pending_start is None ==> m.run(model_next_k, n).pending_start is None
            && m.run_starts(model_next_k, n) == Seq::<u64>::empty(),
    decreases n,
{
    if n > 0 {
        lemma_run_pending(m, model_next_k, (n - 1) as nat);
        lemma_run_next_index(m, model_next_k, (n - 1) as nat);
    }
}

/// Over any run of `n` ticks sent on schedule, the tick indices are consecutive
/// (no gap, no repeat), starting at the output's next unsent index; a pending
/// start fires exactly once, at its target, if the target falls within the run,
/// and otherwise not at all; with no start pending none fires.
pub proof fn lemma_run_is_consecutive_and_start_fires_once(m: SchedulerModel, model_next_k: u64, n: nat)
    requires
        m.next_index(model_next_k) + n <= u64::MAX,
    ensures
        m.run_ticks(model_next_k, n).len() == n,
        forall|i: int| 0 <= i < n ==> #[trigger] m.run_ticks(model_next_k, n)[i] == m.next_index(model_next_k) + i,
        m.pending_start matches Some(t) ==> {
            let k0 = m.next_index(model_next_k);
            if k0 <= t < k0 + n {
                m.run_starts(model_next_k, n) == seq![t]
            } else {
                m.run_starts(model_next_k, n) == Seq::<u64>::empty()
            }
        },
        m.pending_start is None ==> m.run_starts(model_next_k, n) == Seq::<u64>::empty(),
{
    lemma_run_next_index(m, model_next_k, n);
    lemma_run_pending(m, model_next_k, n);
}

/// A cancelled start never fires, however many ticks follow.
pub proof fn lemma_cancelled_start_never_fires(m: SchedulerModel, model_next_k: u64, n: nat)
    requires
        m.next_index(model_next_k) + n <= u64::MAX,
    ensures
        (SchedulerModel { pending_start: None, ..m }).run_starts(model_next_k, n) == Seq::<u64>::empty(),
{
    lemma_run_pending(SchedulerModel { pending_start: None, ..m }, model_next_k, n);
}

} // verus!
