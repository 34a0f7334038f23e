//! `TimeSource`: abstracts "now" so timing-sensitive logic can be driven
//! deterministically (a manually advanced clock) instead of the wall clock.
use std::time::Duration;
use std::time::Instant;
use vstd::prelude::*;

verus! {

#[verifier::external_type_specification]
#[verifier::external_body]
pub struct ExInstant(Instant);

/// What `Instant::checked_add` returns for `base` and `by`.
pub uninterp spec fn instant_checked_add(base: Instant, by: Duration) -> Option<Instant>;

/// Calls `std::time::Instant::now`. Nothing is promised of the result: it is
/// the machine's monotonic clock at the time of the call.
#[verifier::external_body]
fn instant_now() -> (r: Instant) {
    Instant::now()
}

/// Calls `std::time::Instant::checked_add`: `Some(base + by)` when that point
/// in time can be represented, `None` otherwise. The result is named, as a
/// function of its two arguments only.
#[verifier::external_body]
fn instant_checked_add_exec(base: Instant, by: Duration) -> (r: Option<Instant>)
    ensures
        r == instant_checked_add(base, by),
{
    base.checked_add(by)
}

/// A source of the current time.
pub trait TimeSource {
    fn now(&self) -> Instant;
}

/// Real wall-clock time.
#[derive(Debug, Default, Clone, Copy)]
pub struct RealTime;

impl TimeSource for RealTime {
    fn now(&self) -> Instant {
        instant_now()
    }
}

/// A clock that only moves forward when explicitly told to.
#[derive(Debug, Clone, Copy)]
pub struct SimClock {
    now: Instant,
}

impl SimClock {
    /// The instant this clock currently reports.
    pub closed spec fn current(&self) -> Instant {
        self.now
    }

    /// Starts the simulated clock at the real "now" (only relative advances
    /// matter afterwards).
    pub fn new() -> (r: Self) {
        SimClock { now: instant_now() }
    }

    /// Moves the clock forward by exactly `by`.
    pub fn advance(&mut self, by: Duration)
        requires
            instant_checked_add(old(self).current(), by) is Some,
        ensures
            final(self).current() == instant_checked_add(old(self).current(), by)->Some_0,
    {
        match instant_checked_add_exec(self.now, by) {
            Some(t) => {
                self.now = t;
            },
            None => {},
        }
    }

    /// Moves the clock forward by `by` when the result can be represented;
    /// returns whether it did. The clock is left unchanged otherwise.
    pub fn try_advance(&mut self, by: Duration) -> (moved: bool)
        ensures
            moved == (instant_checked_add(old(self).current(), by) is Some),
            moved ==> final(self).current() == instant_checked_add(old(self).current(), by)->Some_0,
            !moved ==> final(self).current() == old(self).current(),
    {
        match instant_checked_add_exec(self.now, by) {
            Some(t) => {
                self.now = t;
                true
            },
            None => false,
        }
    }
}

impl Default for SimClock {
    fn default() -> (r: Self) {
        SimClock::new()
    }
}

impl TimeSource for SimClock {
    fn now(&self) -> (r: Instant)
        ensures
            r == self.current(),
    {
        self.now
    }
}

} // verus!
