//! The clock that the exporter goes by.

use std::time::{Duration, Instant};
use vstd::prelude::*;

verus! {

/// A moment of the standard library's clock that never goes back.
#[verifier::external_type_specification]
#[verifier::external_body]
pub struct ExInstant(std::time::Instant);

/// `std::time::Instant::now`. Nothing is claimed of the moment that it gives.
pub assume_specification[ Instant::now ]() -> Instant
;

/// `std::time::Instant::elapsed`. Nothing is claimed of how much time has passed.
pub assume_specification[ Instant::elapsed ](instant: &Instant) -> Duration
;

/// `std::time::Duration::as_nanos`: the number of nanoseconds. A duration is at most `u64::MAX`
/// seconds and 999,999,999 nanoseconds long.
pub assume_specification[ Duration::as_nanos ](duration: &Duration) -> (nanos: u128)
    ensures
        nanos <= MAX_NANOS,
;

/// Nanoseconds in a second.
pub const NANOS_PER_SEC: u128 = 1_000_000_000;

/// The latest moment of a clock: `u64::MAX` seconds and 999,999,999 nanoseconds after its start.
pub const MAX_NANOS: u128 = 18_446_744_073_709_551_615_999_999_999;

/// A clock. It tells the nanoseconds that have passed since it was started.
#[derive(Clone, Copy, Debug)]
pub struct Clock {
    start: Instant,
}

impl Clock {
    /// The moment at which the clock was started.
    pub closed spec fn started_at(self) -> Instant {
        self.start
    }

    /// Whether `elapsed` may have passed since: it is a duration that `Instant::elapsed` gives for
    /// the moment at which the clock was started.
    pub open spec fn may_have_run_for(self, elapsed: Duration) -> bool {
        call_ensures(Instant::elapsed, (&self.started_at(),), elapsed)
    }

    /// Whether the clock may tell `nanos`: that is what `Duration::as_nanos` gives for a duration
    /// that may have passed.
    pub open spec fn may_tell(self, nanos: u128) -> bool {
        exists|elapsed: Duration|
            {
                &&& #[trigger] self.may_have_run_for(elapsed)
                &&& call_ensures(Duration::as_nanos, (&elapsed,), nanos)
            }
    }

    /// A clock that starts now: at a moment that `Instant::now` gives.
    pub fn start() -> (clock: Clock)
        ensures
            call_ensures(Instant::now, (), clock.started_at()),
    {
        Clock { start: Instant::now() }
    }

    /// The nanoseconds that have passed since the clock was started.
    pub fn now(&self) -> (nanos: u128)
        ensures
            self.may_tell(nanos),
            nanos <= MAX_NANOS,
    {
        let elapsed: Duration = self.start.elapsed();
        assert(self.may_have_run_for(elapsed));
        elapsed.as_nanos()
    }
}

} // verus!
