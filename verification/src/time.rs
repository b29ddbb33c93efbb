//! The time that the caches and the rate limiter go by: nanoseconds since a
//! clock was started.
use std::time::Instant;
use vstd::prelude::*;

verus! {

/// Nanoseconds in a second.
pub const NANOS_PER_SEC: u128 = 1_000_000_000;

/// The longest span that a `std::time::Duration` can hold: `u64::MAX` seconds
/// and 999,999,999 nanoseconds. No clock reading is longer.
pub const MAX_SPAN: u128 = 18_446_744_073_709_551_615_999_999_999;

/// The longest time to live that is counted from the machine's clock: as many
/// seconds as a signed 64-bit count can hold, and 999,999,999 nanoseconds. Unix
/// clocks count in such seconds, so that no point in time is further ahead.
pub const MAX_TTL: u128 = 9_223_372_036_854_775_807_999_999_999;

/// `std::time::Instant`, an opaque point on the machine's monotonic clock.
#[verifier::external_type_specification]
#[verifier::external_body]
pub struct ExInstant(Instant);

/// Calls `Instant::now`. Nothing is claimed of the point in time that comes back.
#[verifier::external_body]
fn instant_now() -> Instant {
    Instant::now()
}

/// Calls `Instant::elapsed` and counts the span in nanoseconds. What comes back
/// depends on the time of the call; all that is claimed is that it is no longer
/// than the longest `Duration`.
#[verifier::external_body]
fn nanos_since(origin: &Instant) -> (nanos: u128)
    ensures
        nanos <= MAX_SPAN,
{
    origin.elapsed().as_nanos()
}

/// A clock that is started once and never goes back: a reading of the machine's
/// clock that is less than the latest one counts as that one.
pub struct Clock {
    origin: Instant,
    latest: u128,
    readings: Ghost<nat>,
}

impl Clock {
    /// The point in time that the clock counts from.
    pub closed spec fn origin(&self) -> Instant {
        self.origin
    }

    /// The latest reading that is on record; zero if none is.
    pub closed spec fn latest(&self) -> u128 {
        self.latest
    }

    /// How many readings have gone on record.
    pub closed spec fn readings(&self) -> nat {
        self.readings@
    }

    /// The clock becomes `after` by one reading, `now`, which is no less than the
    /// latest before it, and is the latest after it.
    pub open spec fn ticks_to(self, after: Clock, now: u128) -> bool {
        &&& self.latest() <= now <= MAX_SPAN
        &&& after.latest() == now
        &&& after.readings() == self.readings() + 1
        &&& after.origin() == self.origin()
    }

    #[verifier::type_invariant]
    spec fn in_range(&self) -> bool {
        self.latest <= MAX_SPAN
    }

    /// Starts a clock.
    pub fn start() -> (clock: Clock)
        ensures
            clock.latest() == 0,
            clock.readings() == 0,
    {
        Clock { origin: instant_now(), latest: 0, readings: Ghost(0) }
    }

    /// The nanoseconds that have passed since the clock was started.
    pub fn now(&self) -> (nanos: u128)
        ensures
            self.latest() <= nanos <= MAX_SPAN,
    {
        proof {
            use_type_invariant(self);
        }
        let nanos: u128 = nanos_since(&self.origin);
        if nanos < self.latest {
            self.latest
        } else {
            nanos
        }
    }

    /// The nanoseconds that have passed since the clock was started, which go on
    /// record.
    pub fn tick(&mut self) -> (nanos: u128)
        ensures
            old(self).ticks_to(*final(self), nanos),
    {
        let nanos: u128 = self.now();
        self.latest = nanos;
        self.readings = Ghost(self.readings@ + 1);
        nanos
    }
}

} // verus!
