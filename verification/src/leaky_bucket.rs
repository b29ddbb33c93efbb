//! A leaky bucket: every request that is let through adds one drop, drops leak
//! away at a fixed rate, and a drop that would make the bucket overflow is
//! refused.
use crate::time::{Clock, NANOS_PER_SEC};
use vstd::prelude::*;

verus! {

/// One request, in the unit that water is measured in. A bucket's capacity is
/// set in billionths of a request and its leak rate in billionths of a request
/// per second; time runs in nanoseconds. In billionths of a billionth of a
/// request, all three meet without rounding.
pub const DROP: u128 = 1_000_000_000_000_000_000;

/// A bucket that is not used for this long, 300 seconds, is idle.
pub const BUCKET_IDLE_TTL: u128 = 300_000_000_000;

/// How large a bucket is and how fast it leaks.
#[derive(Debug, Clone, Copy, PartialEq, Eq)]
pub struct BucketLimits {
    /// Billionths of a request.
    pub capacity: u64,
    /// Billionths of a request per second.
    pub leak_rate: u64,
}

/// The bucket of one client.
pub struct LeakyBucket {
    water: u128,
    limits: BucketLimits,
    last_check: u128,
    last_used: u128,
}

/// A bucket as contracts see it. Water and capacity are measured in units of
/// which `DROP` make a request, the leak rate in those units per nanosecond.
pub struct BucketState {
    pub water: int,
    pub capacity: int,
    pub leak_rate: int,
    pub last_check: int,
    pub last_used: int,
}

impl BucketState {
    /// An empty bucket that is made at time `now`.
    pub open spec fn fresh(limits: BucketLimits, now: int) -> BucketState {
        BucketState {
            water: 0,
            capacity: limits.capacity * NANOS_PER_SEC,
            leak_rate: limits.leak_rate as int,
            last_check: now,
            last_used: now,
        }
    }

    /// There is no less than no water, and no more than the bucket holds.
    pub open spec fn valid(self) -> bool {
        &&& 0 <= self.water <= self.capacity
        &&& 0 <= self.leak_rate
    }

    /// The time since the last check, or none if the clock has gone back.
    pub open spec fn elapsed(self, now: int) -> int {
        if now > self.last_check {
            now - self.last_check
        } else {
            0
        }
    }

    /// The water that is left at time `now`.
    pub open spec fn level(self, now: int) -> int {
        if self.water > self.leak_rate * self.elapsed(now) {
            self.water - self.leak_rate * self.elapsed(now)
        } else {
            0
        }
    }

    /// There is room for one more request at time `now`.
    pub open spec fn admits(self, now: int) -> bool {
        self.level(now) + DROP <= self.capacity
    }

    /// The bucket after a request at time `now`.
    pub open spec fn after(self, now: int) -> BucketState {
        BucketState {
            water: if self.admits(now) {
                self.level(now) + DROP
            } else {
                self.level(now)
            },
            capacity: self.capacity,
            leak_rate: self.leak_rate,
            last_check: now,
            last_used: now,
        }
    }

    /// The bucket has not been used for so long that it is idle.
    pub open spec fn idle(self, now: int) -> bool {
        now - self.last_used >= BUCKET_IDLE_TTL
    }
}

impl View for LeakyBucket {
    type V = BucketState;

    closed spec fn view(&self) -> BucketState {
        BucketState {
            water: self.water as int,
            capacity: self.limits.capacity * NANOS_PER_SEC,
            leak_rate: self.limits.leak_rate as int,
            last_check: self.last_check as int,
            last_used: self.last_used as int,
        }
    }
}

impl LeakyBucket {
    /// An empty bucket that is made at time `now`.
    pub fn new(limits: BucketLimits, now: u128) -> (bucket: LeakyBucket)
        ensures
            bucket@ == BucketState::fresh(limits, now as int),
            bucket@.valid(),
    {
        LeakyBucket { water: 0, limits, last_check: now, last_used: now }
    }

    /// Whether a request at time `now` is let through. The water that has leaked
    /// away since the last check is gone; a request that is let through adds a
    /// drop.
    pub fn allow_at(&mut self, now: u128) -> (allowed: bool)
        requires
            old(self)@.valid(),
        ensures
            allowed == old(self)@.admits(now as int),
            final(self)@ == old(self)@.after(now as int),
            final(self)@.valid(),
    {
        let elapsed: u128 = if now > self.last_check {
            now - self.last_check
        } else {
            0
        };
        self.last_check = now;
        self.last_used = now;
        let rate: u128 = self.limits.leak_rate as u128;
        let capacity: u128 = self.limits.capacity as u128 * NANOS_PER_SEC;
        let level: u128 = match elapsed.checked_mul(rate) {
            Some(leaked) => if self.water > leaked {
                self.water - leaked
            } else {
                0
            },
            None => 0,
        };
        assert(elapsed * rate == rate * elapsed) by (nonlinear_arith);
        if level + DROP <= capacity {
            self.water = level + DROP;
            true
        } else {
            self.water = level;
            false
        }
    }

    /// Whether a request that comes now, by `clock`, is let through.
    pub fn allow(&mut self, clock: &mut Clock) -> (allowed: bool)
        requires
            old(self)@.valid(),
        ensures
            final(self)@.valid(),
            exists|now: u128|
                {
                    &&& old(clock).ticks_to(*final(clock), now)
                    &&& final(self)@ == #[trigger] old(self)@.after(now as int)
                    &&& allowed == old(self)@.admits(now as int)
                },
    {
        let now: u128 = clock.tick();
        self.allow_at(now)
    }

    /// Whether the bucket is idle at time `now`.
    pub fn is_idle(&self, now: u128) -> (idle: bool)
        ensures
            idle == self@.idle(now as int),
    {
        now >= self.last_used && now - self.last_used >= BUCKET_IDLE_TTL
    }
}

} // verus!
