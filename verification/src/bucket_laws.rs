//! The laws of the leaky bucket.
use crate::leaky_bucket::{BucketLimits, BucketState, BUCKET_IDLE_TTL, DROP};
use crate::time::NANOS_PER_SEC;
use vstd::prelude::*;

verus! {

/// The bucket after requests at these times.
pub open spec fn after_all(bucket: BucketState, times: Seq<int>) -> BucketState
    decreases times.len(),
{
    if times.len() == 0 {
        bucket
    } else {
        after_all(bucket, times.drop_last()).after(times.last())
    }
}

/// How many of the requests at these times are let through.
pub open spec fn admitted(bucket: BucketState, times: Seq<int>) -> nat
    decreases times.len(),
{
    if times.len() == 0 {
        0
    } else {
        let earlier = times.drop_last();
        admitted(bucket, earlier) + if after_all(bucket, earlier).admits(times.last()) {
            1nat
        } else {
            0
        }
    }
}

/// The times never go back.
pub open spec fn in_order(times: Seq<int>) -> bool {
    forall|i: int, j: int| 0 <= i <= j < times.len() ==> times[i] <= times[j]
}

/// A request leaves a valid bucket valid, and of the same size and leak rate.
pub proof fn law_request_keeps_valid(bucket: BucketState, now: int)
    requires
        bucket.valid(),
    ensures
        bucket.after(now).valid(),
        bucket.after(now).capacity == bucket.capacity,
        bucket.after(now).leak_rate == bucket.leak_rate,
{
    let rate = bucket.leak_rate;
    let elapsed = bucket.elapsed(now);
    assert(0 <= rate * elapsed) by (nonlinear_arith)
        requires
            0 <= rate,
            0 <= elapsed,
    ;
}

/// What is let through is bounded: of requests that come within some span of
/// time, no more than the bucket holds and what leaks away in that span.
pub proof fn law_throughput_is_bounded(bucket: BucketState, times: Seq<int>)
    requires
        bucket.valid(),
        in_order(times),
        times.len() > 0,
    ensures
        admitted(bucket, times) * DROP <= bucket.capacity + bucket.leak_rate * (times.last()
            - times.first()),
{
    lemma_water_accounts(bucket, times);
}

/// The water at the end accounts for every request that was let through, but
/// for what has leaked away since the first.
proof fn lemma_water_accounts(bucket: BucketState, times: Seq<int>)
    requires
        bucket.valid(),
        in_order(times),
        times.len() > 0,
    ensures
        ({
            let last = after_all(bucket, times);
            &&& last.valid()
            &&& last.capacity == bucket.capacity
            &&& last.leak_rate == bucket.leak_rate
            &&& last.last_check == times.last()
            &&& admitted(bucket, times) * DROP <= last.water + bucket.leak_rate * (times.last()
                - times.first())
        }),
    decreases times.len(),
{
    let earlier = times.drop_last();
    let now = times.last();
    let rate = bucket.leak_rate;
    if earlier.len() == 0 {
        assert(after_all(bucket, earlier) == bucket);
        law_request_keeps_valid(bucket, now);
        assert(admitted(bucket, earlier) == 0);
        assert(rate * (now - times.first()) == 0) by (nonlinear_arith)
            requires
                now == times.first(),
        ;
    } else {
        lemma_water_accounts(bucket, earlier);
        let before = after_all(bucket, earlier);
        law_request_keeps_valid(before, now);
        let since = now - earlier.last();
        assert(earlier.last() == times[times.len() - 2] && now == times[times.len() - 1]);
        assert(before.elapsed(now) == since);
        assert(rate * (now - times.first()) == rate * (earlier.last() - times.first()) + rate
            * since) by (nonlinear_arith)
            requires
                since == now - earlier.last(),
        ;
        let count = admitted(bucket, earlier);
        assert((count + 1) * DROP == count * DROP + DROP) by (nonlinear_arith);
    }
}

/// A client may burst: of requests that come to an empty bucket all at once, as
/// many are let through as fit, and the rest are refused.
pub proof fn law_burst(limits: BucketLimits, now: int, times: Seq<int>)
    requires
        forall|i: int| 0 <= i < times.len() ==> #[trigger] times[i] == now,
    ensures
        ({
            let fresh = BucketState::fresh(limits, now);
            let room = (limits.capacity * NANOS_PER_SEC) / DROP as int;
            &&& admitted(fresh, times) == if times.len() <= room {
                times.len() as int
            } else {
                room
            }
            &&& after_all(fresh, times).water == admitted(fresh, times) * DROP
        }),
    decreases times.len(),
{
    let fresh = BucketState::fresh(limits, now);
    let capacity = limits.capacity * NANOS_PER_SEC;
    let room = capacity / DROP as int;
    if times.len() > 0 {
        let earlier = times.drop_last();
        assert(times[times.len() - 1] == now);
        law_burst(limits, now, earlier);
        lemma_all_at_once(limits, now, earlier);
        let before = after_all(fresh, earlier);
        let rate = before.leak_rate;
        assert(before.elapsed(now) == 0);
        assert(rate * 0 == 0) by (nonlinear_arith);
        assert(before.level(now) == before.water);
    }
}

/// Requests that all come at the time an empty bucket is made leave it checked
/// at that time.
proof fn lemma_all_at_once(limits: BucketLimits, now: int, times: Seq<int>)
    requires
        forall|i: int| 0 <= i < times.len() ==> #[trigger] times[i] == now,
    ensures
        ({
            let last = after_all(BucketState::fresh(limits, now), times);
            &&& last.last_check == now
            &&& last.capacity == limits.capacity * NANOS_PER_SEC
            &&& last.leak_rate == limits.leak_rate
            &&& last.valid()
        }),
    decreases times.len(),
{
    if times.len() > 0 {
        assert(times[times.len() - 1] == now);
        lemma_all_at_once(limits, now, times.drop_last());
        law_request_keeps_valid(
            after_all(BucketState::fresh(limits, now), times.drop_last()),
            now,
        );
    }
}

/// A client that leaves enough time between its requests for one drop to leak
/// away is never refused.
pub proof fn law_sustained_rate(bucket: BucketState, now: int)
    requires
        bucket.valid(),
        bucket.capacity >= DROP,
        bucket.leak_rate * bucket.elapsed(now) >= DROP,
    ensures
        bucket.admits(now),
{
}

/// After a silence in which all that the bucket holds can leak away, it is empty
/// again, and the next request finds it as a fresh one.
pub proof fn law_silence_drains(bucket: BucketState, limits: BucketLimits, now: int)
    requires
        bucket.valid(),
        bucket.capacity == limits.capacity * NANOS_PER_SEC,
        bucket.leak_rate == limits.leak_rate,
        bucket.leak_rate * bucket.elapsed(now) >= bucket.capacity,
    ensures
        bucket.level(now) == 0,
        bucket.admits(now) == BucketState::fresh(limits, now).admits(now),
        bucket.after(now) == BucketState::fresh(limits, now).after(now),
{
}

/// Dropping an idle bucket goes unnoticed, if all that a bucket holds leaks away
/// in the time that makes it idle: from then on a fresh bucket gives the same
/// answers.
pub proof fn law_cleanup_goes_unnoticed(
    bucket: BucketState,
    limits: BucketLimits,
    now: int,
    later: int,
)
    requires
        bucket.valid(),
        bucket.capacity == limits.capacity * NANOS_PER_SEC,
        bucket.leak_rate == limits.leak_rate,
        bucket.last_check == bucket.last_used,
        bucket.idle(now),
        now <= later,
        limits.leak_rate * BUCKET_IDLE_TTL >= limits.capacity * NANOS_PER_SEC,
    ensures
        bucket.admits(later) == BucketState::fresh(limits, later).admits(later),
        bucket.after(later) == BucketState::fresh(limits, later).after(later),
{
    let rate = bucket.leak_rate;
    let elapsed = bucket.elapsed(later);
    assert(rate * elapsed >= rate * BUCKET_IDLE_TTL) by (nonlinear_arith)
        requires
            rate >= 0,
            elapsed >= BUCKET_IDLE_TTL,
    ;
    law_silence_drains(bucket, limits, later);
}

/// A fresh bucket is empty, of the size and leak rate that its limits give, and
/// was checked and used when it was made.
pub proof fn law_fresh_bucket(limits: BucketLimits, now: int)
    ensures
        ({
            let bucket = BucketState::fresh(limits, now);
            &&& bucket.water == 0
            &&& bucket.capacity * 1_000_000_000 == limits.capacity * DROP
            &&& bucket.leak_rate * 1_000_000_000 * 1_000_000_000 == limits.leak_rate * DROP
            &&& bucket.last_check == now
            &&& bucket.last_used == now
        }),
{
}

/// Water leaks away steadily: at its last check a bucket holds what it holds, and
/// over any span after that it loses the leak rate times that span, until it is
/// empty. It never fills of itself, nor by a clock that goes back.
pub proof fn law_leak_is_steady(bucket: BucketState, now: int, later: int)
    requires
        bucket.valid(),
        bucket.last_check <= now <= later,
    ensures
        bucket.level(bucket.last_check) == bucket.water,
        bucket.level(now) - bucket.level(later) == if bucket.level(now) < bucket.leak_rate * (later
            - now) {
            bucket.level(now)
        } else {
            bucket.leak_rate * (later - now)
        },
        0 <= bucket.level(later) <= bucket.level(now) <= bucket.water,
        forall|before: int| before < bucket.last_check ==> #[trigger] bucket.level(before)
            == bucket.water,
{
    let rate = bucket.leak_rate;
    let first = now - bucket.last_check;
    let second = later - now;
    let whole = later - bucket.last_check;
    assert(rate * whole == rate * first + rate * second) by (nonlinear_arith)
        requires
            whole == first + second,
    ;
    assert(rate * first >= 0 && rate * second >= 0) by (nonlinear_arith)
        requires
            rate >= 0,
            first >= 0,
            second >= 0,
    ;
    assert(rate * 0 == 0) by (nonlinear_arith);
}

/// What a request does, in terms of the bucket it finds: what is left of the
/// water after the leak decides, a request that fits adds one drop, and nothing
/// else changes but the times.
pub proof fn law_request_is_exact(bucket: BucketState, now: int)
    requires
        bucket.valid(),
    ensures
        ({
            let leaked = if now < bucket.last_check {
                0
            } else {
                bucket.leak_rate * (now - bucket.last_check)
            };
            let left = if bucket.water <= leaked {
                0
            } else {
                bucket.water - leaked
            };
            let after = bucket.after(now);
            &&& bucket.level(now) == left
            &&& bucket.admits(now) <==> bucket.capacity - left >= DROP
            &&& bucket.admits(now) ==> after.water == left + DROP
            &&& !bucket.admits(now) ==> after.water == left
            &&& after.capacity == bucket.capacity
            &&& after.leak_rate == bucket.leak_rate
            &&& after.last_check == now
            &&& after.last_used == now
        }),
{
    let rate = bucket.leak_rate;
    assert(rate * 0 == 0) by (nonlinear_arith);
}

/// Of requests that come at once, as many are let through as there is room for
/// whole requests above the water that the leak has left, and each of them adds a
/// drop.
pub proof fn law_as_many_as_fit(bucket: BucketState, now: int, times: Seq<int>)
    requires
        bucket.valid(),
        now >= bucket.last_check,
        forall|i: int| 0 <= i < times.len() ==> #[trigger] times[i] == now,
    ensures
        ({
            let leaked = bucket.leak_rate * (now - bucket.last_check);
            let left = if bucket.water <= leaked {
                0
            } else {
                bucket.water - leaked
            };
            let room = (bucket.capacity - left) / DROP as int;
            &&& admitted(bucket, times) == if times.len() <= room {
                times.len() as int
            } else {
                room
            }
            &&& times.len() > 0 ==> after_all(bucket, times).water == left + admitted(bucket, times)
                * DROP
        }),
    decreases times.len(),
{
    let rate = bucket.leak_rate;
    let leaked = rate * (now - bucket.last_check);
    let left = if bucket.water <= leaked {
        0
    } else {
        bucket.water - leaked
    };
    let room = (bucket.capacity - left) / DROP as int;
    assert(leaked >= 0) by (nonlinear_arith)
        requires
            rate >= 0,
            now >= bucket.last_check,
            leaked == rate * (now - bucket.last_check),
    ;
    if times.len() > 0 {
        let earlier = times.drop_last();
        assert(times[times.len() - 1] == now);
        law_as_many_as_fit(bucket, now, earlier);
        lemma_checked_at(bucket, now, earlier);
        let before = after_all(bucket, earlier);
        law_request_is_exact(before, now);
        if earlier.len() > 0 {
            assert(before.leak_rate * 0 == 0) by (nonlinear_arith);
        }
    }
}

/// Requests that all come at one time leave the bucket valid, as large and as
/// leaky as it was, and checked at that time.
proof fn lemma_checked_at(bucket: BucketState, now: int, times: Seq<int>)
    requires
        bucket.valid(),
        forall|i: int| 0 <= i < times.len() ==> #[trigger] times[i] == now,
    ensures
        ({
            let last = after_all(bucket, times);
            &&& last.valid()
            &&& last.capacity == bucket.capacity
            &&& last.leak_rate == bucket.leak_rate
            &&& last.last_check == if times.len() == 0 {
                bucket.last_check
            } else {
                now
            }
        }),
    decreases times.len(),
{
    if times.len() > 0 {
        assert(times[times.len() - 1] == now);
        lemma_checked_at(bucket, now, times.drop_last());
        law_request_keeps_valid(after_all(bucket, times.drop_last()), now);
    }
}

/// A refused request costs nothing: at any later time there is as much water as
/// if it had not come.
pub proof fn law_refusal_costs_nothing(bucket: BucketState, now: int, later: int)
    requires
        bucket.valid(),
        bucket.last_check <= now <= later,
        !bucket.admits(now),
    ensures
        bucket.after(now).level(later) == bucket.level(later),
        bucket.after(now).admits(later) == bucket.admits(later),
{
    law_leak_is_steady(bucket, now, later);
    law_request_keeps_valid(bucket, now);
    law_leak_is_steady(bucket.after(now), now, later);
}

/// A bucket is idle from 300 seconds after its last use on, and not before.
pub proof fn law_idle_after_300_seconds(bucket: BucketState, now: int)
    ensures
        bucket.idle(now) <==> now >= bucket.last_used + 300 * NANOS_PER_SEC,
{
}

} // verus!
