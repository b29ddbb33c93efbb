//! The laws of the rate limiter.
use crate::bucket_laws::{
    admitted, after_all, in_order, law_cleanup_goes_unnoticed, law_request_is_exact,
    law_request_keeps_valid, law_throughput_is_bounded,
};
use crate::bucket_table::{after_request, bucket_for, without_idle};
use crate::leaky_bucket::{BucketLimits, BucketState, BUCKET_IDLE_TTL, DROP};
use crate::rate_limiter::{
    after_message, answers, well_kept, ClientIp, RateLimitAction, RateLimitMessage,
};
use crate::time::{Clock, NANOS_PER_SEC};
use vstd::prelude::*;

verus! {

/// A message and the time at which it comes.
pub struct Event {
    pub message: RateLimitMessage,
    pub at: int,
}

/// The buckets after these messages.
pub open spec fn after_events(
    buckets: Map<ClientIp, BucketState>,
    limits: BucketLimits,
    events: Seq<Event>,
) -> Map<ClientIp, BucketState>
    decreases events.len(),
{
    if events.len() == 0 {
        buckets
    } else {
        after_message(
            after_events(buckets, limits, events.drop_last()),
            limits,
            events.last().message,
            events.last().at,
        )
    }
}

/// The messages come one after the other, and none after `now`.
pub open spec fn up_to(events: Seq<Event>, now: int) -> bool {
    &&& forall|i: int, j: int|
        #![trigger events[i], events[j]]
        0 <= i <= j < events.len() ==> events[i].at <= events[j].at
    &&& forall|i: int| 0 <= i < events.len() ==> (#[trigger] events[i]).at <= now
}

/// The messages but for those that ask for idle buckets to be dropped.
pub open spec fn without_cleanups(events: Seq<Event>) -> Seq<Event> {
    events.filter(|event: Event| !(event.message is CleanExpired))
}

/// The times of the requests that come from this client.
pub open spec fn requests_of(events: Seq<Event>, ip: ClientIp) -> Seq<int>
    decreases events.len(),
{
    if events.len() == 0 {
        seq![]
    } else {
        let earlier = requests_of(events.drop_last(), ip);
        if events.last().message == (RateLimitMessage::Allow { ip }) {
            earlier.push(events.last().at)
        } else {
            earlier
        }
    }
}

/// All that a bucket holds leaks away in the time that makes it idle.
pub open spec fn idle_means_empty(limits: BucketLimits) -> bool {
    limits.leak_rate * BUCKET_IDLE_TTL >= limits.capacity * NANOS_PER_SEC
}

/// Every message leaves the buckets well kept.
pub proof fn law_message_keeps_buckets_well(
    buckets: Map<ClientIp, BucketState>,
    limits: BucketLimits,
    message: RateLimitMessage,
    now: int,
)
    requires
        well_kept(buckets, limits),
    ensures
        well_kept(after_message(buckets, limits, message, now), limits),
{
    if let RateLimitMessage::Allow { ip } = message {
        law_request_keeps_valid(bucket_for(buckets, limits, ip, now), now);
    }
}

/// Clients do not share a bucket: a request from one leaves the buckets of the
/// others as they are.
pub proof fn law_clients_are_independent(
    buckets: Map<ClientIp, BucketState>,
    limits: BucketLimits,
    ip: ClientIp,
    other: ClientIp,
    now: int,
    later: int,
)
    requires
        ip != other,
    ensures
        ({
            let after = after_request(buckets, limits, ip, now);
            &&& after.contains_key(other) == buckets.contains_key(other)
            &&& after[other] == buckets[other]
            &&& bucket_for(after, limits, other, later) == bucket_for(buckets, limits, other, later)
        }),
{
}

/// The first request of a client is let through if and only if a bucket holds
/// a whole request.
pub proof fn law_first_request(
    buckets: Map<ClientIp, BucketState>,
    limits: BucketLimits,
    ip: ClientIp,
    now: int,
)
    requires
        !buckets.contains_key(ip),
    ensures
        bucket_for(buckets, limits, ip, now).admits(now) == (limits.capacity * NANOS_PER_SEC
            >= DROP),
{
    let rate = limits.leak_rate as int;
    assert(rate * 0 == 0) by (nonlinear_arith);
}

/// A cleanup leaves only buckets that were used within the time that makes one
/// idle, and all of those, as they were.
pub proof fn law_cleanup_bounds_idleness(buckets: Map<ClientIp, BucketState>, now: int, ip: ClientIp)
    ensures
        ({
            let after = without_idle(buckets, now);
            &&& after.contains_key(ip) <==> buckets.contains_key(ip) && now - buckets[ip].last_used
                < BUCKET_IDLE_TTL
            &&& after.contains_key(ip) ==> after[ip] == buckets[ip]
        }),
{
}

/// A second cleanup at the same time finds nothing to drop.
pub proof fn law_cleanup_twice(buckets: Map<ClientIp, BucketState>, now: int)
    ensures
        without_idle(without_idle(buckets, now), now) == without_idle(buckets, now),
{
    assert(without_idle(without_idle(buckets, now), now) =~= without_idle(buckets, now));
}

/// The messages but for the requests of other clients.
pub open spec fn without_other_clients(events: Seq<Event>, ip: ClientIp) -> Seq<Event> {
    events.filter(
        |event: Event|
            !(event.message matches RateLimitMessage::Allow { ip: other } && other != ip),
    )
}

/// Other clients make no difference: whatever messages have come, cleanups
/// included, the bucket of a client is what it would be had the requests of other
/// clients not come, and its next request is answered in the same way.
pub proof fn law_other_clients_make_no_difference(
    buckets: Map<ClientIp, BucketState>,
    limits: BucketLimits,
    events: Seq<Event>,
    ip: ClientIp,
    now: int,
)
    ensures
        ({
            let after = after_events(buckets, limits, events);
            let alone = after_events(buckets, limits, without_other_clients(events, ip));
            &&& after.contains_key(ip) == alone.contains_key(ip)
            &&& after.contains_key(ip) ==> after[ip] == alone[ip]
            &&& bucket_for(after, limits, ip, now) == bucket_for(alone, limits, ip, now)
        }),
    decreases events.len(),
{
    reveal(Seq::filter);
    if events.len() > 0 {
        let earlier = events.drop_last();
        let last = events.last();
        let kept = without_other_clients(earlier, ip);
        law_other_clients_make_no_difference(buckets, limits, earlier, ip, last.at);
        if last.message matches RateLimitMessage::Allow { ip: other } && other != ip {
            assert(without_other_clients(events, ip) =~= kept);
        } else {
            assert(without_other_clients(events, ip) =~= kept.push(last));
            assert(without_other_clients(events, ip).drop_last() =~= kept);
        }
    }
}

/// A client is served by its own requests alone: after messages in which no
/// cleanup comes, its bucket is what these requests make of the bucket it had,
/// or of a fresh one made at the time of the first.
pub proof fn law_own_requests_decide(
    buckets: Map<ClientIp, BucketState>,
    limits: BucketLimits,
    events: Seq<Event>,
    ip: ClientIp,
)
    requires
        forall|i: int|
            0 <= i < events.len() ==> !((#[trigger] events[i]).message is CleanExpired),
    ensures
        ({
            let after = after_events(buckets, limits, events);
            let times = requests_of(events, ip);
            if times.len() == 0 {
                &&& after.contains_key(ip) == buckets.contains_key(ip)
                &&& after[ip] == buckets[ip]
            } else {
                &&& after.contains_key(ip)
                &&& after[ip] == after_all(bucket_for(buckets, limits, ip, times.first()), times)
            }
        }),
    decreases events.len(),
{
    if events.len() > 0 {
        let last = events[events.len() - 1];
        assert(events.last() == last);
        assert(!(last.message is CleanExpired));
        assert forall|i: int| 0 <= i < events.drop_last().len() implies !((
        #[trigger] events.drop_last()[i]).message is CleanExpired) by {
            assert(events.drop_last()[i] == events[i]);
        }
        law_own_requests_decide(buckets, limits, events.drop_last(), ip);
        let earlier = requests_of(events.drop_last(), ip);
        if last.message == (RateLimitMessage::Allow { ip }) {
            let times = earlier.push(last.at);
            assert(times.drop_last() =~= earlier);
            assert(times.last() == last.at);
            if earlier.len() == 0 {
                assert(after_all(bucket_for(buckets, limits, ip, last.at), earlier) == bucket_for(
                    buckets,
                    limits,
                    ip,
                    last.at,
                ));
            }
        }
    }
}

/// The cleanups go unnoticed, if idle buckets are empty: whatever messages have
/// come, a request is answered as if idle buckets had never been dropped, and
/// leaves the same bucket behind.
pub proof fn law_cleanups_go_unnoticed(
    buckets: Map<ClientIp, BucketState>,
    limits: BucketLimits,
    events: Seq<Event>,
    ip: ClientIp,
    now: int,
)
    requires
        well_kept(buckets, limits),
        idle_means_empty(limits),
        up_to(events, now),
    ensures
        ({
            let cleaned = bucket_for(after_events(buckets, limits, events), limits, ip, now);
            let kept = bucket_for(
                after_events(buckets, limits, without_cleanups(events)),
                limits,
                ip,
                now,
            );
            &&& cleaned.admits(now) == kept.admits(now)
            &&& cleaned.after(now) == kept.after(now)
        }),
{
    lemma_only_idle_differ(buckets, limits, events, now);
    let cleaned = after_events(buckets, limits, events);
    let kept = after_events(buckets, limits, without_cleanups(events));
    lemma_same_answer(cleaned, kept, limits, ip, now);
}

/// The buckets of `cleaned` are those of `kept` but for some that are idle.
spec fn only_idle_missing(
    cleaned: Map<ClientIp, BucketState>,
    kept: Map<ClientIp, BucketState>,
    now: int,
) -> bool {
    &&& forall|ip: ClientIp| #[trigger]
        cleaned.contains_key(ip) ==> kept.contains_key(ip) && cleaned[ip] == kept[ip]
    &&& forall|ip: ClientIp| #[trigger]
        kept.contains_key(ip) && !cleaned.contains_key(ip) ==> kept[ip].idle(now)
}

/// Where only idle buckets are missing, a request is answered in the same way.
proof fn lemma_same_answer(
    cleaned: Map<ClientIp, BucketState>,
    kept: Map<ClientIp, BucketState>,
    limits: BucketLimits,
    ip: ClientIp,
    now: int,
)
    requires
        well_kept(kept, limits),
        idle_means_empty(limits),
        only_idle_missing(cleaned, kept, now),
    ensures
        ({
            let one = bucket_for(cleaned, limits, ip, now);
            let other = bucket_for(kept, limits, ip, now);
            &&& one.admits(now) == other.admits(now)
            &&& one.after(now) == other.after(now)
        }),
{
    if !cleaned.contains_key(ip) && kept.contains_key(ip) {
        law_cleanup_goes_unnoticed(kept[ip], limits, now, now);
    }
}

/// Cleanups make no other difference than that idle buckets are missing.
proof fn lemma_only_idle_differ(
    buckets: Map<ClientIp, BucketState>,
    limits: BucketLimits,
    events: Seq<Event>,
    now: int,
)
    requires
        well_kept(buckets, limits),
        idle_means_empty(limits),
        up_to(events, now),
    ensures
        well_kept(after_events(buckets, limits, without_cleanups(events)), limits),
        only_idle_missing(
            after_events(buckets, limits, events),
            after_events(buckets, limits, without_cleanups(events)),
            now,
        ),
    decreases events.len(),
{
    reveal(Seq::filter);
    if events.len() > 0 {
        let earlier = events.drop_last();
        let last = events[events.len() - 1];
        assert(events.last() == last);
        lemma_up_to_prefix(events, now);
        lemma_only_idle_differ(buckets, limits, earlier, last.at);
        let cleaned = after_events(buckets, limits, earlier);
        let kept = after_events(buckets, limits, without_cleanups(earlier));
        match last.message {
            RateLimitMessage::Allow { ip } => {
                assert(without_cleanups(events) =~= without_cleanups(earlier).push(last));
                assert(without_cleanups(events).drop_last() =~= without_cleanups(earlier));
                lemma_same_answer(cleaned, kept, limits, ip, last.at);
                law_message_keeps_buckets_well(kept, limits, last.message, last.at);
            },
            RateLimitMessage::CleanExpired => {
                assert(without_cleanups(events) =~= without_cleanups(earlier));
            },
            RateLimitMessage::Shutdown => {
                assert(without_cleanups(events) =~= without_cleanups(earlier).push(last));
                assert(without_cleanups(events).drop_last() =~= without_cleanups(earlier));
            },
        }
    }
}

/// How many requests of this client are let through in the course of these
/// messages.
pub open spec fn let_through(
    buckets: Map<ClientIp, BucketState>,
    limits: BucketLimits,
    events: Seq<Event>,
    ip: ClientIp,
) -> nat
    decreases events.len(),
{
    if events.len() == 0 {
        0
    } else {
        let earlier = events.drop_last();
        let at = events.last().at;
        let before = after_events(buckets, limits, earlier);
        let_through(buckets, limits, earlier, ip) + if events.last().message == (
        RateLimitMessage::Allow { ip }) && bucket_for(before, limits, ip, at).admits(at) {
            1nat
        } else {
            0
        }
    }
}

/// The requests of a client are what they are without the cleanups.
proof fn lemma_cleanups_are_no_requests(events: Seq<Event>, ip: ClientIp)
    ensures
        requests_of(without_cleanups(events), ip) == requests_of(events, ip),
        forall|i: int|
            0 <= i < without_cleanups(events).len() ==> !((#[trigger] without_cleanups(
                events,
            )[i]).message is CleanExpired),
    decreases events.len(),
{
    reveal(Seq::filter);
    if events.len() > 0 {
        let earlier = events.drop_last();
        lemma_cleanups_are_no_requests(earlier, ip);
        if !(events.last().message is CleanExpired) {
            let kept = without_cleanups(earlier);
            assert(without_cleanups(events) =~= kept.push(events.last()));
            assert(without_cleanups(events).drop_last() =~= kept);
        }
    }
}

/// The requests of a client come in order, and none after `now`.
proof fn lemma_requests_in_order(events: Seq<Event>, ip: ClientIp, now: int)
    requires
        up_to(events, now),
    ensures
        in_order(requests_of(events, ip)),
        forall|i: int|
            0 <= i < requests_of(events, ip).len() ==> #[trigger] requests_of(events, ip)[i] <= now,
    decreases events.len(),
{
    if events.len() > 0 {
        let last = events[events.len() - 1];
        assert(events.last() == last);
        lemma_up_to_prefix(events, now);
        lemma_requests_in_order(events.drop_last(), ip, last.at);
    }
}

/// Of messages in order, those before the last come no later than it.
proof fn lemma_up_to_prefix(events: Seq<Event>, now: int)
    requires
        up_to(events, now),
        events.len() > 0,
    ensures
        up_to(events.drop_last(), events.last().at),
        events.last().at <= now,
{
    let earlier = events.drop_last();
    let last = events[events.len() - 1];
    assert(events.last() == last);
    assert forall|i: int| 0 <= i < earlier.len() implies (#[trigger] earlier[i]).at <= last.at by {
        assert(earlier[i] == events[i]);
    }
}

/// A client has as many requests let through as its own bucket admits, whatever
/// other messages come.
proof fn lemma_own_bucket_counts(
    buckets: Map<ClientIp, BucketState>,
    limits: BucketLimits,
    events: Seq<Event>,
    ip: ClientIp,
    now: int,
)
    requires
        well_kept(buckets, limits),
        idle_means_empty(limits),
        up_to(events, now),
    ensures
        ({
            let times = requests_of(events, ip);
            let_through(buckets, limits, events, ip) == admitted(
                bucket_for(buckets, limits, ip, times.first()),
                times,
            )
        }),
    decreases events.len(),
{
    if events.len() > 0 {
        let earlier = events.drop_last();
        let at = events.last().at;
        let before = requests_of(earlier, ip);
        lemma_up_to_prefix(events, now);
        lemma_own_bucket_counts(buckets, limits, earlier, ip, at);
        if events.last().message == (RateLimitMessage::Allow { ip }) {
            let times = before.push(at);
            assert(times.drop_last() =~= before);
            assert(times.last() == at);
            law_cleanups_go_unnoticed(buckets, limits, earlier, ip, at);
            lemma_cleanups_are_no_requests(earlier, ip);
            law_own_requests_decide(buckets, limits, without_cleanups(earlier), ip);
            if before.len() > 0 {
                assert(times.first() == before.first());
            } else {
                let bucket = bucket_for(buckets, limits, ip, at);
                assert(after_all(bucket, before) == bucket);
                assert(admitted(bucket, before) == 0);
            }
        }
    }
}

/// The message comes by the clock: at the reading that takes it from one state to
/// the next.
pub open spec fn comes_by(event: Event, before: Clock, after: Clock) -> bool {
    event.at == after.latest() && before.ticks_to(after, after.latest())
}

/// The messages come by a clock that goes through these states.
pub open spec fn clocked(events: Seq<Event>, clocks: Seq<Clock>) -> bool {
    &&& clocks.len() == events.len() + 1
    &&& forall|i: int|
        0 <= i < events.len() ==> comes_by(#[trigger] events[i], clocks[i], clocks[i + 1])
}

/// Messages that come by a clock come in order, and none after its latest
/// reading. So whatever holds of messages in order holds of any series of
/// messages that a rate limiter takes by its clock.
pub proof fn law_clocked_messages_come_in_order(events: Seq<Event>, clocks: Seq<Clock>)
    requires
        clocked(events, clocks),
    ensures
        up_to(events, clocks.last().latest() as int),
    decreases events.len(),
{
    if events.len() > 0 {
        let earlier = events.drop_last();
        let fewer = clocks.drop_last();
        let last = events.len() - 1;
        assert forall|i: int| 0 <= i < earlier.len() implies comes_by(
            #[trigger] earlier[i],
            fewer[i],
            fewer[i + 1],
        ) by {
            assert(comes_by(events[i], clocks[i], clocks[i + 1]));
        }
        law_clocked_messages_come_in_order(earlier, fewer);
        assert(comes_by(events[last], clocks[last], clocks[last + 1]));
        assert forall|i: int| 0 <= i < events.len() implies (#[trigger] events[i]).at
            <= events[last].at by {
            if i < last {
                assert(earlier[i] == events[i]);
            }
        }
        assert forall|i: int, j: int|
            #![trigger events[i], events[j]]
            0 <= i <= j < events.len() implies events[i].at <= events[j].at by {
            if j < last {
                assert(earlier[i] == events[i] && earlier[j] == events[j]);
            }
        }
    }
}

/// Every client is held to its limits, whatever messages come, cleanups
/// included: of its requests, no more are let through than its bucket holds and
/// what leaks away between the first and the last.
pub proof fn law_client_is_held_to_its_limits(
    buckets: Map<ClientIp, BucketState>,
    limits: BucketLimits,
    events: Seq<Event>,
    ip: ClientIp,
    now: int,
)
    requires
        well_kept(buckets, limits),
        idle_means_empty(limits),
        up_to(events, now),
        requests_of(events, ip).len() > 0,
    ensures
        ({
            let times = requests_of(events, ip);
            let_through(buckets, limits, events, ip) * DROP <= limits.capacity * NANOS_PER_SEC
                + limits.leak_rate * (times.last() - times.first())
        }),
{
    let times = requests_of(events, ip);
    lemma_own_bucket_counts(buckets, limits, events, ip, now);
    lemma_requests_in_order(events, ip, now);
    law_throughput_is_bounded(bucket_for(buckets, limits, ip, times.first()), times);
}

/// What a client that is known gets, and what becomes of its bucket, in terms of
/// the bucket it has: what is left of the water after the leak decides.
pub proof fn law_known_client(
    buckets: Map<ClientIp, BucketState>,
    limits: BucketLimits,
    ip: ClientIp,
    now: int,
    action: RateLimitAction,
)
    requires
        well_kept(buckets, limits),
        buckets.contains_key(ip),
        answers(buckets, limits, RateLimitMessage::Allow { ip }, now, action),
    ensures
        ({
            let bucket = buckets[ip];
            let leaked = if now < bucket.last_check {
                0
            } else {
                limits.leak_rate * (now - bucket.last_check)
            };
            let left = if bucket.water <= leaked {
                0
            } else {
                bucket.water - leaked
            };
            let fits = left + DROP <= limits.capacity * NANOS_PER_SEC;
            let after = after_message(buckets, limits, RateLimitMessage::Allow { ip }, now);
            &&& action == RateLimitAction::Reply(fits)
            &&& after.contains_key(ip)
            &&& after[ip].water == if fits {
                left + DROP
            } else {
                left
            }
            &&& after[ip].last_check == now
            &&& after[ip].last_used == now
        }),
{
    law_request_is_exact(buckets[ip], now);
}

/// What a client that is not known gets: its request is let through if a bucket
/// holds a whole request, and then its bucket holds one drop.
pub proof fn law_new_client(
    buckets: Map<ClientIp, BucketState>,
    limits: BucketLimits,
    ip: ClientIp,
    now: int,
    action: RateLimitAction,
)
    requires
        !buckets.contains_key(ip),
        answers(buckets, limits, RateLimitMessage::Allow { ip }, now, action),
    ensures
        ({
            let fits = limits.capacity >= 1_000_000_000;
            let after = after_message(buckets, limits, RateLimitMessage::Allow { ip }, now);
            &&& action == RateLimitAction::Reply(fits)
            &&& after.contains_key(ip)
            &&& after[ip].water == if fits {
                DROP as int
            } else {
                0
            }
            &&& after[ip].capacity == limits.capacity * NANOS_PER_SEC
            &&& after[ip].leak_rate == limits.leak_rate
            &&& after[ip].last_check == now
            &&& after[ip].last_used == now
        }),
{
    law_request_is_exact(BucketState::fresh(limits, now), now);
    let rate = limits.leak_rate as int;
    assert(rate * 0 == 0) by (nonlinear_arith);
}

/// A request touches no bucket but the client's own.
pub proof fn law_request_touches_one_bucket(
    buckets: Map<ClientIp, BucketState>,
    limits: BucketLimits,
    ip: ClientIp,
    other: ClientIp,
    now: int,
)
    requires
        other != ip,
    ensures
        ({
            let after = after_message(buckets, limits, RateLimitMessage::Allow { ip }, now);
            &&& after.contains_key(other) == buckets.contains_key(other)
            &&& buckets.contains_key(other) ==> after[other] == buckets[other]
        }),
{
}

/// A cleanup drops the buckets that were not used for 300 seconds, leaves all
/// others as they are, and tells how many it has dropped.
pub proof fn law_cleanup_is_exact(
    buckets: Map<ClientIp, BucketState>,
    limits: BucketLimits,
    now: int,
    action: RateLimitAction,
)
    requires
        buckets.dom().finite(),
        answers(buckets, limits, RateLimitMessage::CleanExpired, now, action),
    ensures
        ({
            let after = after_message(buckets, limits, RateLimitMessage::CleanExpired, now);
            let dropped = Set::new(
                |ip: ClientIp|
                    buckets.contains_key(ip) && now >= buckets[ip].last_used + 300 * NANOS_PER_SEC,
            );
            &&& action matches RateLimitAction::Cleaned(removed)
            &&& removed == dropped.len()
            &&& forall|ip: ClientIp| #[trigger]
                after.contains_key(ip) <==> buckets.contains_key(ip) && !dropped.contains(ip)
            &&& forall|ip: ClientIp| #[trigger]
                after.contains_key(ip) ==> after[ip] == buckets[ip]
        }),
{
    let after = without_idle(buckets, now);
    let dropped = Set::new(
        |ip: ClientIp|
            buckets.contains_key(ip) && now >= buckets[ip].last_used + 300 * NANOS_PER_SEC,
    );
    vstd::set_lib::lemma_set_subset_finite(buckets.dom(), dropped);
    vstd::set_lib::lemma_set_subset_finite(buckets.dom(), after.dom());
    assert(buckets.dom() =~= after.dom() + dropped);
    vstd::set_lib::lemma_set_disjoint_lens(after.dom(), dropped);
}

/// A message to stop is answered by stopping, and changes nothing.
pub proof fn law_shutdown_stops(
    buckets: Map<ClientIp, BucketState>,
    limits: BucketLimits,
    now: int,
    action: RateLimitAction,
)
    requires
        answers(buckets, limits, RateLimitMessage::Shutdown, now, action),
    ensures
        action == RateLimitAction::Stop,
        after_message(buckets, limits, RateLimitMessage::Shutdown, now) == buckets,
{
}

} // verus!
