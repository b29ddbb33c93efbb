//! The rate limiter: one leaky bucket for every client, and the messages that
//! it is sent.
use crate::bucket_table::{after_request, bucket_for, without_idle, BucketTable};
use crate::leaky_bucket::{BucketLimits, BucketState};
use crate::time::{Clock, NANOS_PER_SEC};
use vstd::prelude::*;

verus! {

broadcast use vstd::std_specs::hash::group_hash_axioms;

/// How often idle buckets are dropped, in seconds.
pub const CLEANUP_INTERVAL: u64 = 300;

/// The address of a client, as the number that its bytes spell, most
/// significant first.
#[derive(Debug, Clone, Copy, PartialEq, Eq)]
pub enum ClientIp {
    V4(u32),
    V6(u128),
}

/// What the rate limiter is asked to do.
pub enum RateLimitMessage {
    /// Decide whether a request from this client is let through.
    Allow { ip: ClientIp },
    /// Drop the buckets that are idle.
    CleanExpired,
    /// Stop.
    Shutdown,
}

/// What is to be done once the rate limiter has taken a message.
#[derive(Debug, Clone, Copy, PartialEq, Eq)]
pub enum RateLimitAction {
    /// Tell the sender whether the request is let through.
    Reply(bool),
    /// Go on; so many idle buckets were dropped.
    Cleaned(u128),
    /// Take no more messages.
    Stop,
}

/// The rate limiter. Addresses of either kind have a table of their own.
pub struct RateLimiter {
    v4: BucketTable<u32>,
    v6: BucketTable<u128>,
    limits: BucketLimits,
    clock: Clock,
}

/// Every bucket is valid, is of the size and leak rate that the limits give,
/// and was last checked when it was last used.
pub open spec fn well_kept(buckets: Map<ClientIp, BucketState>, limits: BucketLimits) -> bool {
    forall|ip: ClientIp| #[trigger]
        buckets.contains_key(ip) ==> {
            &&& buckets[ip].valid()
            &&& buckets[ip].capacity == limits.capacity * NANOS_PER_SEC
            &&& buckets[ip].leak_rate == limits.leak_rate
            &&& buckets[ip].last_check == buckets[ip].last_used
        }
}

/// The buckets after a message that comes at time `now`.
pub open spec fn after_message(
    buckets: Map<ClientIp, BucketState>,
    limits: BucketLimits,
    message: RateLimitMessage,
    now: int,
) -> Map<ClientIp, BucketState> {
    match message {
        RateLimitMessage::Allow { ip } => after_request(buckets, limits, ip, now),
        RateLimitMessage::CleanExpired => without_idle(buckets, now),
        RateLimitMessage::Shutdown => buckets,
    }
}

/// This is the action that a message calls for that comes at time `now`.
pub open spec fn answers(
    buckets: Map<ClientIp, BucketState>,
    limits: BucketLimits,
    message: RateLimitMessage,
    now: int,
    action: RateLimitAction,
) -> bool {
    match message {
        RateLimitMessage::Allow { ip } => action == RateLimitAction::Reply(
            bucket_for(buckets, limits, ip, now).admits(now),
        ),
        RateLimitMessage::CleanExpired => action matches RateLimitAction::Cleaned(removed)
            && removed == buckets.len() - without_idle(buckets, now).len(),
        RateLimitMessage::Shutdown => action == RateLimitAction::Stop,
    }
}

impl View for RateLimiter {
    type V = Map<ClientIp, BucketState>;

    closed spec fn view(&self) -> Map<ClientIp, BucketState> {
        both_kinds(self.v4@, self.v6@)
    }
}

/// The buckets in the two tables together.
spec fn both_kinds(v4: Map<u32, BucketState>, v6: Map<u128, BucketState>) -> Map<
    ClientIp,
    BucketState,
> {
    Map::new(
        |ip: ClientIp|
            match ip {
                ClientIp::V4(address) => v4.contains_key(address),
                ClientIp::V6(address) => v6.contains_key(address),
            },
        |ip: ClientIp|
            match ip {
                ClientIp::V4(address) => v4[address],
                ClientIp::V6(address) => v6[address],
            },
    )
}

/// There are as many buckets as in the two tables together.
proof fn lemma_both_kinds_len(v4: Map<u32, BucketState>, v6: Map<u128, BucketState>)
    requires
        v4.dom().finite(),
        v6.dom().finite(),
    ensures
        both_kinds(v4, v6).dom().finite(),
        both_kinds(v4, v6).len() == v4.len() + v6.len(),
{
    let ones = v4.dom().map(|address: u32| ClientIp::V4(address));
    let others = v6.dom().map(|address: u128| ClientIp::V6(address));
    assert forall|ip: ClientIp| both_kinds(v4, v6).dom().contains(ip) implies (ones
        + others).contains(ip) by {
        match ip {
            ClientIp::V4(address) => {
                assert(v4.dom().contains(address));
            },
            ClientIp::V6(address) => {
                assert(v6.dom().contains(address));
            },
        }
    }
    assert(both_kinds(v4, v6).dom() =~= ones + others);
    vstd::set_lib::lemma_map_size(v4.dom(), ones, |address: u32| ClientIp::V4(address));
    vstd::set_lib::lemma_map_size(v6.dom(), others, |address: u128| ClientIp::V6(address));
    vstd::set_lib::lemma_set_disjoint_lens(ones, others);
}

impl RateLimiter {
    /// The limits that the bucket of every client is made with.
    pub closed spec fn limits(&self) -> BucketLimits {
        self.limits
    }

    /// The clock that the limiter goes by.
    pub closed spec fn clock(&self) -> Clock {
        self.clock
    }

    /// The tables are sound and the buckets well kept.
    pub closed spec fn wf(&self) -> bool {
        &&& self.v4.wf()
        &&& self.v6.wf()
        &&& well_kept(self@, self.limits)
    }

    /// The buckets of a sound rate limiter are well kept.
    pub proof fn law_buckets_are_well_kept(&self)
        requires
            self.wf(),
        ensures
            well_kept(self@, self.limits()),
    {
    }

    /// A rate limiter that has seen no client.
    pub fn new(limits: BucketLimits) -> (limiter: RateLimiter)
        ensures
            limiter.wf(),
            limiter@ == Map::<ClientIp, BucketState>::empty(),
            limiter.limits() == limits,
            limiter.clock().latest() == 0,
    {
        let limiter = RateLimiter {
            v4: BucketTable::new(),
            v6: BucketTable::new(),
            limits,
            clock: Clock::start(),
        };
        assert(limiter@ =~= Map::<ClientIp, BucketState>::empty());
        limiter
    }

    /// Takes a message that comes at time `now`.
    pub fn handle_at(&mut self, message: RateLimitMessage, now: u128) -> (action: RateLimitAction)
        requires
            old(self).wf(),
        ensures
            final(self).wf(),
            final(self).limits() == old(self).limits(),
            final(self).clock() == old(self).clock(),
            final(self)@ == after_message(old(self)@, old(self).limits(), message, now as int),
            answers(old(self)@, old(self).limits(), message, now as int, action),
    {
        match message {
            RateLimitMessage::Allow { ip } => {
                let allowed = match ip {
                    ClientIp::V4(address) => self.v4.allow(self.limits, address, now),
                    ClientIp::V6(address) => self.v6.allow(self.limits, address, now),
                };
                assert(self@ =~= after_request(old(self)@, old(self).limits, ip, now as int));
                RateLimitAction::Reply(allowed)
            },
            RateLimitMessage::CleanExpired => {
                let removed_v4: usize = self.v4.clean(now);
                let removed_v6: usize = self.v6.clean(now);
                assert(self@ =~= without_idle(old(self)@, now as int));
                proof {
                    lemma_both_kinds_len(old(self).v4@, old(self).v6@);
                    lemma_both_kinds_len(self.v4@, self.v6@);
                }
                RateLimitAction::Cleaned(removed_v4 as u128 + removed_v6 as u128)
            },
            RateLimitMessage::Shutdown => RateLimitAction::Stop,
        }
    }

    /// Takes a message that comes now: no earlier than any that came before.
    pub fn handle(&mut self, message: RateLimitMessage) -> (action: RateLimitAction)
        requires
            old(self).wf(),
        ensures
            final(self).wf(),
            final(self).limits() == old(self).limits(),
            exists|now: u128|
                {
                    &&& old(self).clock().ticks_to(final(self).clock(), now)
                    &&& final(self)@ == #[trigger] after_message(
                        old(self)@,
                        old(self).limits(),
                        message,
                        now as int,
                    )
                    &&& answers(old(self)@, old(self).limits(), message, now as int, action)
                },
    {
        let now: u128 = self.clock.tick();
        assert(self@ == old(self)@);
        let action = self.handle_at(message, now);
        assert(old(self).clock().ticks_to(self.clock(), now));
        assert(self@ == after_message(old(self)@, old(self).limits(), message, now as int));
        action
    }
}

} // verus!
