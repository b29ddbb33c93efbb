//! The buckets of the clients that have addresses of one kind.
use crate::leaky_bucket::{BucketLimits, BucketState, LeakyBucket};
use std::collections::HashMap;
use std::hash::Hash;
use vstd::prelude::*;
use vstd::std_specs::hash::obeys_key_model;

verus! {

broadcast use vstd::std_specs::hash::group_hash_axioms;

/// A bucket for every client address that was seen.
pub struct BucketTable<A: Copy + Eq + Hash> {
    buckets: HashMap<A, LeakyBucket>,
}

/// The buckets after a request from `address` at time `now`: a client that has
/// none is given a fresh one.
pub open spec fn after_request<A>(
    buckets: Map<A, BucketState>,
    limits: BucketLimits,
    address: A,
    now: int,
) -> Map<A, BucketState> {
    buckets.insert(address, bucket_for(buckets, limits, address, now).after(now))
}

/// The bucket that a request from `address` at time `now` goes to.
pub open spec fn bucket_for<A>(
    buckets: Map<A, BucketState>,
    limits: BucketLimits,
    address: A,
    now: int,
) -> BucketState {
    if buckets.contains_key(address) {
        buckets[address]
    } else {
        BucketState::fresh(limits, now)
    }
}

/// The buckets that are not idle at time `now`.
pub open spec fn without_idle<A>(buckets: Map<A, BucketState>, now: int) -> Map<A, BucketState> {
    buckets.restrict(
        Set::new(|address: A| buckets.contains_key(address) && !buckets[address].idle(now)),
    )
}

impl<A: Copy + Eq + Hash> View for BucketTable<A> {
    type V = Map<A, BucketState>;

    closed spec fn view(&self) -> Map<A, BucketState> {
        self.buckets@.map_values(|bucket: LeakyBucket| bucket@)
    }
}

impl<A: Copy + Eq + Hash> BucketTable<A> {
    /// Every bucket is valid.
    pub open spec fn wf(&self) -> bool {
        &&& obeys_key_model::<A>()
        &&& self@.dom().finite()
        &&& forall|address: A| #[trigger] self@.contains_key(address) ==> self@[address].valid()
    }

    /// A table without buckets.
    pub fn new() -> (table: Self)
        requires
            obeys_key_model::<A>(),
        ensures
            table.wf(),
            table@ == Map::<A, BucketState>::empty(),
    {
        let table = BucketTable { buckets: HashMap::new() };
        assert(table@ =~= Map::<A, BucketState>::empty());
        table
    }

    /// The number of buckets.
    pub fn len(&self) -> (len: usize)
        requires
            self.wf(),
        ensures
            len == self@.len(),
    {
        assert(self@.dom() =~= self.buckets@.dom());
        self.buckets.len()
    }

    /// Whether a request from `address` at time `now` is let through.
    pub fn allow(&mut self, limits: BucketLimits, address: A, now: u128) -> (allowed: bool)
        requires
            old(self).wf(),
        ensures
            final(self).wf(),
            allowed == bucket_for(old(self)@, limits, address, now as int).admits(now as int),
            final(self)@ == after_request(old(self)@, limits, address, now as int),
    {
        let mut bucket = match self.buckets.remove(&address) {
            Some(bucket) => {
                assert(old(self)@.contains_key(address));
                bucket
            },
            None => LeakyBucket::new(limits, now),
        };
        let allowed = bucket.allow_at(now);
        self.buckets.insert(address, bucket);
        assert(self@ =~= after_request(old(self)@, limits, address, now as int));
        allowed
    }

    /// Drops the buckets that are idle at time `now` and tells how many there
    /// were.
    pub fn clean(&mut self, now: u128) -> (removed: usize)
        requires
            old(self).wf(),
        ensures
            final(self).wf(),
            final(self)@ == without_idle(old(self)@, now as int),
            removed == old(self)@.len() - final(self)@.len(),
    {
        let before: usize = self.len();
        let idle: Vec<A> = self.idle_addresses(now);
        let mut i: usize = 0;
        while i < idle.len()
            invariant
                self.wf(),
                i <= idle@.len(),
                self@ == old(self)@.remove_keys(idle@.take(i as int).to_set()),
            decreases idle@.len() - i,
        {
            let ghost before = self@;
            self.buckets.remove(&idle[i]);
            assert(self@ =~= before.remove(idle@[i as int]));
            assert(idle@.take(i + 1).to_set() =~= idle@.take(i as int).to_set().insert(
                idle@[i as int],
            )) by {
                broadcast use vstd::seq_lib::group_seq_properties;

                assert(idle@.take(i + 1) =~= idle@.take(i as int).push(idle@[i as int]));
            }
            assert(self@ =~= old(self)@.remove_keys(idle@.take(i + 1).to_set()));
            i += 1;
        }
        assert(idle@.take(i as int) =~= idle@);
        assert(self@ =~= without_idle(old(self)@, now as int));
        proof {
            vstd::set_lib::lemma_len_subset(self@.dom(), old(self)@.dom());
        }
        before - self.len()
    }

    /// The addresses whose buckets are idle at time `now`.
    fn idle_addresses(&self, now: u128) -> (idle: Vec<A>)
        requires
            self.wf(),
        ensures
            forall|address: A|
                idle@.contains(address) <==> #[trigger] self@.contains_key(address)
                    && self@[address].idle(now as int),
    {
        let mut idle: Vec<A> = Vec::new();
        for address in iter: self.buckets.keys()
            invariant
                self.wf(),
                iter.seq().unref().to_set() == self.buckets@.dom(),
                forall|i: int|
                    0 <= i < iter.index() && self.buckets@[*iter.seq()[i]]@.idle(now as int)
                        ==> idle@.contains(*#[trigger] iter.seq()[i]),
                forall|i: int|
                    0 <= i < idle@.len() ==> self.buckets@.contains_key(#[trigger] idle@[i])
                        && self.buckets@[idle@[i]]@.idle(now as int),
        {
            assert(iter.seq().unref()[iter.index()] == *address);
            assert(self.buckets@.contains_key(*address));
            let ghost before = idle@;
            if let Some(bucket) = self.buckets.get(address) {
                if bucket.is_idle(now) {
                    idle.push(*address);
                    assert(idle@[before.len() as int] == *address);
                }
            }
            assert forall|a: A| before.contains(a) implies idle@.contains(a) by {
                let k = before.index_of(a);
                assert(idle@[k] == a);
            }
        }
        idle
    }
}

} // verus!
