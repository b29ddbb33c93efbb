//! A cache that holds a bounded number of entries, gives up the least recently
//! used one for a new one, and forgets entries whose time to live has passed.
use crate::lru_key::LruKey;
use crate::lru_laws::{law_get_keeps_valid, law_put_keeps_valid};
use crate::lru_model::{
    after_get, after_put, after_sweep, distinct_keys, get_answer, has_key, is_live, position_of,
    valid_entries, without, CachedEntry,
};
use crate::recency_list::RecencyList;
use crate::seq_lemmas::{lemma_filter_agrees, lemma_filter_all, lemma_filter_map, lemma_filter_remove};
use crate::slot_index::SlotIndex;
use crate::time::{Clock, MAX_TTL};
use vstd::prelude::*;

verus! {

/// The cache: a hash index for finding an entry by its key, and a list that
/// keeps the entries in the order of their last use.
pub struct LruCache<K: LruKey, V> {
    index: SlotIndex,
    list: RecencyList<K, V>,
    max_size: usize,
    clock: Clock,
}

impl<K: LruKey, V> View for LruCache<K, V> {
    type V = Seq<CachedEntry<K::V, V>>;

    /// The entries, most recently used first.
    closed spec fn view(&self) -> Seq<CachedEntry<K::V, V>> {
        Seq::new(self.list.order().len(), |i: int| self.entry_in(self.list.order()[i]))
    }
}

/// The test for slots that are not among these.
spec fn not_among(slots: Seq<usize>) -> spec_fn(usize) -> bool {
    |slot: usize| !slots.contains(slot)
}

impl<K: LruKey, V> LruCache<K, V> {
    /// The entry in a slot of the list.
    spec fn entry_in(&self, slot: usize) -> CachedEntry<K::V, V> {
        CachedEntry {
            key: self.list.key_at(slot)@,
            value: self.list.value_at(slot),
            expiry: self.list.expiry_at(slot) as int,
        }
    }

    /// The index has on record exactly the slots of the list, each under the
    /// digest of its key.
    spec fn index_agrees(&self) -> bool {
        forall|digest: u64, slot: usize| #[trigger]
            self.index@.contains((digest, slot)) <==> self.list.order().contains(slot) && digest
                == K::digest_of(self.list.key_at(slot)@)
    }

    /// Index and list agree and no key occurs twice.
    spec fn consistent(&self) -> bool {
        &&& self.index.wf()
        &&& self.list.wf()
        &&& self.index_agrees()
        &&& distinct_keys(self@)
        &&& self.max_size > 0
    }

    /// The most entries that the cache may hold.
    pub closed spec fn max_entries(&self) -> nat {
        self.max_size as nat
    }

    /// The clock that the cache goes by.
    pub closed spec fn clock(&self) -> Clock {
        self.clock
    }

    /// Index and list agree, no key occurs twice, and there are no more entries
    /// than the cache may hold, nor more slots than that and one.
    pub closed spec fn wf(&self) -> bool {
        &&& self.consistent()
        &&& self.list.order().len() <= self.max_size
        &&& self.list.slots() <= self.max_size + 1
    }

    /// A sound cache never holds more entries than it may, nor two with the same
    /// key.
    pub proof fn law_entries_are_valid(&self)
        requires
            self.wf(),
        ensures
            valid_entries(self@, self.max_entries()),
            self.max_entries() > 0,
    {
    }

    /// A cache without entries that holds up to `capacity` of them.
    pub fn new(capacity: usize) -> (cache: Self)
        requires
            capacity > 0,
        ensures
            cache.wf(),
            cache@ == Seq::<CachedEntry<K::V, V>>::empty(),
            cache.max_entries() == capacity,
            cache.clock().latest() == 0,
    {
        let cache = LruCache {
            index: SlotIndex::new(),
            list: RecencyList::new(),
            max_size: capacity,
            clock: Clock::start(),
        };
        assert(cache@ =~= Seq::<CachedEntry<K::V, V>>::empty());
        cache
    }

    /// The number of entries, expired ones that are still there included.
    pub fn len(&self) -> (len: usize)
        requires
            self.wf(),
        ensures
            len == self@.len(),
    {
        self.list.len()
    }

    /// The most entries that the cache may hold.
    pub fn capacity(&self) -> (capacity: usize)
        ensures
            capacity == self.max_entries(),
    {
        self.max_size
    }

    /// The slot that holds `key`, if any does.
    fn find(&self, key: &K) -> (slot: Option<usize>)
        requires
            self.consistent(),
        ensures
            match slot {
                Some(slot) => {
                    &&& self.list.order().contains(slot)
                    &&& has_key(self@, key@)
                    &&& position_of(self@, key@) == self.list.order().index_of(slot)
                    &&& self.list.key_at(slot)@ == key@
                },
                None => !has_key(self@, key@),
            },
    {
        let digest: u64 = key.digest();
        let found = self.index.candidates(digest);
        if let Some(slots) = found {
            let mut i: usize = 0;
            while i < slots.len()
                invariant
                    self.consistent(),
                    digest == K::digest_of(key@),
                    forall|slot: usize|
                        slots@.contains(slot) <==> #[trigger] self.index@.contains((digest, slot)),
                    forall|j: int|
                        0 <= j < i ==> self.list.key_at(#[trigger] slots@[j])@ != key@,
                decreases slots.len() - i,
            {
                let slot: usize = slots[i];
                assert(slots@.contains(slot));
                assert(self.index@.contains((digest, slot)));
                if self.list.key(slot).same_key(key) {
                    proof {
                        let at = self.list.order().index_of(slot);
                        assert(self@[at].key == key@);
                        let chosen = position_of(self@, key@);
                        assert(self@[chosen].key == key@);
                    }
                    return Some(slot);
                }
                i += 1;
            }
        }
        proof {
            if has_key(self@, key@) {
                let at = position_of(self@, key@);
                let slot = self.list.order()[at];
                assert(self@[at].key == key@);
                assert(self.list.order().contains(slot));
                assert(self.index@.contains((digest, slot)));
            }
        }
        None
    }

    /// Drops the entry in `slot`.
    fn drop_slot(&mut self, slot: usize)
        requires
            old(self).consistent(),
            old(self).list.order().contains(slot),
        ensures
            final(self).consistent(),
            final(self).list.order() == old(self).list.order().remove(
                old(self).list.order().index_of(slot),
            ),
            final(self)@ == without(old(self)@, old(self).list.order().index_of(slot)),
            final(self).list.same_entries(&old(self).list, final(self).list.order()),
            final(self).list.slots() == old(self).list.slots(),
            final(self).max_size == old(self).max_size,
            final(self).clock == old(self).clock,
    {
        let ghost at = self.list.order().index_of(slot);
        proof {
            self.list.lemma_order();
        }
        let digest: u64 = self.list.key(slot).digest();
        self.index.remove_slot(digest, slot);
        self.list.remove(slot);
        proof {
            let before = old(self).list.order();
            let after = self.list.order();
            assert forall|i: int| 0 <= i < after.len() implies after.contains(#[trigger] after[i])
                && before.contains(after[i]) && after[i] != slot by {
                let from = if i < at { i } else { i + 1 };
                assert(after[i] == before[from]);
            }
            assert forall|other: usize| #[trigger] before.contains(other) && other != slot implies
                after.contains(other) by {
                let from = before.index_of(other);
                let to = if from < at { from } else { from - 1 };
                assert(after[to] == other);
            }
            assert(self@ =~= without(old(self)@, at));
            assert(!after.contains(slot));
            assert(self.index_agrees());
        }
    }

    /// Drops the least recently used entry, if there is any entry.
    fn remove_lru(&mut self)
        requires
            old(self).consistent(),
        ensures
            final(self).consistent(),
            final(self)@ == if old(self)@.len() == 0 {
                old(self)@
            } else {
                old(self)@.drop_last()
            },
            final(self).list.slots() == old(self).list.slots(),
            final(self).max_size == old(self).max_size,
            final(self).clock == old(self).clock,
    {
        if let Some(slot) = self.list.oldest() {
            proof {
                self.list.lemma_order();
                assert(self.list.order().contains(slot));
            }
            self.drop_slot(slot);
            assert(self@ =~= old(self)@.drop_last());
        }
    }

    /// Puts `v` in under `k` at time `now`, to expire when `ttl` has passed.
    #[verifier::spinoff_prover]
    pub fn put_at(&mut self, k: K, v: V, ttl: u128, now: u128)
        requires
            old(self).wf(),
            now + ttl <= u128::MAX,
        ensures
            final(self).wf(),
            final(self)@ == after_put(
                old(self)@,
                old(self).max_entries(),
                (CachedEntry { key: k@, value: v, expiry: now + ttl }),
            ),
            final(self).max_entries() == old(self).max_entries(),
            final(self).clock() == old(self).clock(),
    {
        let ghost entry = CachedEntry { key: k@, value: v, expiry: now + ttl };
        proof {
            self.list.lemma_order();
        }
        match self.find(&k) {
            Some(slot) => {
                let ghost at = self.list.order().index_of(slot);
                self.list.replace_value(slot, v, now + ttl);
                self.list.move_to_front(slot);
                proof {
                    let before = old(self).list.order();
                    let after = self.list.order();
                    assert forall|i: int| 0 <= i < after.len() implies before.contains(
                        #[trigger] after[i],
                    ) by {
                        assert(after.contains(after[i]));
                    }
                    assert forall|i: int| 0 < i < after.len() implies after[i] != slot by {
                        let from = if i - 1 < at { i - 1 } else { i };
                        assert(after[i] == before[from]);
                    }
                    assert(self@ =~= seq![entry] + without(old(self)@, at));
                    law_put_keeps_valid(old(self)@, self.max_size as nat, entry);
                    assert forall|digest: u64, other: usize| #[trigger]
                        self.index@.contains((digest, other)) <==> after.contains(other) && digest
                            == K::digest_of(self.list.key_at(other)@) by {
                        assert(after.contains(other) <==> before.contains(other));
                    }
                    assert(after.len() == before.len());
                }
            },
            None => {
                let digest: u64 = k.digest();
                let slot: usize = self.list.insert_front(k, v, ttl, now);
                assert(!self.index@.contains((digest, slot)));
                self.index.add_slot(digest, slot);
                proof {
                    let before = old(self).list.order();
                    let after = self.list.order();
                    assert forall|other: usize| (before.contains(other) || other == slot) <==>
                        #[trigger] after.contains(other) by {
                        if before.contains(other) {
                            assert(after[before.index_of(other) + 1] == other);
                        }
                        assert(after[0] == slot);
                        if after.contains(other) && other != slot {
                            assert(before[after.index_of(other) - 1] == other);
                        }
                    }
                    assert forall|i: int| 0 < i < after.len() implies before.contains(
                        #[trigger] after[i],
                    ) by {
                        assert(after[i] == before[i - 1]);
                    }
                    assert(self@ =~= seq![entry] + old(self)@);
                    assert(self.index_agrees());
                    assert(distinct_keys(self@)) by {
                        law_put_keeps_valid(old(self)@, (self.max_size + 1) as nat, entry);
                    }
                }
                if self.list.len() > self.max_size {
                    self.remove_lru();
                }
            },
        }
    }

    /// Looks `key` up at time `now`. An entry that is found and has not expired
    /// becomes the most recently used; one that has expired is dropped.
    pub fn get_at(&mut self, key: &K, now: u128) -> (value: Option<&V>)
        requires
            old(self).wf(),
        ensures
            final(self).wf(),
            final(self)@ == after_get(old(self)@, key@, now as int),
            final(self).max_entries() == old(self).max_entries(),
            final(self).clock() == old(self).clock(),
            match value {
                Some(value) => get_answer(old(self)@, key@, now as int) == Some(*value),
                None => get_answer(old(self)@, key@, now as int) is None,
            },
    {
        proof {
            self.list.lemma_order();
        }
        let slot: usize = match self.find(key) {
            Some(slot) => slot,
            None => {
                return None;
            },
        };
        let ghost at = self.list.order().index_of(slot);
        assert(old(self)@[at] == old(self).entry_in(slot));
        if now >= self.list.expiry(slot) {
            self.drop_slot(slot);
            return None;
        }
        self.list.move_to_front(slot);
        proof {
            let before = old(self).list.order();
            let after = self.list.order();
            assert forall|i: int| 0 <= i < after.len() implies before.contains(
                #[trigger] after[i],
            ) by {
                assert(after.contains(after[i]));
            }
            assert(self@ =~= seq![old(self)@[at]] + without(old(self)@, at));
            law_get_keeps_valid(old(self)@, self.max_size as nat, key@, now as int);
            assert(self.index_agrees());
            assert(after.len() == before.len());
            assert(self.list.order().contains(slot));
        }
        Some(self.list.value(slot))
    }

    /// Drops every entry that has expired at time `now` and tells how many there
    /// were.
    pub fn evict_expired_at(&mut self, now: u128) -> (removed: usize)
        requires
            old(self).wf(),
        ensures
            final(self).wf(),
            final(self)@ == after_sweep(old(self)@, now as int),
            final(self).max_entries() == old(self).max_entries(),
            final(self).clock() == old(self).clock(),
            removed == old(self)@.len() - final(self)@.len(),
    {
        let expired = self.expired_slots(now);
        let ghost order = self.list.order();
        let ghost entry = |slot: usize| old(self).entry_in(slot);
        proof {
            self.list.lemma_order();
            lemma_filter_all(order, not_among(expired@.take(0)));
        }
        let mut i: usize = 0;
        while i < expired.len()
            invariant
                i <= expired@.len(),
                self.consistent(),
                order == old(self).list.order(),
                order.no_duplicates(),
                expired@.no_duplicates(),
                forall|slot: usize| #[trigger]
                    expired@.contains(slot) ==> order.contains(slot),
                self.list.order() == order.filter(not_among(expired@.take(i as int))),
                self.list.order().len() == order.len() - i,
                self.list.same_entries(&old(self).list, self.list.order()),
                self.list.slots() == old(self).list.slots(),
                self.max_size == old(self).max_size,
                self.clock == old(self).clock,
            decreases expired.len() - i,
        {
            let slot: usize = expired[i];
            proof {
                let p = not_among(expired@.take(i as int));
                let q = not_among(expired@.take(i + 1));
                assert(expired@.contains(slot));
                assert(expired@.take(i + 1) =~= expired@.take(i as int).push(slot));
                assert forall|j: int| 0 <= j < order.len() implies q(#[trigger] order[j]) == (p(
                    order[j],
                ) && order[j] != slot) by {
                    let taken = expired@.take(i as int);
                    if taken.contains(order[j]) {
                        assert(taken.push(slot)[taken.index_of(order[j])] == order[j]);
                    }
                    assert(taken.push(slot)[i as int] == slot);
                }
                lemma_filter_remove(order, p, q, slot);
            }
            let ghost before = self.list;
            self.drop_slot(slot);
            proof {
                let kept = self.list.order();
                assert forall|other: usize| #[trigger] kept.contains(other) implies
                    self.list.same_entry(&old(self).list, other) by {
                    let to = kept.index_of(other);
                    let at = before.order().index_of(slot);
                    let from = if to < at { to } else { to + 1 };
                    assert(before.order()[from] == other);
                    assert(before.order().contains(other));
                }
            }
            i += 1;
        }
        proof {
            let live = |slot: usize| now < old(self).list.expiry_at(slot);
            let kept = not_among(expired@);
            let keep = |entry: CachedEntry<K::V, V>| is_live(entry, now as int);
            assert(expired@.take(i as int) =~= expired@);
            assert forall|j: int| 0 <= j < order.len() implies kept(#[trigger] order[j]) == live(
                order[j],
            ) by {
                assert(order.contains(order[j]));
            }
            lemma_filter_agrees(order, kept, live);
            lemma_filter_map(order, entry, keep);
            lemma_filter_agrees(order, live, |slot: usize| keep(entry(slot)));
            assert(old(self)@ =~= order.map_values(entry));
            assert forall|j: int| 0 <= j < self@.len() implies #[trigger] self@[j] == entry(
                self.list.order()[j],
            ) by {
                assert(self.list.order().contains(self.list.order()[j]));
            }
            assert(self@ =~= self.list.order().map_values(entry));
        }
        expired.len()
    }

    /// The slots of the entries that have expired at time `now`, from the least
    /// recently used on.
    fn expired_slots(&self, now: u128) -> (expired: Vec<usize>)
        requires
            self.consistent(),
        ensures
            expired@.no_duplicates(),
            forall|slot: usize| #[trigger]
                expired@.contains(slot) <==> self.list.order().contains(slot) && now
                    >= self.list.expiry_at(slot),
    {
        let mut expired: Vec<usize> = Vec::new();
        let mut current = self.list.oldest();
        let ghost order = self.list.order();
        let ghost mut left: int = order.len() as int;
        proof {
            self.list.lemma_order();
        }
        while current.is_some()
            invariant
                self.consistent(),
                order == self.list.order(),
                order.no_duplicates(),
                0 <= left <= order.len(),
                current == if left == 0 {
                    None
                } else {
                    Some(order[left - 1])
                },
                expired@.no_duplicates(),
                forall|other: usize| #[trigger]
                    expired@.contains(other) <==> order.contains(other) && order.index_of(other)
                        >= left && now >= self.list.expiry_at(other),
            decreases left,
        {
            let slot: usize = current.unwrap();
            let ghost before = expired@;
            proof {
                assert(order.contains(slot));
                assert(order.index_of(slot) == left - 1);
            }
            assert(!before.contains(slot));
            if now >= self.list.expiry(slot) {
                expired.push(slot);
            }
            proof {
                assert forall|other: usize| #[trigger] expired@.contains(other) <==> order.contains(
                    other,
                ) && order.index_of(other) >= left - 1 && now >= self.list.expiry_at(other) by {
                    if before.contains(other) {
                        assert(expired@[before.index_of(other)] == other);
                    }
                    if expired@.len() > before.len() {
                        assert(expired@[before.len() as int] == slot);
                    }
                    if order.contains(other) && order.index_of(other) == left - 1 {
                        assert(other == slot);
                    }
                }
                left = left - 1;
            }
            current = self.list.newer(slot);
        }
        expired
    }

    /// Puts `v` in under `k`, to expire when `ttl` nanoseconds have passed.
    pub fn put(&mut self, k: K, v: V, ttl: u128)
        requires
            old(self).wf(),
            ttl <= MAX_TTL,
        ensures
            final(self).wf(),
            final(self).max_entries() == old(self).max_entries(),
            exists|now: u128|
                {
                    &&& #[trigger] old(self).clock().ticks_to(final(self).clock(), now)
                    &&& final(self)@ == after_put(
                        old(self)@,
                        old(self).max_entries(),
                        (CachedEntry { key: k@, value: v, expiry: now + ttl }),
                    )
                },
    {
        let now: u128 = self.clock.tick();
        assert(self@ =~= old(self)@);
        self.put_at(k, v, ttl, now);
        assert(old(self).clock().ticks_to(self.clock(), now));
    }

    /// Looks `key` up. An entry that is found and has not expired becomes the
    /// most recently used; one that has expired is dropped.
    pub fn get(&mut self, key: &K) -> (value: Option<&V>)
        requires
            old(self).wf(),
        ensures
            final(self).wf(),
            final(self).max_entries() == old(self).max_entries(),
            exists|now: u128|
                {
                    &&& old(self).clock().ticks_to(final(self).clock(), now)
                    &&& final(self)@ == #[trigger] after_get(old(self)@, key@, now as int)
                    &&& match value {
                        Some(value) => get_answer(old(self)@, key@, now as int) == Some(*value),
                        None => get_answer(old(self)@, key@, now as int) is None,
                    }
                },
    {
        let now: u128 = self.clock.tick();
        assert(self@ =~= old(self)@);
        self.get_at(key, now)
    }

    /// Drops every entry that has expired and tells how many there were.
    pub fn evict_expired(&mut self) -> (removed: usize)
        requires
            old(self).wf(),
        ensures
            final(self).wf(),
            final(self).max_entries() == old(self).max_entries(),
            exists|now: u128|
                {
                    &&& old(self).clock().ticks_to(final(self).clock(), now)
                    &&& final(self)@ == #[trigger] after_sweep(old(self)@, now as int)
                },
            removed == old(self)@.len() - final(self)@.len(),
    {
        let now: u128 = self.clock.tick();
        assert(self@ =~= old(self)@);
        self.evict_expired_at(now)
    }
}

} // verus!
