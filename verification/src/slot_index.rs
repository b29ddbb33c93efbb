//! The hash side of the cache: which slots hold a key of a given digest.
use std::collections::HashMap;
use vstd::prelude::*;

verus! {

broadcast use vstd::std_specs::hash::group_hash_axioms;

/// For every digest, the slots whose keys have it. Keys that share a digest
/// share a bucket; a bucket that runs empty is given up.
pub struct SlotIndex {
    buckets: HashMap<u64, Vec<usize>>,
}

impl View for SlotIndex {
    type V = Set<(u64, usize)>;

    /// The pairs of a digest and a slot that are on record.
    closed spec fn view(&self) -> Set<(u64, usize)> {
        Set::new(
            |pair: (u64, usize)|
                self.buckets@.contains_key(pair.0) && self.buckets@[pair.0]@.contains(pair.1),
        )
    }
}

impl SlotIndex {
    /// No bucket names a slot twice, and none is empty.
    pub closed spec fn wf(&self) -> bool {
        forall|digest: u64| #[trigger]
            self.buckets@.contains_key(digest) ==> {
                &&& self.buckets@[digest]@.no_duplicates()
                &&& self.buckets@[digest]@.len() > 0
            }
    }

    /// An index with nothing on record.
    pub fn new() -> (index: SlotIndex)
        ensures
            index.wf(),
            index@ == Set::<(u64, usize)>::empty(),
    {
        let index = SlotIndex { buckets: HashMap::new() };
        assert(index@ =~= Set::<(u64, usize)>::empty());
        index
    }

    /// The slots on record under `digest`.
    pub fn candidates(&self, digest: u64) -> (slots: Option<&Vec<usize>>)
        requires
            self.wf(),
        ensures
            match slots {
                Some(found) => forall|slot: usize|
                    found@.contains(slot) <==> #[trigger] self@.contains((digest, slot)),
                None => forall|slot: usize| !#[trigger] self@.contains((digest, slot)),
            },
    {
        self.buckets.get(&digest)
    }

    /// Puts `slot` on record under `digest`.
    pub fn add_slot(&mut self, digest: u64, slot: usize)
        requires
            old(self).wf(),
            !old(self)@.contains((digest, slot)),
        ensures
            final(self).wf(),
            final(self)@ == old(self)@.insert((digest, slot)),
    {
        let mut bucket = match self.buckets.remove(&digest) {
            Some(bucket) => bucket,
            None => Vec::new(),
        };
        let ghost before = bucket@;
        bucket.push(slot);
        proof {
            if old(self).buckets@.contains_key(digest) {
                assert(before == old(self).buckets@[digest]@);
                assert(old(self)@.contains((digest, slot)) == before.contains(slot));
            }
            assert(!before.contains(slot));
            assert forall|other: usize| bucket@.contains(other) <==> (before.contains(other)
                || other == slot) by {
                if before.contains(other) {
                    let i = choose|i: int| 0 <= i < before.len() && before[i] == other;
                    assert(bucket@[i] == other);
                }
                assert(bucket@[before.len() as int] == slot);
            }
        }
        self.buckets.insert(digest, bucket);
        assert(self@ =~= old(self)@.insert((digest, slot)));
    }

    /// Takes `slot` off the record under `digest`.
    pub fn remove_slot(&mut self, digest: u64, slot: usize)
        requires
            old(self).wf(),
            old(self)@.contains((digest, slot)),
        ensures
            final(self).wf(),
            final(self)@ == old(self)@.remove((digest, slot)),
    {
        match self.buckets.remove(&digest) {
            Some(mut bucket) => {
                let ghost before = bucket@;
                let mut i: usize = 0;
                while bucket[i] != slot
                    invariant
                        bucket@ == before,
                        i < bucket@.len(),
                        before.contains(slot),
                        forall|j: int| 0 <= j < i ==> before[j] != slot,
                    decreases bucket@.len() - i,
                {
                    proof {
                        let at = choose|j: int| 0 <= j < before.len() && before[j] == slot;
                        assert(i < at < bucket.len());
                    }
                    i += 1;
                }
                bucket.swap_remove(i);
                proof {
                    let last = before.len() - 1;
                    assert forall|other: usize| bucket@.contains(other) <==> (before.contains(other)
                        && other != slot) by {
                        if before.contains(other) && other != slot {
                            let j = choose|j: int| 0 <= j < before.len() && before[j] == other;
                            if j == last {
                                assert(bucket@[i as int] == other);
                            } else {
                                assert(bucket@[j] == other);
                            }
                        }
                        if bucket@.contains(other) {
                            let j = choose|j: int| 0 <= j < bucket@.len() && bucket@[j] == other;
                            if j == i {
                                assert(before[last] == other);
                            } else {
                                assert(before[j] == other);
                            }
                        }
                    }
                    assert(bucket@.no_duplicates());
                }
                if bucket.len() > 0 {
                    self.buckets.insert(digest, bucket);
                } else {
                    assert(bucket@.len() == 0);
                }
            },
            None => {},
        }
        assert(self@ =~= old(self)@.remove((digest, slot)));
    }
}

} // verus!
