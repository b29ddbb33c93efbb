//! The order side of the cache: a doubly linked list, kept in a vector of
//! slots, that runs from the most to the least recently used entry.
use vstd::prelude::*;

verus! {

/// The slot of the sentinel in front of the most recently used entry.
pub const HEAD: usize = 0;

/// The slot of the sentinel behind the least recently used entry.
pub const TAIL: usize = 1;

/// A node of the list. The sentinels and the slots that wait for reuse hold
/// neither a key nor a value.
pub struct LruEntry<K, V> {
    pub next: usize,
    pub prev: usize,
    pub key: Option<K>,
    pub value: Option<V>,
    pub expiry: u128,
}

impl<K, V> LruEntry<K, V> {
    /// A node that holds an entry, made at time `now` to expire when `ttl` has
    /// passed, and that is not linked yet.
    pub fn new(key: K, val: V, ttl: u128, now: u128) -> (entry: LruEntry<K, V>)
        requires
            now + ttl <= u128::MAX,
        ensures
            entry.next == TAIL,
            entry.prev == HEAD,
            entry.key == Some(key),
            entry.value == Some(val),
            entry.expiry == now + ttl,
    {
        LruEntry { next: TAIL, prev: HEAD, key: Some(key), value: Some(val), expiry: now + ttl }
    }

    /// A node that holds nothing and never expires, linked as the sentinels of an
    /// empty list are: the head to the tail, the tail to the head.
    pub fn new_sigil() -> (entry: LruEntry<K, V>)
        ensures
            entry.next == TAIL,
            entry.prev == HEAD,
            entry.key is None,
            entry.value is None,
            entry.expiry == u128::MAX,
    {
        LruEntry { next: TAIL, prev: HEAD, key: None, value: None, expiry: u128::MAX }
    }
}

/// The list of entries, most recently used first.
pub struct RecencyList<K, V> {
    nodes: Vec<LruEntry<K, V>>,
    free: Vec<usize>,
    order: Ghost<Seq<usize>>,
}

/// Every node on the ring points to its neighbours.
spec fn linked<K, V>(nodes: Seq<LruEntry<K, V>>, ring: Seq<usize>) -> bool {
    &&& forall|i: int|
        0 <= i < ring.len() - 1 ==> (#[trigger] nodes[ring[i] as int]).next == ring[i + 1]
    &&& forall|i: int|
        0 < i < ring.len() ==> (#[trigger] nodes[ring[i] as int]).prev == ring[i - 1]
}

impl<K, V> RecencyList<K, V> {
    /// The slots in use, from the most to the least recently used entry.
    pub closed spec fn order(&self) -> Seq<usize> {
        self.order@
    }

    /// The key in a slot.
    pub closed spec fn key_at(&self, slot: usize) -> K {
        self.nodes@[slot as int].key->0
    }

    /// The value in a slot.
    pub closed spec fn value_at(&self, slot: usize) -> V {
        self.nodes@[slot as int].value->0
    }

    /// The expiry in a slot.
    pub closed spec fn expiry_at(&self, slot: usize) -> u128 {
        self.nodes@[slot as int].expiry
    }

    /// The number of slots ever made, in use or waiting for reuse.
    pub closed spec fn slots(&self) -> nat {
        (self.nodes@.len() - 2) as nat
    }

    /// The slots in use between the two sentinels.
    spec fn ring(&self) -> Seq<usize> {
        seq![HEAD] + self.order@ + seq![TAIL]
    }

    /// The links agree with the order.
    spec fn chain_wf(&self) -> bool {
        &&& self.nodes@.len() >= 2
        &&& self.order@.no_duplicates()
        &&& forall|i: int|
            0 <= i < self.order@.len() ==> 2 <= #[trigger] self.order@[i] < self.nodes@.len()
        &&& linked(self.nodes@, self.ring())
    }

    /// The links agree with the order, the slots in use hold an entry each, and
    /// every other slot waits for reuse and holds nothing.
    pub closed spec fn wf(&self) -> bool {
        &&& self.chain_wf()
        &&& self.nodes@.len() == 2 + self.order@.len() + self.free@.len()
        &&& self.free@.no_duplicates()
        &&& forall|i: int|
            0 <= i < self.order@.len() ==> {
                &&& (#[trigger] self.nodes@[self.order@[i] as int]).key is Some
                &&& self.nodes@[self.order@[i] as int].value is Some
            }
        &&& forall|i: int|
            0 <= i < self.free@.len() ==> {
                &&& 2 <= #[trigger] self.free@[i] < self.nodes@.len()
                &&& !self.order@.contains(self.free@[i])
                &&& self.nodes@[self.free@[i] as int].key is None
                &&& self.nodes@[self.free@[i] as int].value is None
            }
    }

    /// The entries in these slots are the same in both lists.
    pub open spec fn same_entries(&self, other: &Self, slots: Seq<usize>) -> bool {
        forall|slot: usize| #[trigger] slots.contains(slot) ==> self.same_entry(other, slot)
    }

    /// The entry in this slot is the same in both lists.
    pub open spec fn same_entry(&self, other: &Self, slot: usize) -> bool {
        &&& self.key_at(slot) == other.key_at(slot)
        &&& self.value_at(slot) == other.value_at(slot)
        &&& self.expiry_at(slot) == other.expiry_at(slot)
    }

    /// No slot is in use twice.
    pub proof fn lemma_order(&self)
        requires
            self.wf(),
        ensures
            self.order().no_duplicates(),
            self.order().len() <= self.slots(),
    {
    }

    /// A list without entries.
    pub fn new() -> (list: Self)
        ensures
            list.wf(),
            list.order() == Seq::<usize>::empty(),
            list.slots() == 0,
    {
        let mut nodes: Vec<LruEntry<K, V>> = Vec::new();
        nodes.push(LruEntry::new_sigil());
        nodes.push(LruEntry::new_sigil());
        RecencyList { nodes, free: Vec::new(), order: Ghost(Seq::empty()) }
    }

    /// The number of entries.
    pub fn len(&self) -> (len: usize)
        requires
            self.wf(),
        ensures
            len == self.order().len(),
    {
        self.nodes.len() - 2 - self.free.len()
    }

    /// Takes the entry in `slot` out of the chain. The entry stays in its slot.
    fn detach(&mut self, slot: usize)
        requires
            old(self).chain_wf(),
            old(self).order@.contains(slot),
        ensures
            final(self).chain_wf(),
            final(self).order@ == old(self).order@.remove(old(self).order@.index_of(slot)),
            !final(self).order@.contains(slot),
            final(self).free == old(self).free,
            final(self).nodes@.len() == old(self).nodes@.len(),
            forall|i: int|
                0 <= i < final(self).nodes@.len() ==> {
                    &&& (#[trigger] final(self).nodes@[i]).key == old(self).nodes@[i].key
                    &&& final(self).nodes@[i].value == old(self).nodes@[i].value
                    &&& final(self).nodes@[i].expiry == old(self).nodes@[i].expiry
                },
    {
        let ghost ring = self.ring();
        let ghost at = self.order@.index_of(slot);
        proof {
            assert(ring[at + 1] == slot);
            assert(self.nodes@[ring[at + 1] as int].next == ring[at + 2]);
            assert(self.nodes@[ring[at + 1] as int].prev == ring[at]);
        }
        let next: usize = self.nodes[slot].next;
        let prev: usize = self.nodes[slot].prev;
        self.nodes[prev].next = next;
        self.nodes[next].prev = prev;
        self.order = Ghost(self.order@.remove(at));
        proof {
            let after = self.ring();
            assert(after =~= ring.remove(at + 1));
            assert(ring.no_duplicates());
        }
    }

    /// Puts the entry in `slot` at the front of the chain.
    fn attach(&mut self, slot: usize)
        requires
            old(self).chain_wf(),
            2 <= slot < old(self).nodes@.len(),
            !old(self).order@.contains(slot),
        ensures
            final(self).chain_wf(),
            final(self).order@ == seq![slot] + old(self).order@,
            final(self).free == old(self).free,
            final(self).nodes@.len() == old(self).nodes@.len(),
            forall|i: int|
                0 <= i < final(self).nodes@.len() ==> {
                    &&& (#[trigger] final(self).nodes@[i]).key == old(self).nodes@[i].key
                    &&& final(self).nodes@[i].value == old(self).nodes@[i].value
                    &&& final(self).nodes@[i].expiry == old(self).nodes@[i].expiry
                },
    {
        let ghost ring = self.ring();
        assert(self.nodes@[ring[0] as int].next == ring[1]);
        let next: usize = self.nodes[HEAD].next;
        self.nodes[slot].next = next;
        self.nodes[slot].prev = HEAD;
        self.nodes[HEAD].next = slot;
        self.nodes[next].prev = slot;
        self.order = Ghost(seq![slot] + self.order@);
        proof {
            let after = self.ring();
            assert(after =~= ring.insert(1, slot));
            assert(ring.no_duplicates());
        }
    }

    /// Adds an entry in front, at time `now` to expire when `ttl` has passed, and
    /// tells the slot that it was given: one that waits for reuse if there is any,
    /// a new one if not.
    pub fn insert_front(&mut self, key: K, val: V, ttl: u128, now: u128) -> (slot: usize)
        requires
            old(self).wf(),
            now + ttl <= u128::MAX,
        ensures
            final(self).wf(),
            !old(self).order().contains(slot),
            final(self).order() == seq![slot] + old(self).order(),
            final(self).key_at(slot) == key,
            final(self).value_at(slot) == val,
            final(self).expiry_at(slot) == now + ttl,
            final(self).same_entries(old(self), old(self).order()),
            final(self).slots() == if old(self).slots() > old(self).order().len() {
                old(self).slots()
            } else {
                old(self).slots() + 1
            },
    {
        let entry = LruEntry::new(key, val, ttl, now);
        let slot: usize = match self.free.pop() {
            Some(slot) => {
                assert(slot == old(self).free@.last());
                self.nodes[slot] = entry;
                slot
            },
            None => {
                let slot: usize = self.nodes.len();
                self.nodes.push(entry);
                slot
            },
        };
        proof {
            assert forall|i: int| 0 <= i < self.order@.len() implies self.order@[i] != slot by {
                assert(old(self).order@.contains(self.order@[i]));
            }
            let ring = self.ring();
            assert forall|i: int| 0 <= i < ring.len() implies self.nodes@[#[trigger] ring[i] as int]
                == old(self).nodes@[ring[i] as int] by {
                if 0 < i < ring.len() - 1 {
                    assert(ring[i] == self.order@[i - 1]);
                }
            }
        }
        self.attach(slot);
        proof {
            let order = self.order@;
            assert(order[0] == slot);
            assert forall|i: int| 0 < i < order.len() implies order[i] == old(self).order@[i - 1]
                && old(self).order@.contains(#[trigger] order[i]) by {}
            assert forall|i: int| 0 <= i < self.free@.len() implies !order.contains(
                #[trigger] self.free@[i],
            ) by {
                assert(self.free@[i] == old(self).free@[i]);
            }
        }
        slot
    }

    /// Makes the entry in `slot` the most recently used.
    pub fn move_to_front(&mut self, slot: usize)
        requires
            old(self).wf(),
            old(self).order().contains(slot),
        ensures
            final(self).wf(),
            final(self).order() == seq![slot] + old(self).order().remove(
                old(self).order().index_of(slot),
            ),
            forall|other: usize| #[trigger]
                final(self).order().contains(other) <==> old(self).order().contains(other),
            final(self).same_entries(old(self), old(self).order()),
            final(self).slots() == old(self).slots(),
    {
        let ghost at = self.order@.index_of(slot);
        self.detach(slot);
        self.attach(slot);
        proof {
            let before = old(self).order@;
            let order = self.order@;
            assert(order[0] == slot == before[at]);
            assert forall|i: int| 0 < i < order.len() implies before.contains(
                #[trigger] order[i],
            ) by {
                let from = if i - 1 < at { i - 1 } else { i };
                assert(order[i] == before[from]);
            }
            assert forall|other: usize| #[trigger] order.contains(other) <==> before.contains(
                other,
            ) by {
                if before.contains(other) && other != slot {
                    let from = before.index_of(other);
                    let to = if from < at { from + 1 } else { from };
                    assert(order[to] == other);
                }
            }
        }
    }

    /// Drops the entry in `slot` and gives the slot up for reuse.
    pub fn remove(&mut self, slot: usize)
        requires
            old(self).wf(),
            old(self).order().contains(slot),
        ensures
            final(self).wf(),
            final(self).order() == old(self).order().remove(old(self).order().index_of(slot)),
            final(self).same_entries(old(self), final(self).order()),
            final(self).slots() == old(self).slots(),
    {
        self.detach(slot);
        let ghost detached = self.nodes@;
        self.nodes[slot].key = None;
        self.nodes[slot].value = None;
        self.free.push(slot);
        proof {
            let at = old(self).order@.index_of(slot);
            assert forall|i: int| 0 <= i < self.order@.len() implies old(self).order@.contains(
                #[trigger] self.order@[i],
            ) && self.order@[i] != slot by {
                let from = if i < at { i } else { i + 1 };
                assert(self.order@[i] == old(self).order@[from]);
            }
            let ring = self.ring();
            assert forall|i: int| 0 <= i < ring.len() implies (#[trigger] self.nodes@[ring[i] as int]).next
                == detached[ring[i] as int].next && self.nodes@[ring[i] as int].prev
                == detached[ring[i] as int].prev by {}
            assert forall|i: int| 0 <= i < self.free@.len() - 1 implies self.free@[i] != slot by {
                assert(self.free@[i] == old(self).free@[i]);
            }
        }
    }

    /// The slot of the least recently used entry, if there is any entry.
    pub fn oldest(&self) -> (slot: Option<usize>)
        requires
            self.wf(),
        ensures
            match slot {
                Some(slot) => self.order().len() > 0 && slot == self.order().last(),
                None => self.order().len() == 0,
            },
    {
        let ghost ring = self.ring();
        assert(self.nodes@[ring[ring.len() - 1] as int].prev == ring[ring.len() - 2]);
        let slot: usize = self.nodes[TAIL].prev;
        if slot == HEAD {
            None
        } else {
            Some(slot)
        }
    }

    /// The slot of the entry that was used next after the one in `slot`, if
    /// there is any.
    pub fn newer(&self, slot: usize) -> (newer: Option<usize>)
        requires
            self.wf(),
            self.order().contains(slot),
        ensures
            ({
                let at = self.order().index_of(slot);
                newer == if at == 0 {
                    None
                } else {
                    Some(self.order()[at - 1])
                }
            }),
    {
        let ghost ring = self.ring();
        let ghost at = self.order@.index_of(slot);
        assert(ring[at + 1] == slot);
        assert(self.nodes@[ring[at + 1] as int].prev == ring[at]);
        let prev: usize = self.nodes[slot].prev;
        if prev == HEAD {
            None
        } else {
            Some(prev)
        }
    }

    /// The key of the entry in `slot`.
    pub fn key(&self, slot: usize) -> (key: &K)
        requires
            self.wf(),
            self.order().contains(slot),
        ensures
            *key == self.key_at(slot),
    {
        self.nodes[slot].key.as_ref().unwrap()
    }

    /// The value of the entry in `slot`.
    pub fn value(&self, slot: usize) -> (value: &V)
        requires
            self.wf(),
            self.order().contains(slot),
        ensures
            *value == self.value_at(slot),
    {
        self.nodes[slot].value.as_ref().unwrap()
    }

    /// The expiry of the entry in `slot`.
    pub fn expiry(&self, slot: usize) -> (expiry: u128)
        requires
            self.wf(),
            self.order().contains(slot),
        ensures
            expiry == self.expiry_at(slot),
    {
        self.nodes[slot].expiry
    }

    /// Replaces the value and the expiry of the entry in `slot`, dropping the
    /// value that it held.
    pub fn replace_value(&mut self, slot: usize, val: V, expiry: u128)
        requires
            old(self).wf(),
            old(self).order().contains(slot),
        ensures
            final(self).wf(),
            final(self).order() == old(self).order(),
            final(self).key_at(slot) == old(self).key_at(slot),
            final(self).value_at(slot) == val,
            final(self).expiry_at(slot) == expiry,
            forall|other: usize|
                #![trigger old(self).order().contains(other)]
                old(self).order().contains(other) && other != slot ==> final(self).same_entry(
                    old(self),
                    other,
                ),
            final(self).slots() == old(self).slots(),
    {
        self.nodes[slot].value = Some(val);
        self.nodes[slot].expiry = expiry;
    }
}

} // verus!
