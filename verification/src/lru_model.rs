//! What the cache's operations do, stated over the sequence of its entries
//! from the most to the least recently used.
use vstd::prelude::*;

verus! {

/// An entry of the cache: what tells its key from others, its value, and the
/// time from which on it has expired.
pub struct CachedEntry<I, V> {
    pub key: I,
    pub value: V,
    pub expiry: int,
}

/// The entry may still be handed out at time `now`.
pub open spec fn is_live<I, V>(entry: CachedEntry<I, V>, now: int) -> bool {
    now < entry.expiry
}

/// There is an entry with this key.
pub open spec fn has_key<I, V>(entries: Seq<CachedEntry<I, V>>, key: I) -> bool {
    exists|i: int| 0 <= i < entries.len() && (#[trigger] entries[i]).key == key
}

/// Where the entry with this key stands, if there is one.
pub open spec fn position_of<I, V>(entries: Seq<CachedEntry<I, V>>, key: I) -> int {
    choose|i: int| 0 <= i < entries.len() && (#[trigger] entries[i]).key == key
}

/// No two entries have the same key.
pub open spec fn distinct_keys<I, V>(entries: Seq<CachedEntry<I, V>>) -> bool {
    forall|i: int, j: int|
        #![trigger entries[i], entries[j]]
        0 <= i < j < entries.len() ==> entries[i].key != entries[j].key
}

/// What the entries of a cache with this capacity always are: no more than it
/// may hold, and no two with the same key.
pub open spec fn valid_entries<I, V>(entries: Seq<CachedEntry<I, V>>, capacity: nat) -> bool {
    entries.len() <= capacity && distinct_keys(entries)
}

/// The entries without the one that stands at `at`.
pub open spec fn without<I, V>(entries: Seq<CachedEntry<I, V>>, at: int) -> Seq<
    CachedEntry<I, V>,
> {
    entries.remove(at)
}

/// The entries after one is put in. A key that is present is given the new
/// value and expiry and moves to the front. A new key goes to the front, and
/// where that makes one entry too many, the least recently used one leaves.
pub open spec fn after_put<I, V>(
    entries: Seq<CachedEntry<I, V>>,
    capacity: nat,
    entry: CachedEntry<I, V>,
) -> Seq<CachedEntry<I, V>> {
    if has_key(entries, entry.key) {
        seq![entry] + without(entries, position_of(entries, entry.key))
    } else if entries.len() < capacity {
        seq![entry] + entries
    } else {
        (seq![entry] + entries).drop_last()
    }
}

/// What a lookup answers: the value, if the key is present and has not expired.
pub open spec fn get_answer<I, V>(entries: Seq<CachedEntry<I, V>>, key: I, now: int) -> Option<V> {
    if has_key(entries, key) && is_live(entries[position_of(entries, key)], now) {
        Some(entries[position_of(entries, key)].value)
    } else {
        None
    }
}

/// The entries after a lookup: the one that was found moves to the front if it
/// is live and leaves if it has expired.
pub open spec fn after_get<I, V>(entries: Seq<CachedEntry<I, V>>, key: I, now: int) -> Seq<
    CachedEntry<I, V>,
> {
    if has_key(entries, key) {
        let at = position_of(entries, key);
        if is_live(entries[at], now) {
            seq![entries[at]] + without(entries, at)
        } else {
            without(entries, at)
        }
    } else {
        entries
    }
}

/// The entries after a sweep: those that are live, in the order they had.
pub open spec fn after_sweep<I, V>(entries: Seq<CachedEntry<I, V>>, now: int) -> Seq<
    CachedEntry<I, V>,
> {
    entries.filter(|entry: CachedEntry<I, V>| is_live(entry, now))
}

} // verus!
