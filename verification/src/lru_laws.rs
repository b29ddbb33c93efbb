//! The laws of the cache, over what its operations do to its entries.
use crate::lru_model::{
    after_get, after_put, after_sweep, distinct_keys, get_answer, has_key, is_live, position_of,
    valid_entries, without, CachedEntry,
};
use crate::seq_lemmas::{lemma_filter_all, lemma_filter_elements, lemma_filter_prefix};
use vstd::prelude::*;

verus! {

/// Where no two entries have the same key, the position of a key is the one
/// place where it stands.
pub proof fn lemma_position<I, V>(entries: Seq<CachedEntry<I, V>>, at: int)
    requires
        distinct_keys(entries),
        0 <= at < entries.len(),
    ensures
        has_key(entries, entries[at].key),
        position_of(entries, entries[at].key) == at,
{
    let chosen = position_of(entries, entries[at].key);
    assert(entries[chosen].key == entries[at].key);
}

/// Taking one entry out leaves the others with their values, and no trace of
/// its key.
proof fn lemma_without<I, V>(entries: Seq<CachedEntry<I, V>>, at: int, key: I, now: int)
    requires
        distinct_keys(entries),
        0 <= at < entries.len(),
    ensures
        distinct_keys(without(entries, at)),
        !has_key(without(entries, at), entries[at].key),
        key != entries[at].key ==> has_key(without(entries, at), key) == has_key(entries, key),
        key != entries[at].key ==> get_answer(without(entries, at), key, now) == get_answer(
            entries,
            key,
            now,
        ),
{
    let rest = without(entries, at);
    assert forall|i: int| 0 <= i < rest.len() implies #[trigger] rest[i] == entries[if i < at {
        i
    } else {
        i + 1
    }] by {}
    assert(distinct_keys(rest));
    if key != entries[at].key {
        if has_key(entries, key) {
            let from = position_of(entries, key);
            let to = if from < at { from } else { from - 1 };
            assert(rest[to] == entries[from]);
            lemma_position(rest, to);
        }
        if has_key(rest, key) {
            let to = position_of(rest, key);
            let from = if to < at { to } else { to + 1 };
            assert(entries[from] == rest[to]);
        }
    }
}

/// Putting an entry with a new key in front leaves the others with their values.
proof fn lemma_in_front<I, V>(
    entries: Seq<CachedEntry<I, V>>,
    entry: CachedEntry<I, V>,
    key: I,
    now: int,
)
    requires
        distinct_keys(entries),
        !has_key(entries, entry.key),
    ensures
        distinct_keys(seq![entry] + entries),
        position_of(seq![entry] + entries, entry.key) == 0,
        has_key(seq![entry] + entries, entry.key),
        key != entry.key ==> has_key(seq![entry] + entries, key) == has_key(entries, key),
        key != entry.key ==> get_answer(seq![entry] + entries, key, now) == get_answer(
            entries,
            key,
            now,
        ),
{
    let all = seq![entry] + entries;
    assert forall|i: int, j: int|
        #![trigger all[i], all[j]]
        0 <= i < j < all.len() implies all[i].key != all[j].key by {
        if i == 0 {
            assert(all[j] == entries[j - 1]);
        } else {
            assert(all[i] == entries[i - 1] && all[j] == entries[j - 1]);
        }
    }
    assert(all[0] == entry);
    lemma_position(all, 0);
    if key != entry.key {
        if has_key(entries, key) {
            let at = position_of(entries, key);
            assert(all[at + 1] == entries[at]);
            lemma_position(all, at + 1);
        }
        if has_key(all, key) {
            let at = position_of(all, key);
            assert(entries[at - 1] == all[at]);
        }
    }
}

/// Dropping the last entry is taking it out.
proof fn lemma_drop_last<I, V>(entries: Seq<CachedEntry<I, V>>)
    requires
        entries.len() > 0,
    ensures
        entries.drop_last() == without(entries, entries.len() - 1),
{
    assert(entries.drop_last() =~= without(entries, entries.len() - 1));
}

/// The capacity is never exceeded and no key ever occurs twice, whatever is put.
pub proof fn law_put_keeps_valid<I, V>(
    entries: Seq<CachedEntry<I, V>>,
    capacity: nat,
    entry: CachedEntry<I, V>,
)
    requires
        valid_entries(entries, capacity),
        capacity > 0,
    ensures
        valid_entries(after_put(entries, capacity, entry), capacity),
{
    if has_key(entries, entry.key) {
        let at = position_of(entries, entry.key);
        lemma_without(entries, at, entry.key, 0);
        lemma_in_front(without(entries, at), entry, entry.key, 0);
    } else {
        lemma_in_front(entries, entry, entry.key, 0);
        if entries.len() == capacity {
            let all = seq![entry] + entries;
            lemma_drop_last(all);
            lemma_without(all, all.len() - 1, entry.key, 0);
        }
    }
}

/// The capacity is never exceeded and no key ever occurs twice, whatever is
/// looked up.
pub proof fn law_get_keeps_valid<I, V>(
    entries: Seq<CachedEntry<I, V>>,
    capacity: nat,
    key: I,
    now: int,
)
    requires
        valid_entries(entries, capacity),
    ensures
        valid_entries(after_get(entries, key, now), capacity),
{
    if has_key(entries, key) {
        let at = position_of(entries, key);
        lemma_without(entries, at, key, now);
        lemma_in_front(without(entries, at), entries[at], key, now);
    }
}

/// The capacity is never exceeded and no key ever occurs twice, whatever is
/// swept out; the entries that stay are those that are live.
pub proof fn law_sweep_keeps_valid<I, V>(entries: Seq<CachedEntry<I, V>>, capacity: nat, now: int)
    requires
        valid_entries(entries, capacity),
    ensures
        valid_entries(after_sweep(entries, now), capacity),
        forall|entry: CachedEntry<I, V>| #[trigger]
            after_sweep(entries, now).contains(entry) <==> entries.contains(entry) && is_live(
                entry,
                now,
            ),
    decreases entries.len(),
{
    let live = |entry: CachedEntry<I, V>| is_live(entry, now);
    lemma_filter_elements(entries, live);
    reveal(Seq::filter);
    if entries.len() > 0 {
        let rest = entries.drop_last();
        let last = entries.last();
        law_sweep_keeps_valid(rest, capacity, now);
        let kept = after_sweep(rest, now);
        let all = after_sweep(entries, now);
        assert forall|i: int, j: int|
            #![trigger all[i], all[j]]
            0 <= i < j < all.len() implies all[i].key != all[j].key by {
            if j == kept.len() {
                assert(kept.contains(kept[i]));
                let from = rest.index_of(kept[i]);
                assert(entries[from] == kept[i]);
                assert(entries[entries.len() - 1] == last);
            } else {
                assert(all[i] == kept[i] && all[j] == kept[j]);
            }
        }
    }
}

/// What was put is found until it expires, and not after that. This holds of a
/// new key and of one that is put again: the value and the expiry are the last
/// ones put.
pub proof fn law_put_then_get<I, V>(
    entries: Seq<CachedEntry<I, V>>,
    capacity: nat,
    entry: CachedEntry<I, V>,
    now: int,
)
    requires
        valid_entries(entries, capacity),
        capacity > 0,
    ensures
        get_answer(after_put(entries, capacity, entry), entry.key, now) == if now < entry.expiry {
            Some(entry.value)
        } else {
            None
        },
        after_put(entries, capacity, entry)[0] == entry,
{
    let after = after_put(entries, capacity, entry);
    assert(after[0] == entry);
    if has_key(entries, entry.key) {
        let at = position_of(entries, entry.key);
        lemma_without(entries, at, entry.key, now);
        lemma_in_front(without(entries, at), entry, entry.key, now);
    } else {
        lemma_in_front(entries, entry, entry.key, now);
        if entries.len() == capacity {
            let all = seq![entry] + entries;
            lemma_drop_last(all);
            lemma_without(all, all.len() - 1, entry.key, now);
            lemma_position(after, 0);
        }
    }
}

/// Putting one key leaves every other key as it was, with one exception: where
/// the key is new and the cache is full, the least recently used key is gone.
pub proof fn law_put_spares_others<I, V>(
    entries: Seq<CachedEntry<I, V>>,
    capacity: nat,
    entry: CachedEntry<I, V>,
    key: I,
    now: int,
)
    requires
        valid_entries(entries, capacity),
        capacity > 0,
        key != entry.key,
    ensures
        get_answer(after_put(entries, capacity, entry), key, now) == if !has_key(entries, entry.key)
            && entries.len() == capacity && key == entries.last().key {
            None
        } else {
            get_answer(entries, key, now)
        },
{
    if has_key(entries, entry.key) {
        let at = position_of(entries, entry.key);
        lemma_without(entries, at, key, now);
        lemma_in_front(without(entries, at), entry, key, now);
    } else {
        lemma_in_front(entries, entry, key, now);
        if entries.len() == capacity {
            let all = seq![entry] + entries;
            assert(all[all.len() - 1] == entries.last());
            lemma_drop_last(all);
            lemma_without(all, all.len() - 1, key, now);
        }
    }
}

/// A lookup leaves the answer for every key as it was, at its own time and at
/// any later one.
pub proof fn law_get_changes_no_answer<I, V>(
    entries: Seq<CachedEntry<I, V>>,
    key: I,
    now: int,
    other: I,
    later: int,
)
    requires
        distinct_keys(entries),
        now <= later,
    ensures
        get_answer(after_get(entries, key, now), other, later) == get_answer(entries, other, later),
{
    if has_key(entries, key) {
        let at = position_of(entries, key);
        lemma_without(entries, at, other, later);
        lemma_in_front(without(entries, at), entries[at], other, later);
    }
}

/// A key that is found becomes the most recently used, and the others keep
/// their order.
pub proof fn law_get_promotes<I, V>(entries: Seq<CachedEntry<I, V>>, key: I, now: int)
    requires
        distinct_keys(entries),
        get_answer(entries, key, now) is Some,
    ensures
        ({
            let after = after_get(entries, key, now);
            let at = position_of(entries, key);
            &&& after.len() == entries.len()
            &&& after[0] == entries[at]
            &&& after.drop_first() == entries.remove(at)
        }),
{
    let at = position_of(entries, key);
    assert(after_get(entries, key, now).drop_first() =~= entries.remove(at));
}

/// An expired entry is never handed out, and looking it up drops it.
pub proof fn law_expired_is_gone<I, V>(entries: Seq<CachedEntry<I, V>>, at: int, now: int)
    requires
        distinct_keys(entries),
        0 <= at < entries.len(),
        now >= entries[at].expiry,
    ensures
        get_answer(entries, entries[at].key, now) is None,
        after_get(entries, entries[at].key, now) == entries.remove(at),
        !has_key(after_get(entries, entries[at].key, now), entries[at].key),
{
    lemma_position(entries, at);
    lemma_without(entries, at, entries[at].key, now);
}

/// What can be done to a cache: an entry is put in, a key is looked up at some
/// time, or expired entries are swept out at some time.
pub enum CacheOp<I, V> {
    Put { entry: CachedEntry<I, V> },
    Get { key: I, now: int },
    Sweep { now: int },
}

/// The entries after one operation.
pub open spec fn after_op<I, V>(
    entries: Seq<CachedEntry<I, V>>,
    capacity: nat,
    op: CacheOp<I, V>,
) -> Seq<CachedEntry<I, V>> {
    match op {
        CacheOp::Put { entry } => after_put(entries, capacity, entry),
        CacheOp::Get { key, now } => after_get(entries, key, now),
        CacheOp::Sweep { now } => after_sweep(entries, now),
    }
}

/// The entries after a series of operations.
pub open spec fn after_ops<I, V>(
    entries: Seq<CachedEntry<I, V>>,
    capacity: nat,
    ops: Seq<CacheOp<I, V>>,
) -> Seq<CachedEntry<I, V>>
    decreases ops.len(),
{
    if ops.len() == 0 {
        entries
    } else {
        after_op(after_ops(entries, capacity, ops.drop_last()), capacity, ops.last())
    }
}

/// These keys and the one that the operation puts or looks up, unless it is
/// `key`.
pub open spec fn with_other_used<I, V>(used: Set<I>, op: CacheOp<I, V>, key: I) -> Set<I> {
    match op {
        CacheOp::Put { entry } => if entry.key != key {
            used.insert(entry.key)
        } else {
            used
        },
        CacheOp::Get { key: other, .. } => if other != key {
            used.insert(other)
        } else {
            used
        },
        CacheOp::Sweep { .. } => used,
    }
}

/// The keys other than `key` that are put or looked up.
pub open spec fn others_used<I, V>(ops: Seq<CacheOp<I, V>>, key: I) -> Set<I>
    decreases ops.len(),
{
    if ops.len() == 0 {
        Set::empty()
    } else {
        with_other_used(others_used(ops.drop_last(), key), ops.last(), key)
    }
}

/// The operation does not put the entry's key again, and does not look it up or
/// sweep when it has expired.
pub open spec fn leaves_live<I, V>(op: CacheOp<I, V>, entry: CachedEntry<I, V>) -> bool {
    match op {
        CacheOp::Put { entry: put } => put.key != entry.key,
        CacheOp::Get { key, now } => key == entry.key ==> is_live(entry, now),
        CacheOp::Sweep { now } => is_live(entry, now),
    }
}

/// The entry is there, and the keys of all entries before it are among these.
pub open spec fn stands_behind<I, V>(
    entries: Seq<CachedEntry<I, V>>,
    entry: CachedEntry<I, V>,
    used: Set<I>,
) -> bool {
    exists|at: int| #[trigger] stands_behind_at(entries, entry, used, at)
}

/// The entry stands at `at`, and the keys of all entries before it are among
/// these.
pub open spec fn stands_behind_at<I, V>(
    entries: Seq<CachedEntry<I, V>>,
    entry: CachedEntry<I, V>,
    used: Set<I>,
    at: int,
) -> bool {
    &&& 0 <= at < entries.len()
    &&& entries[at] == entry
    &&& forall|i: int| 0 <= i < at ==> used.contains((#[trigger] entries[i]).key)
}

/// The capacity is never exceeded and no key ever occurs twice, whatever is done.
pub proof fn law_op_keeps_valid<I, V>(
    entries: Seq<CachedEntry<I, V>>,
    capacity: nat,
    op: CacheOp<I, V>,
)
    requires
        valid_entries(entries, capacity),
        capacity > 0,
    ensures
        valid_entries(after_op(entries, capacity, op), capacity),
{
    match op {
        CacheOp::Put { entry } => law_put_keeps_valid(entries, capacity, entry),
        CacheOp::Get { key, now } => law_get_keeps_valid(entries, capacity, key, now),
        CacheOp::Sweep { now } => law_sweep_keeps_valid(entries, capacity, now),
    }
}

/// There are no more entries in front than keys that these can have.
proof fn lemma_in_front_are_few<I, V>(entries: Seq<CachedEntry<I, V>>, at: int, used: Set<I>)
    requires
        distinct_keys(entries),
        0 <= at <= entries.len(),
        used.finite(),
        forall|i: int| 0 <= i < at ==> used.contains((#[trigger] entries[i]).key),
    ensures
        at <= used.len(),
{
    let keys = Seq::new(at as nat, |i: int| entries[i].key);
    assert forall|i: int, j: int| 0 <= i < at && 0 <= j < at && i != j implies keys[i]
        != keys[j] by {
        assert(entries[i].key != entries[j].key);
    }
    assert(keys.no_duplicates());
    keys.unique_seq_to_set();
    assert(keys.to_set().subset_of(used));
    vstd::set_lib::lemma_len_subset(keys.to_set(), used);
}

/// An operation that leaves an entry live puts only the key that it uses in front
/// of it, and does not drive it out while fewer keys than the capacity were used.
proof fn lemma_op_spares<I, V>(
    entries: Seq<CachedEntry<I, V>>,
    capacity: nat,
    op: CacheOp<I, V>,
    entry: CachedEntry<I, V>,
    used: Set<I>,
)
    requires
        valid_entries(entries, capacity),
        stands_behind(entries, entry, used),
        leaves_live(op, entry),
        used.finite(),
        with_other_used(used, op, entry.key).len() < capacity,
    ensures
        stands_behind(
            after_op(entries, capacity, op),
            entry,
            with_other_used(used, op, entry.key),
        ),
{
    let at = choose|at: int| #[trigger] stands_behind_at(entries, entry, used, at);
    let after = after_op(entries, capacity, op);
    let now_used = with_other_used(used, op, entry.key);
    lemma_position(entries, at);
    match op {
        CacheOp::Put { entry: put } => {
            let to = if has_key(entries, put.key) && position_of(entries, put.key) < at {
                at
            } else {
                at + 1
            };
            if !has_key(entries, put.key) {
                let all = seq![put] + entries;
                lemma_in_front(entries, put, put.key, 0);
                assert forall|i: int| 0 <= i < at + 1 implies now_used.contains(
                    (#[trigger] all[i]).key,
                ) by {
                    if i > 0 {
                        assert(all[i] == entries[i - 1]);
                    }
                }
                lemma_in_front_are_few(all, at + 1, now_used);
            }
            assert(after[to] == entry);
            assert forall|i: int| 0 <= i < to implies now_used.contains(
                (#[trigger] after[i]).key,
            ) by {
                if i > 0 {
                    let gone = position_of(entries, put.key);
                    let from = if has_key(entries, put.key) && i - 1 >= gone {
                        i
                    } else {
                        i - 1
                    };
                    assert(after[i] == entries[from]);
                }
            }
            assert(stands_behind_at(after, entry, now_used, to));
        },
        CacheOp::Get { key, now } => {
            if has_key(entries, key) {
                let found = position_of(entries, key);
                let front = if is_live(entries[found], now) {
                    1int
                } else {
                    0
                };
                let to = if found == at {
                    0
                } else if found < at {
                    at - 1 + front
                } else {
                    at + front
                };
                assert(after[to] == entry);
                assert forall|i: int| 0 <= i < to implies now_used.contains(
                    (#[trigger] after[i]).key,
                ) by {
                    if i >= front {
                        let from = if i - front >= found {
                            i - front + 1
                        } else {
                            i - front
                        };
                        assert(after[i] == entries[from]);
                    }
                }
                assert(stands_behind_at(after, entry, now_used, to));
            } else {
                assert forall|i: int| 0 <= i < at implies now_used.contains(
                    (#[trigger] after[i]).key,
                ) by {
                    assert(used.contains(entries[i].key));
                }
                assert(stands_behind_at(after, entry, now_used, at));
            }
        },
        CacheOp::Sweep { now } => {
            let live = |entry: CachedEntry<I, V>| is_live(entry, now);
            let to = lemma_filter_prefix(entries, live, at);
            assert forall|i: int| 0 <= i < to implies now_used.contains(
                (#[trigger] after[i]).key,
            ) by {
                let from = entries.take(at).index_of(after[i]);
                assert(entries[from] == after[i]);
            }
            assert(stands_behind_at(after, entry, now_used, to));
        },
    }
}

/// There are finitely many keys that were used, and no fewer as more is done.
proof fn lemma_others_used<I, V>(ops: Seq<CacheOp<I, V>>, key: I)
    ensures
        others_used(ops, key).finite(),
        ops.len() > 0 ==> others_used(ops.drop_last(), key).len() <= others_used(ops, key).len(),
    decreases ops.len(),
{
    if ops.len() > 0 {
        lemma_others_used(ops.drop_last(), key);
        vstd::set_lib::lemma_len_subset(others_used(ops.drop_last(), key), others_used(ops, key));
    }
}

/// An entry that was just used outlives anything that is done next, as long as
/// its key is not put again, it is not looked up or swept when it has expired, and
/// fewer other keys than the capacity are put or looked up. How often each of
/// them is used, and how often is swept, does not matter.
pub proof fn law_recently_used_survives<I, V>(
    entries: Seq<CachedEntry<I, V>>,
    capacity: nat,
    ops: Seq<CacheOp<I, V>>,
)
    requires
        valid_entries(entries, capacity),
        entries.len() > 0,
        others_used(ops, entries[0].key).len() < capacity,
        forall|i: int| 0 <= i < ops.len() ==> leaves_live(#[trigger] ops[i], entries[0]),
    ensures
        ({
            let after = after_ops(entries, capacity, ops);
            &&& valid_entries(after, capacity)
            &&& has_key(after, entries[0].key)
            &&& after[position_of(after, entries[0].key)] == entries[0]
            &&& stands_behind(after, entries[0], others_used(ops, entries[0].key))
        }),
    decreases ops.len(),
{
    let entry = entries[0];
    let after = after_ops(entries, capacity, ops);
    let used = others_used(ops, entry.key);
    if ops.len() == 0 {
        assert(stands_behind_at(entries, entry, used, 0));
    } else {
        let earlier = ops.drop_last();
        lemma_others_used(ops, entry.key);
        lemma_others_used(earlier, entry.key);
        assert forall|i: int| 0 <= i < earlier.len() implies leaves_live(
            #[trigger] earlier[i],
            entry,
        ) by {
            assert(earlier[i] == ops[i]);
        }
        law_recently_used_survives(entries, capacity, earlier);
        assert(leaves_live(ops[ops.len() - 1], entry));
        let before = after_ops(entries, capacity, earlier);
        lemma_op_spares(before, capacity, ops.last(), entry, others_used(earlier, entry.key));
        law_op_keeps_valid(before, capacity, ops.last());
    }
    let at = choose|at: int| #[trigger] stands_behind_at(after, entry, used, at);
    lemma_position(after, at);
}

/// What was put is found: whatever is done after an entry was put in, its key is
/// answered with its value until it expires, as long as the key is not put again
/// and fewer other keys than the capacity are put or looked up in between.
pub proof fn law_put_value_is_found<I, V>(
    entries: Seq<CachedEntry<I, V>>,
    capacity: nat,
    entry: CachedEntry<I, V>,
    ops: Seq<CacheOp<I, V>>,
    now: int,
)
    requires
        valid_entries(entries, capacity),
        others_used(ops, entry.key).len() < capacity,
        forall|i: int| 0 <= i < ops.len() ==> leaves_live(#[trigger] ops[i], entry),
        now < entry.expiry,
    ensures
        get_answer(after_ops(after_put(entries, capacity, entry), capacity, ops), entry.key, now)
            == Some(entry.value),
{
    law_put_then_get(entries, capacity, entry, now);
    law_put_keeps_valid(entries, capacity, entry);
    law_recently_used_survives(after_put(entries, capacity, entry), capacity, ops);
}

/// A sweep changes no answer: what it drops could not be handed out any more.
pub proof fn law_sweep_changes_no_answer<I, V>(
    entries: Seq<CachedEntry<I, V>>,
    now: int,
    key: I,
    later: int,
)
    requires
        distinct_keys(entries),
        now <= later,
    ensures
        get_answer(after_sweep(entries, now), key, later) == get_answer(entries, key, later),
{
    let swept = after_sweep(entries, now);
    law_sweep_keeps_valid(entries, entries.len(), now);
    if has_key(entries, key) {
        let at = position_of(entries, key);
        let entry = entries[at];
        assert(entries.contains(entry));
        if is_live(entry, now) {
            assert(swept.contains(entry));
            lemma_position(swept, swept.index_of(entry));
        } else if has_key(swept, key) {
            let kept = swept[position_of(swept, key)];
            assert(swept.contains(kept));
            lemma_position(entries, entries.index_of(kept));
        }
    } else if has_key(swept, key) {
        let kept = swept[position_of(swept, key)];
        assert(swept.contains(kept));
        assert(entries[entries.index_of(kept)].key == key);
    }
}

/// A second sweep at the same time finds nothing to drop.
pub proof fn law_sweep_twice<I, V>(entries: Seq<CachedEntry<I, V>>, now: int)
    ensures
        after_sweep(after_sweep(entries, now), now) == after_sweep(entries, now),
{
    let live = |entry: CachedEntry<I, V>| is_live(entry, now);
    let swept = after_sweep(entries, now);
    lemma_filter_elements(entries, live);
    assert forall|i: int| 0 <= i < swept.len() implies live(#[trigger] swept[i]) by {
        assert(swept.contains(swept[i]));
    }
    lemma_filter_all(swept, live);
}

/// What a lookup answers, in terms of the entries: the value of the entry with
/// this key, if its time has not come, and nothing where no entry has it.
pub proof fn law_answer_is_exact<I, V>(entries: Seq<CachedEntry<I, V>>, key: I, at: int, now: int)
    requires
        distinct_keys(entries),
    ensures
        0 <= at < entries.len() && entries[at].key == key && now < entries[at].expiry
            ==> get_answer(entries, key, now) == Some(entries[at].value),
        0 <= at < entries.len() && entries[at].key == key && now >= entries[at].expiry
            ==> get_answer(entries, key, now) is None,
        (forall|i: int| 0 <= i < entries.len() ==> (#[trigger] entries[i]).key != key)
            ==> get_answer(entries, key, now) is None,
{
    if 0 <= at < entries.len() {
        lemma_position(entries, at);
    }
}

/// What a lookup does to the entries: one that is found live moves in front of
/// those that were before it, one that has expired leaves, and a key that is not
/// there changes nothing.
pub proof fn law_get_is_exact<I, V>(entries: Seq<CachedEntry<I, V>>, at: int, key: I, now: int)
    requires
        distinct_keys(entries),
        0 <= at < entries.len() ==> entries[at].key == key,
    ensures
        ({
            let after = after_get(entries, key, now);
            &&& 0 <= at < entries.len() && now < entries[at].expiry ==> {
                &&& after.len() == entries.len()
                &&& after[0] == entries[at]
                &&& forall|i: int| 0 <= i < at ==> after[i + 1] == #[trigger] entries[i]
                &&& forall|i: int| at < i < entries.len() ==> after[i] == #[trigger] entries[i]
            }
            &&& 0 <= at < entries.len() && now >= entries[at].expiry ==> {
                &&& after.len() == entries.len() - 1
                &&& forall|i: int| 0 <= i < at ==> after[i] == #[trigger] entries[i]
                &&& forall|i: int| at < i < entries.len() ==> after[i - 1] == #[trigger] entries[i]
            }
            &&& (forall|i: int| 0 <= i < entries.len() ==> (#[trigger] entries[i]).key != key)
                ==> after == entries
        }),
{
    if 0 <= at < entries.len() {
        lemma_position(entries, at);
    }
}

/// What a put does to the entries: the new one stands in front, one with the same
/// key is gone, and all others follow in the order they had; only where the key
/// is new and the cache full, the last of them is gone.
pub proof fn law_put_is_exact<I, V>(
    entries: Seq<CachedEntry<I, V>>,
    capacity: nat,
    entry: CachedEntry<I, V>,
    at: int,
)
    requires
        valid_entries(entries, capacity),
        capacity > 0,
        0 <= at < entries.len() ==> entries[at].key == entry.key,
    ensures
        ({
            let after = after_put(entries, capacity, entry);
            &&& after[0] == entry
            &&& 0 <= at < entries.len() ==> {
                &&& after.len() == entries.len()
                &&& forall|i: int| 0 <= i < at ==> after[i + 1] == #[trigger] entries[i]
                &&& forall|i: int| at < i < entries.len() ==> after[i] == #[trigger] entries[i]
            }
            &&& (forall|i: int| 0 <= i < entries.len() ==> (#[trigger] entries[i]).key != entry.key)
                ==> {
                &&& after.len() == if entries.len() == capacity {
                    capacity
                } else {
                    entries.len() + 1
                }
                &&& forall|i: int|
                    0 <= i < entries.len() && i + 1 < capacity ==> after[i + 1]
                        == #[trigger] entries[i]
            }
        }),
{
    if 0 <= at < entries.len() {
        lemma_position(entries, at);
    }
}

/// A sweep goes entry by entry: one more entry behind the others makes no
/// difference to them, and stays exactly if its time has not come.
pub proof fn law_sweep_is_exact<I, V>(
    entries: Seq<CachedEntry<I, V>>,
    last: CachedEntry<I, V>,
    now: int,
)
    ensures
        after_sweep(Seq::<CachedEntry<I, V>>::empty(), now) == Seq::<CachedEntry<I, V>>::empty(),
        after_sweep(entries.push(last), now) == if now < last.expiry {
            after_sweep(entries, now).push(last)
        } else {
            after_sweep(entries, now)
        },
{
    reveal(Seq::filter);
    assert(entries.push(last).drop_last() =~= entries);
}

} // verus!
