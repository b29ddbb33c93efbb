//! The laws of the response cache, over any series of messages.
use crate::cache_actor::{
    after_message, answers, CacheAction, CacheMessage, CACHE_CAPACITY, CACHE_TTL,
};
use crate::cache_key::{law_keys_are_their_parts, CacheKey, CacheKeyView};
use crate::lru_laws::{
    after_ops, law_answer_is_exact, law_get_keeps_valid, law_put_keeps_valid, law_put_then_get, law_put_value_is_found,
    law_sweep_is_exact, law_sweep_keeps_valid, leaves_live, CacheOp,
};
use crate::lru_model::{
    after_get, after_put, after_sweep, get_answer, has_key, is_live, position_of, valid_entries, CachedEntry,
};
use crate::seq_lemmas::lemma_filter_elements;
use crate::time::NANOS_PER_SEC;
use vstd::prelude::*;

verus! {

/// A message and the time at which it comes.
pub struct CacheEvent<V> {
    pub message: CacheMessage<V>,
    pub at: int,
}

/// The responses after these messages.
pub open spec fn after_events<V>(
    entries: Seq<CachedEntry<CacheKeyView, V>>,
    events: Seq<CacheEvent<V>>,
) -> Seq<CachedEntry<CacheKeyView, V>>
    decreases events.len(),
{
    if events.len() == 0 {
        entries
    } else {
        after_message(
            after_events(entries, events.drop_last()),
            events.last().message,
            events.last().at,
        )
    }
}

/// The event puts a response under this key.
pub open spec fn puts_key<V>(event: CacheEvent<V>, key: CacheKeyView) -> bool {
    event.message matches CacheMessage::Put { key: put, .. } && put@ == key
}

/// The event makes this entry.
pub open spec fn makes<V>(event: CacheEvent<V>, entry: CachedEntry<CacheKeyView, V>) -> bool {
    event.message matches CacheMessage::Put { key, value } && entry == (CachedEntry {
        key: key@,
        value,
        expiry: event.at + CACHE_TTL,
    })
}

/// The event at `i` makes this entry, and no later one puts its key again.
pub open spec fn last_makes<V>(
    events: Seq<CacheEvent<V>>,
    i: int,
    entry: CachedEntry<CacheKeyView, V>,
) -> bool {
    &&& 0 <= i < events.len()
    &&& makes(events[i], entry)
    &&& forall|j: int| i < j < events.len() ==> !puts_key(#[trigger] events[j], entry.key)
}

/// Whatever messages come, the cache holds no more responses than it may, and no
/// two under the same key.
pub proof fn law_messages_keep_valid<V>(
    entries: Seq<CachedEntry<CacheKeyView, V>>,
    events: Seq<CacheEvent<V>>,
)
    requires
        valid_entries(entries, CACHE_CAPACITY as nat),
    ensures
        valid_entries(after_events(entries, events), CACHE_CAPACITY as nat),
    decreases events.len(),
{
    if events.len() > 0 {
        law_messages_keep_valid(entries, events.drop_last());
        lemma_message_keeps_valid(
            after_events(entries, events.drop_last()),
            events.last().message,
            events.last().at,
        );
    }
}

proof fn lemma_message_keeps_valid<V>(
    entries: Seq<CachedEntry<CacheKeyView, V>>,
    message: CacheMessage<V>,
    now: int,
)
    requires
        valid_entries(entries, CACHE_CAPACITY as nat),
    ensures
        valid_entries(after_message(entries, message, now), CACHE_CAPACITY as nat),
{
    let capacity = CACHE_CAPACITY as nat;
    match message {
        CacheMessage::Get { key } => law_get_keeps_valid(entries, capacity, key@, now),
        CacheMessage::Put { key, value } => law_put_keeps_valid(
            entries,
            capacity,
            CachedEntry { key: key@, value, expiry: now + CACHE_TTL },
        ),
        CacheMessage::EvictExpired => law_sweep_keeps_valid(entries, capacity, now),
        CacheMessage::Shutdown => {},
    }
}

/// What the message does to the cache, unless it is to stop.
pub open spec fn op_of<V>(event: CacheEvent<V>) -> Option<CacheOp<CacheKeyView, V>> {
    match event.message {
        CacheMessage::Get { key } => Some(CacheOp::Get { key: key@, now: event.at }),
        CacheMessage::Put { key, value } => Some(
            CacheOp::Put {
                entry: CachedEntry { key: key@, value, expiry: event.at + CACHE_TTL },
            },
        ),
        CacheMessage::EvictExpired => Some(CacheOp::Sweep { now: event.at }),
        CacheMessage::Shutdown => None,
    }
}

/// What the messages do to the cache.
pub open spec fn ops_of<V>(events: Seq<CacheEvent<V>>) -> Seq<CacheOp<CacheKeyView, V>>
    decreases events.len(),
{
    if events.len() == 0 {
        seq![]
    } else {
        let earlier = ops_of(events.drop_last());
        match op_of(events.last()) {
            Some(op) => earlier.push(op),
            None => earlier,
        }
    }
}

/// The keys other than `key` that the messages put or look up.
pub open spec fn others_used<V>(events: Seq<CacheEvent<V>>, key: CacheKeyView) -> Set<
    CacheKeyView,
> {
    crate::lru_laws::others_used(ops_of(events), key)
}

/// The message does not put the entry's key again, and does not look it up or
/// sweep when it has expired.
pub open spec fn spares<V>(
    event: CacheEvent<V>,
    entry: CachedEntry<CacheKeyView, V>,
) -> bool {
    op_of(event) matches Some(op) ==> leaves_live(op, entry)
}

/// Messages are what they do to the cache.
proof fn lemma_ops<V>(
    entries: Seq<CachedEntry<CacheKeyView, V>>,
    events: Seq<CacheEvent<V>>,
    entry: CachedEntry<CacheKeyView, V>,
)
    requires
        forall|i: int| 0 <= i < events.len() ==> spares(#[trigger] events[i], entry),
    ensures
        after_events(entries, events) == after_ops(
            entries,
            CACHE_CAPACITY as nat,
            ops_of(events),
        ),
        forall|i: int|
            0 <= i < ops_of(events).len() ==> leaves_live(#[trigger] ops_of(events)[i], entry),
    decreases events.len(),
{
    if events.len() > 0 {
        let earlier = events.drop_last();
        assert forall|i: int| 0 <= i < earlier.len() implies spares(
            #[trigger] earlier[i],
            entry,
        ) by {
            assert(earlier[i] == events[i]);
        }
        lemma_ops(entries, earlier, entry);
        assert(spares(events[events.len() - 1], entry));
        if let Some(op) = op_of(events.last()) {
            assert(ops_of(events).drop_last() =~= ops_of(earlier));
        }
    }
}

/// What was stored is served: whatever messages come after a response was put
/// under a key, the key is answered with this response until its time has passed,
/// as long as the key is not put again and fewer other keys than the cache holds
/// responses are put or looked up in between.
pub proof fn law_stored_response_is_served<V>(
    entries: Seq<CachedEntry<CacheKeyView, V>>,
    key: CacheKey,
    value: V,
    stored_at: int,
    events: Seq<CacheEvent<V>>,
    now: int,
)
    requires
        valid_entries(entries, CACHE_CAPACITY as nat),
        others_used(events, key@).len() < CACHE_CAPACITY,
        forall|i: int|
            0 <= i < events.len() ==> spares(
                #[trigger] events[i],
                (CachedEntry { key: key@, value, expiry: stored_at + CACHE_TTL }),
            ),
        now < stored_at + CACHE_TTL,
    ensures
        ({
            let stored = after_message(entries, CacheMessage::Put { key, value }, stored_at);
            get_answer(after_events(stored, events), key@, now) == Some(value)
        }),
{
    let entry = CachedEntry { key: key@, value, expiry: stored_at + CACHE_TTL };
    let stored = after_message(entries, CacheMessage::Put { key, value }, stored_at);
    lemma_ops(stored, events, entry);
    law_put_value_is_found(entries, CACHE_CAPACITY as nat, entry, ops_of(events), now);
}

/// Every entry after a message was there before or is the one that it puts.
proof fn lemma_sources<V>(
    entries: Seq<CachedEntry<CacheKeyView, V>>,
    event: CacheEvent<V>,
    entry: CachedEntry<CacheKeyView, V>,
)
    requires
        valid_entries(entries, CACHE_CAPACITY as nat),
        after_message(entries, event.message, event.at).contains(entry),
    ensures
        makes(event, entry) || (entries.contains(entry) && !puts_key(event, entry.key)),
{
    let now = event.at;
    let after = after_message(entries, event.message, now);
    let to = after.index_of(entry);
    lemma_message_keeps_valid(entries, event.message, now);
    match event.message {
        CacheMessage::Get { key } => {
            if has_key(entries, key@) {
                let found = position_of(entries, key@);
                let front = if is_live(entries[found], now) {
                    1int
                } else {
                    0
                };
                if to < front {
                    assert(entries[found] == entry);
                } else if to - front < found {
                    assert(entries[to - front] == entry);
                } else {
                    assert(entries[to - front + 1] == entry);
                }
            }
        },
        CacheMessage::Put { key, value } => {
            let put = CachedEntry { key: key@, value, expiry: now + CACHE_TTL };
            law_put_then_get(entries, CACHE_CAPACITY as nat, put, now);
            if to > 0 {
                assert(after[0].key != after[to].key);
                if has_key(entries, key@) {
                    let found = position_of(entries, key@);
                    if to - 1 < found {
                        assert(entries[to - 1] == entry);
                    } else {
                        assert(entries[to] == entry);
                    }
                } else {
                    assert(entries[to - 1] == entry);
                }
            }
        },
        CacheMessage::EvictExpired => {
            lemma_filter_elements(
                entries,
                |entry: CachedEntry<CacheKeyView, V>| is_live(entry, now),
            );
        },
        CacheMessage::Shutdown => {},
    }
}

/// Every entry is what the last put of its key has made it.
proof fn lemma_origin<V>(events: Seq<CacheEvent<V>>, entry: CachedEntry<CacheKeyView, V>) -> (i: int)
    requires
        after_events(Seq::empty(), events).contains(entry),
    ensures
        last_makes(events, i, entry),
    decreases events.len(),
{
    let none = Seq::<CachedEntry<CacheKeyView, V>>::empty();
    if events.len() == 0 {
        assert(!none.contains(entry));
        0
    } else {
        let earlier = events.drop_last();
        let last = events.last();
        assert(events[events.len() - 1] == last);
        law_messages_keep_valid(none, earlier);
        lemma_sources(after_events(none, earlier), last, entry);
        if makes(last, entry) {
            events.len() - 1
        } else {
            let i = lemma_origin(earlier, entry);
            assert(events[i] == earlier[i]);
            assert forall|j: int| i < j < events.len() implies !puts_key(
                #[trigger] events[j],
                entry.key,
            ) by {
                if j < earlier.len() {
                    assert(events[j] == earlier[j]);
                }
            }
            i
        }
    }
}

/// What is served was stored: if a cache that began empty answers a key with a
/// response, this response is the last that was put under that key, and its time
/// has not passed.
pub proof fn law_served_response_was_stored<V>(
    events: Seq<CacheEvent<V>>,
    key: CacheKeyView,
    now: int,
)
    requires
        get_answer(after_events(Seq::empty(), events), key, now) is Some,
    ensures
        exists|i: int, entry: CachedEntry<CacheKeyView, V>|
            {
                &&& #[trigger] last_makes(events, i, entry)
                &&& entry.key == key
                &&& now < events[i].at + CACHE_TTL
                &&& get_answer(after_events(Seq::empty(), events), key, now) == Some(entry.value)
            },
{
    let after = after_events(Seq::empty(), events);
    let entry = after[position_of(after, key)];
    assert(after.contains(entry));
    let i = lemma_origin(events, entry);
    assert(last_makes(events, i, entry));
}

/// What a lookup is answered, in terms of the responses that are there: the one
/// under its key, if its time has not come, and nothing else. It is done as a
/// lookup in the cache.
pub proof fn law_get_message<V>(
    entries: Seq<CachedEntry<CacheKeyView, V>>,
    key: CacheKey,
    at: int,
    now: int,
    action: CacheAction<V>,
)
    requires
        valid_entries(entries, CACHE_CAPACITY as nat),
        answers(entries, CacheMessage::Get { key }, now, action),
    ensures
        action is Reply,
        0 <= at < entries.len() && entries[at].key == key@ && now < entries[at].expiry
            ==> action->Reply_0 is Some && *action->Reply_0->0 == entries[at].value,
        0 <= at < entries.len() && entries[at].key == key@ && now >= entries[at].expiry
            ==> action->Reply_0 is None,
        (forall|i: int| 0 <= i < entries.len() ==> (#[trigger] entries[i]).key != key@)
            ==> action->Reply_0 is None,
        after_message(entries, CacheMessage::Get { key }, now) == after_get(entries, key@, now),
{
    law_answer_is_exact(entries, key@, at, now);
}

/// A response is put in under its key, for 60 seconds, in a cache that holds 1000
/// of them.
pub proof fn law_put_message<V>(
    entries: Seq<CachedEntry<CacheKeyView, V>>,
    key: CacheKey,
    value: V,
    now: int,
    action: CacheAction<V>,
)
    requires
        answers(entries, CacheMessage::Put { key, value }, now, action),
    ensures
        action is Stored,
        after_message(entries, CacheMessage::Put { key, value }, now) == after_put(
            entries,
            1000,
            (CachedEntry { key: key@, value, expiry: now + 60 * NANOS_PER_SEC }),
        ),
{
}

/// How many of the entries have expired at time `now`.
pub open spec fn expired_among<I, V>(entries: Seq<CachedEntry<I, V>>, now: int) -> nat
    decreases entries.len(),
{
    if entries.len() == 0 {
        0
    } else if entries.last().expiry <= now {
        expired_among(entries.drop_last(), now) + 1
    } else {
        expired_among(entries.drop_last(), now)
    }
}

/// An eviction is a sweep of the cache, and tells how many responses had expired.
pub proof fn law_evict_message<V>(
    entries: Seq<CachedEntry<CacheKeyView, V>>,
    now: int,
    action: CacheAction<V>,
)
    requires
        answers(entries, CacheMessage::EvictExpired, now, action),
    ensures
        action is Evicted,
        action->Evicted_0 == expired_among(entries, now),
        after_message(entries, CacheMessage::EvictExpired, now) == after_sweep(entries, now),
{
    lemma_sweep_count(entries, now);
}

/// A sweep leaves all entries but those that have expired.
proof fn lemma_sweep_count<I, V>(entries: Seq<CachedEntry<I, V>>, now: int)
    ensures
        after_sweep(entries, now).len() + expired_among(entries, now) == entries.len(),
    decreases entries.len(),
{
    if entries.len() == 0 {
        reveal(Seq::filter);
    } else {
        lemma_sweep_count(entries.drop_last(), now);
        law_sweep_is_exact(entries.drop_last(), entries.last(), now);
        assert(entries.drop_last().push(entries.last()) =~= entries);
    }
}

/// A message to stop is answered by stopping, and changes nothing.
pub proof fn law_shutdown_message<V>(
    entries: Seq<CachedEntry<CacheKeyView, V>>,
    now: int,
    action: CacheAction<V>,
)
    requires
        answers(entries, CacheMessage::Shutdown, now, action),
    ensures
        action is Stop,
        after_message(entries, CacheMessage::Shutdown, now) == entries,
{
}

/// What was stored is what a lookup is answered: under a key with the same parts,
/// whatever messages come in between, as long as the key is not put again, its
/// time has not passed, and fewer other keys than the cache holds responses are
/// used.
pub proof fn law_stored_response_is_the_reply<V>(
    entries: Seq<CachedEntry<CacheKeyView, V>>,
    key: CacheKey,
    value: V,
    stored_at: int,
    events: Seq<CacheEvent<V>>,
    again: CacheKey,
    now: int,
    action: CacheAction<V>,
)
    requires
        valid_entries(entries, CACHE_CAPACITY as nat),
        others_used(events, key@).len() < CACHE_CAPACITY,
        forall|i: int|
            0 <= i < events.len() ==> spares(
                #[trigger] events[i],
                (CachedEntry { key: key@, value, expiry: stored_at + CACHE_TTL }),
            ),
        now < stored_at + 60 * NANOS_PER_SEC,
        again.method@ == key.method@,
        again.host@ == key.host@,
        again.path@ == key.path@,
        again.query is Some == key.query is Some,
        key.query is Some ==> again.query->0@ == key.query->0@,
        ({
            let stored = after_message(entries, CacheMessage::Put { key, value }, stored_at);
            answers(
                after_events(stored, events),
                CacheMessage::Get { key: again },
                now,
                action,
            )
        }),
    ensures
        action is Reply,
        action->Reply_0 is Some,
        *action->Reply_0->0 == value,
{
    law_keys_are_their_parts(key, again);
    law_stored_response_is_served(entries, key, value, stored_at, events, now);
}

} // verus!
