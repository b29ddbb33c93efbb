//! The response cache and the messages that it is sent.
use crate::cache_key::{CacheKey, CacheKeyView};
use crate::lru_cache::LruCache;
use crate::lru_model::{after_get, after_put, after_sweep, get_answer, valid_entries, CachedEntry};
use crate::time::Clock;
use vstd::prelude::*;

verus! {

/// The most responses that the cache holds.
pub const CACHE_CAPACITY: usize = 1000;

/// How long a response is kept, in nanoseconds: 60 seconds.
pub const CACHE_TTL: u128 = 60_000_000_000;

/// How often responses that have expired are swept out, in seconds.
pub const EVICTION_INTERVAL: u64 = 60;

/// What the cache is asked to do.
pub enum CacheMessage<V> {
    /// Look up the response under this key.
    Get { key: CacheKey },
    /// Keep this response under this key.
    Put { key: CacheKey, value: V },
    /// Drop the responses that have expired.
    EvictExpired,
    /// Stop.
    Shutdown,
}

/// What is to be done once the cache has taken a message.
pub enum CacheAction<'a, V> {
    /// Tell the sender what was found.
    Reply(Option<&'a V>),
    /// Go on.
    Stored,
    /// Go on; so many responses had expired.
    Evicted(usize),
    /// Take no more messages.
    Stop,
}

/// The responses after a message that comes at time `now`.
pub open spec fn after_message<V>(
    entries: Seq<CachedEntry<CacheKeyView, V>>,
    message: CacheMessage<V>,
    now: int,
) -> Seq<CachedEntry<CacheKeyView, V>> {
    match message {
        CacheMessage::Get { key } => after_get(entries, key@, now),
        CacheMessage::Put { key, value } => after_put(
            entries,
            CACHE_CAPACITY as nat,
            CachedEntry { key: key@, value, expiry: now + CACHE_TTL },
        ),
        CacheMessage::EvictExpired => after_sweep(entries, now),
        CacheMessage::Shutdown => entries,
    }
}

/// This is the action that a message calls for that comes at time `now`.
pub open spec fn answers<V>(
    entries: Seq<CachedEntry<CacheKeyView, V>>,
    message: CacheMessage<V>,
    now: int,
    action: CacheAction<V>,
) -> bool {
    match message {
        CacheMessage::Get { key } => action matches CacheAction::Reply(found) && match found {
            Some(value) => get_answer(entries, key@, now) == Some(*value),
            None => get_answer(entries, key@, now) is None,
        },
        CacheMessage::Put { key, value } => action is Stored,
        CacheMessage::EvictExpired => action matches CacheAction::Evicted(removed) && removed
            == entries.len() - after_sweep(entries, now).len(),
        CacheMessage::Shutdown => action is Stop,
    }
}

/// The cache that the responses of backends are kept in.
pub struct CacheActor<V> {
    cache: LruCache<CacheKey, V>,
    clock: Clock,
}

impl<V> View for CacheActor<V> {
    type V = Seq<CachedEntry<CacheKeyView, V>>;

    /// The responses, most recently used first.
    closed spec fn view(&self) -> Seq<CachedEntry<CacheKeyView, V>> {
        self.cache@
    }
}

impl<V> CacheActor<V> {
    /// The clock that the cache goes by.
    pub closed spec fn clock(&self) -> Clock {
        self.clock
    }

    /// The cache is sound and of the size that it is to have.
    pub closed spec fn wf(&self) -> bool {
        self.cache.wf() && self.cache.max_entries() == CACHE_CAPACITY
    }

    /// A sound cache never holds more responses than it may, nor two under the
    /// same key.
    pub proof fn law_responses_are_valid(&self)
        requires
            self.wf(),
        ensures
            valid_entries(self@, CACHE_CAPACITY as nat),
    {
        self.cache.law_entries_are_valid();
    }

    /// A cache without responses.
    pub fn new() -> (actor: CacheActor<V>)
        ensures
            actor.wf(),
            actor@ == Seq::<CachedEntry<CacheKeyView, V>>::empty(),
            actor.clock().latest() == 0,
    {
        CacheActor { cache: LruCache::new(CACHE_CAPACITY), clock: Clock::start() }
    }

    /// Takes a message that comes at time `now`.
    pub fn handle_at(&mut self, message: CacheMessage<V>, now: u128) -> (action: CacheAction<V>)
        requires
            old(self).wf(),
            now + CACHE_TTL <= u128::MAX,
        ensures
            final(self).wf(),
            final(self).clock() == old(self).clock(),
            final(self)@ == after_message(old(self)@, message, now as int),
            answers(old(self)@, message, now as int, action),
    {
        match message {
            CacheMessage::Get { key } => CacheAction::Reply(self.cache.get_at(&key, now)),
            CacheMessage::Put { key, value } => {
                self.cache.put_at(key, value, CACHE_TTL, now);
                CacheAction::Stored
            },
            CacheMessage::EvictExpired => CacheAction::Evicted(self.cache.evict_expired_at(now)),
            CacheMessage::Shutdown => CacheAction::Stop,
        }
    }

    /// Takes a message that comes now: no earlier than any that came before.
    pub fn handle(&mut self, message: CacheMessage<V>) -> (action: CacheAction<V>)
        requires
            old(self).wf(),
        ensures
            final(self).wf(),
            exists|now: u128|
                {
                    &&& old(self).clock().ticks_to(final(self).clock(), now)
                    &&& final(self)@ == #[trigger] after_message(old(self)@, message, now as int)
                    &&& answers(old(self)@, message, now as int, action)
                },
    {
        let now: u128 = self.clock.tick();
        assert(self@ == old(self)@);
        self.handle_at(message, now)
    }
}

} // verus!
