//! The course of an exchange between a client and a backend: whom to ask next,
//! and how to answer the client.
use crate::cache_key::{CacheKey, CacheKeyView};
use crate::request::RequestHead;
use vstd::prelude::*;

verus! {

/// What an exchange is waiting for.
#[derive(Debug, Clone, Copy, PartialEq, Eq)]
pub enum Phase {
    /// The rate limiter's verdict.
    Verdict,
    /// The cache's reply.
    Lookup,
    /// The backend's response.
    Backend,
    /// The end of the backend's response, which is being passed on.
    Streaming,
    /// Nothing more: the client was answered.
    Done,
}

/// What an exchange learns.
pub enum Event<V> {
    /// The rate limiter's verdict, if there was one: whether the request is let
    /// through.
    Verdict(Option<bool>),
    /// The cache's reply: the response, if there is one.
    Lookup(Option<V>),
    /// The backend could not be reached.
    BackendFailed,
    /// The backend has begun to answer.
    BackendAnswered,
}

/// An answer that does not come from the backend.
pub enum Answer<V> {
    /// The rate limiter has refused the request.
    TooManyRequests,
    /// The backend could not be reached.
    BadGateway,
    /// The response was in the cache.
    Cached(V),
}

/// What is to be done next.
pub enum Action<V> {
    /// Ask the cache for the response.
    AskCache,
    /// Send the request on to the backend.
    AskBackend,
    /// Answer the client.
    Reply(Answer<V>),
    /// Pass the backend's response on to the client.
    PassOn,
}

/// The phase takes such an event.
pub open spec fn expects<V>(phase: Phase, event: Event<V>) -> bool {
    match event {
        Event::Verdict(_) => phase is Verdict,
        Event::Lookup(_) => phase is Lookup,
        Event::BackendFailed => phase is Backend,
        Event::BackendAnswered => phase is Backend,
    }
}

/// What is to be done after an event. Only a verdict that refuses the request
/// stops it; without one it goes on.
pub open spec fn next_action<V>(cacheable: bool, event: Event<V>) -> Action<V> {
    match event {
        Event::Verdict(Some(false)) => Action::Reply(Answer::TooManyRequests),
        Event::Verdict(_) => if cacheable {
            Action::AskCache
        } else {
            Action::AskBackend
        },
        Event::Lookup(Some(value)) => Action::Reply(Answer::Cached(value)),
        Event::Lookup(None) => Action::AskBackend,
        Event::BackendFailed => Action::Reply(Answer::BadGateway),
        Event::BackendAnswered => Action::PassOn,
    }
}

/// The phase that an action leads to.
pub open spec fn phase_after<V>(action: Action<V>) -> Phase {
    match action {
        Action::AskCache => Phase::Lookup,
        Action::AskBackend => Phase::Backend,
        Action::Reply(_) => Phase::Done,
        Action::PassOn => Phase::Streaming,
    }
}

impl<V> Answer<V> {
    /// The status code of the response.
    pub open spec fn code(self) -> u16 {
        match self {
            Answer::TooManyRequests => 429,
            Answer::BadGateway => 502,
            Answer::Cached(_) => 200,
        }
    }

    /// The text of the response, unless it comes from the cache.
    pub open spec fn message(self) -> Option<Seq<char>> {
        match self {
            Answer::TooManyRequests => Some("429 Too many Requests\n"@),
            Answer::BadGateway => Some("502 Bad Gateway\n"@),
            Answer::Cached(_) => None,
        }
    }

    /// The status code of the response.
    pub fn status(&self) -> (status: u16)
        ensures
            status == self.code(),
    {
        match self {
            Answer::TooManyRequests => 429,
            Answer::BadGateway => 502,
            Answer::Cached(_) => 200,
        }
    }

    /// The text of the response, unless it comes from the cache.
    pub fn text(&self) -> (text: Option<&'static str>)
        ensures
            match text {
                Some(text) => self.message() == Some(text@),
                None => self.message() is None,
            },
    {
        match self {
            Answer::TooManyRequests => Some("429 Too many Requests\n"),
            Answer::BadGateway => Some("502 Bad Gateway\n"),
            Answer::Cached(_) => None,
        }
    }
}

/// An exchange: what was read from the request, and what it waits for.
pub struct Exchange {
    key: CacheKey,
    cacheable: bool,
    target: String,
    phase: Phase,
}

impl Exchange {
    /// The key that the response is cached under.
    pub closed spec fn key_view(&self) -> CacheKeyView {
        self.key@
    }

    /// The response may come from the cache and go to it.
    pub closed spec fn cacheable(&self) -> bool {
        self.cacheable
    }

    /// The URI that the request is sent on to.
    pub closed spec fn target(&self) -> Seq<char> {
        self.target@
    }

    /// What the exchange is waiting for.
    pub closed spec fn phase(&self) -> Phase {
        self.phase
    }

    /// Begins the exchange that a request asks for. The rate limiter is asked
    /// first.
    pub fn begin(head: &RequestHead) -> (exchange: Exchange)
        ensures
            exchange.key_view() == head.key(),
            exchange.cacheable() == head.cacheable(),
            exchange.target() == head.target(),
            exchange.phase() == Phase::Verdict,
    {
        Exchange {
            key: head.cache_key(),
            cacheable: head.is_cacheable(),
            target: head.backend_uri(),
            phase: Phase::Verdict,
        }
    }

    /// Takes an event and tells what is to be done next.
    pub fn advance<V>(&mut self, event: Event<V>) -> (action: Action<V>)
        requires
            expects(old(self).phase(), event),
        ensures
            action == next_action(old(self).cacheable(), event),
            final(self).phase() == phase_after(action),
            final(self).key_view() == old(self).key_view(),
            final(self).cacheable() == old(self).cacheable(),
            final(self).target() == old(self).target(),
    {
        let action = match event {
            Event::Verdict(Some(false)) => Action::Reply(Answer::TooManyRequests),
            Event::Verdict(_) => if self.cacheable {
                Action::AskCache
            } else {
                Action::AskBackend
            },
            Event::Lookup(Some(value)) => Action::Reply(Answer::Cached(value)),
            Event::Lookup(None) => Action::AskBackend,
            Event::BackendFailed => Action::Reply(Answer::BadGateway),
            Event::BackendAnswered => Action::PassOn,
        };
        self.phase = match &action {
            Action::AskCache => Phase::Lookup,
            Action::AskBackend => Phase::Backend,
            Action::Reply(_) => Phase::Done,
            Action::PassOn => Phase::Streaming,
        };
        action
    }

    /// What the exchange is waiting for.
    pub fn awaits(&self) -> (phase: Phase)
        ensures
            phase == self.phase(),
    {
        self.phase
    }

    /// The key that the response is cached under.
    pub fn key(&self) -> (key: &CacheKey)
        ensures
            key@ == self.key_view(),
    {
        &self.key
    }

    /// Whether the response may come from the cache and go to it.
    pub fn is_cacheable(&self) -> (cacheable: bool)
        ensures
            cacheable == self.cacheable(),
    {
        self.cacheable
    }

    /// The URI that the request is sent on to.
    pub fn backend_uri(&self) -> (uri: &str)
        ensures
            uri@ == self.target(),
    {
        self.target.as_str()
    }
}

} // verus!
