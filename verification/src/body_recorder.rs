//! Keeping a copy of a response for the cache while it is passed on.
use crate::headers::{header_fields, header_text, lemma_plain_names, text_under};
use crate::text::{number_in, parse_number};
use hyper::header::{HeaderMap, HeaderValue};
use vstd::prelude::*;

verus! {

/// The largest response that is cached, in bytes: 10 MiB.
pub const MAX_CACHE_SIZE: usize = 10_485_760;

/// The response says itself that it is too large to be cached.
pub open spec fn declared_too_large(fields: Map<Seq<char>, Seq<Seq<u8>>>) -> bool {
    &&& text_under(fields, "content-length"@) matches Some(text)
    &&& number_in(text) matches Some(number)
    &&& number > MAX_CACHE_SIZE
}

/// What the cache is given of a response: its body, if the response is eligible,
/// the body has come to its end, and is not empty and not too large.
pub open spec fn recording(eligible: bool, body: Seq<u8>, complete: bool) -> Option<Seq<u8>> {
    if eligible && complete && 0 < body.len() <= MAX_CACHE_SIZE {
        Some(body)
    } else {
        None
    }
}

/// How a response body has ended.
#[derive(Debug, Clone, Copy, PartialEq, Eq)]
pub enum BodyEnd {
    /// Its last frame has come.
    LastFrame,
    /// The backend has broken it off.
    Broken,
    /// The client does not take it any more.
    ClientGone,
}

/// What is learned of a response body next.
pub enum BodyEvent<'a> {
    /// A piece of it has come.
    Data(&'a [u8]),
    /// Its trailers have come.
    Trailers,
    /// It has come to its end.
    End,
    /// The backend has broken it off.
    Broken,
    /// The client has not taken a piece of it.
    ClientGone,
}

/// What is to be done next with a response body.
#[derive(Debug, Clone, Copy, PartialEq, Eq)]
pub enum BodyAction {
    /// Pass the piece on to the client, and find out whether it takes it.
    ForwardData,
    /// Pass the trailers on to the client, whether it takes them or not.
    ForwardTrailers,
    /// Take no more of the body, which has ended in this way.
    Stop(BodyEnd),
}

/// What is to be done with a response body after an event.
pub open spec fn body_action(event: BodyEvent) -> BodyAction {
    match event {
        BodyEvent::Data(_) => BodyAction::ForwardData,
        BodyEvent::Trailers => BodyAction::ForwardTrailers,
        BodyEvent::End => BodyAction::Stop(BodyEnd::LastFrame),
        BodyEvent::Broken => BodyAction::Stop(BodyEnd::Broken),
        BodyEvent::ClientGone => BodyAction::Stop(BodyEnd::ClientGone),
    }
}

/// What an event adds to the body.
pub open spec fn body_piece(event: BodyEvent) -> Seq<u8> {
    match event {
        BodyEvent::Data(data) => data@,
        _ => Seq::empty(),
    }
}

/// Takes down a response body, piece by piece, for as long as it can be cached.
pub struct BodyRecorder {
    can_cache: bool,
    total: usize,
    buffer: Vec<u8>,
    eligible: Ghost<bool>,
    body: Ghost<Seq<u8>>,
}

impl BodyRecorder {
    /// The response was eligible for the cache when it began.
    pub closed spec fn eligible(&self) -> bool {
        self.eligible@
    }

    /// All of the body that has come so far.
    pub closed spec fn body(&self) -> Seq<u8> {
        self.body@
    }

    /// The bytes that are held in memory.
    pub closed spec fn held(&self) -> Seq<u8> {
        self.buffer@
    }

    /// The recorder holds the whole body that has come as long as it can be
    /// cached, nothing of a response that is not eligible, and never more than
    /// the largest response.
    pub closed spec fn wf(&self) -> bool {
        &&& self.can_cache == (self.eligible@ && self.body@.len() <= MAX_CACHE_SIZE)
        &&& self.can_cache ==> self.buffer@ == self.body@
        &&& !self.eligible@ ==> self.buffer@.len() == 0
        &&& self.buffer@.len() <= MAX_CACHE_SIZE
        &&& self.total == if self.body@.len() <= usize::MAX {
            self.body@.len()
        } else {
            usize::MAX as nat
        }
    }

    /// A recorder never holds more than the largest response that is cached, and
    /// nothing of a response that is not eligible.
    pub proof fn law_held_is_bounded(&self)
        requires
            self.wf(),
        ensures
            self.held().len() <= MAX_CACHE_SIZE,
            !self.eligible() ==> self.held().len() == 0,
    {
    }

    /// A recorder for a response with these header fields, to a request that
    /// could be cached or not.
    pub fn new(request_cacheable: bool, headers: &HeaderMap<HeaderValue>) -> (recorder: BodyRecorder)
        ensures
            recorder.wf(),
            recorder.eligible() == (request_cacheable && !declared_too_large(
                header_fields(*headers),
            )),
            recorder.body() == Seq::<u8>::empty(),
    {
        proof {
            lemma_plain_names();
        }
        let too_large = match header_text(headers, "content-length") {
            Some(text) => match parse_number(text) {
                Some(number) => number > MAX_CACHE_SIZE,
                None => false,
            },
            None => false,
        };
        let can_cache = request_cacheable && !too_large;
        BodyRecorder {
            can_cache,
            total: 0,
            buffer: Vec::new(),
            eligible: Ghost(can_cache),
            body: Ghost(Seq::empty()),
        }
    }

    /// Takes down the next piece of the body.
    pub fn record(&mut self, data: &[u8])
        requires
            old(self).wf(),
        ensures
            final(self).wf(),
            final(self).eligible() == old(self).eligible(),
            final(self).body() == old(self).body() + data@,
    {
        self.total = self.total.saturating_add(data.len());
        self.body = Ghost(self.body@ + data@);
        if self.can_cache && self.total <= MAX_CACHE_SIZE {
            self.buffer.extend_from_slice(data);
            assert(self.buffer@ =~= self.body@);
        } else {
            self.can_cache = false;
        }
    }

    /// Takes an event and tells what is to be done next. A piece of the body is
    /// taken down and passed on; trailers are passed on; all else ends the body.
    pub fn step(&mut self, event: BodyEvent) -> (action: BodyAction)
        requires
            old(self).wf(),
        ensures
            action == body_action(event),
            final(self).wf(),
            final(self).eligible() == old(self).eligible(),
            final(self).body() == old(self).body() + body_piece(event),
    {
        assert(self.body() + Seq::<u8>::empty() =~= self.body());
        match event {
            BodyEvent::Data(data) => {
                self.record(data);
                BodyAction::ForwardData
            },
            BodyEvent::Trailers => BodyAction::ForwardTrailers,
            BodyEvent::End => BodyAction::Stop(BodyEnd::LastFrame),
            BodyEvent::Broken => BodyAction::Stop(BodyEnd::Broken),
            BodyEvent::ClientGone => BodyAction::Stop(BodyEnd::ClientGone),
        }
    }

    /// What the cache is given of the body. It is complete if its last piece has
    /// come; one that was broken off is not.
    pub fn finish(self, complete: bool) -> (value: Option<Vec<u8>>)
        requires
            self.wf(),
        ensures
            match value {
                Some(value) => recording(self.eligible(), self.body(), complete) == Some(value@),
                None => recording(self.eligible(), self.body(), complete) is None,
            },
    {
        if complete && self.can_cache && self.total > 0 {
            Some(self.buffer)
        } else {
            None
        }
    }

    /// What the cache is given of a body that has ended in this way: only one
    /// whose last frame has come is complete.
    pub fn finish_after(self, end: BodyEnd) -> (value: Option<Vec<u8>>)
        requires
            self.wf(),
        ensures
            match value {
                Some(value) => recording(self.eligible(), self.body(), end is LastFrame) == Some(
                    value@,
                ),
                None => recording(self.eligible(), self.body(), end is LastFrame) is None,
            },
    {
        match end {
            BodyEnd::LastFrame => self.finish(true),
            BodyEnd::Broken => self.finish(false),
            BodyEnd::ClientGone => self.finish(false),
        }
    }
}

} // verus!
