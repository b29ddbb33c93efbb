//! The laws of the proxy: what a backend is sent, what is kept of its response,
//! and how an exchange runs.
use crate::body_recorder::{
    body_action, body_piece, declared_too_large, recording, BodyAction, BodyEnd, BodyEvent,
    MAX_CACHE_SIZE,
};
use crate::exchange::{expects, next_action, phase_after, Action, Answer, Event, Phase};
use crate::headers::{forwarded, hop_by_hop_names};
use crate::request::{forbids_storing, may_be_cached};
use vstd::prelude::*;

verus! {

/// The client's address is not among the fields that are taken out.
proof fn lemma_address_is_kept()
    ensures
        !hop_by_hop_names().contains("x-forwarded-for"@),
        "x-forwarded-for"@ != "host"@,
{
    reveal_strlit("x-forwarded-for");
    reveal_strlit("host");
    reveal_strlit("connection");
    reveal_strlit("keep-alive");
    reveal_strlit("proxy-authenticate");
    reveal_strlit("proxy-authorization");
    reveal_strlit("te");
    reveal_strlit("trailers");
    reveal_strlit("transfer-encoding");
    reveal_strlit("upgrade");
    assert("x-forwarded-for"@[0] == 'x');
}

/// A backend is sent none of the fields that concern only the client's
/// connection, and not the host that the client asked for.
pub proof fn law_hop_by_hop_is_not_forwarded(
    fields: Map<Seq<char>, Seq<Seq<u8>>>,
    client: Seq<char>,
    name: Seq<char>,
)
    requires
        hop_by_hop_names().contains(name) || name == "host"@,
    ensures
        !forwarded(fields, client).contains_key(name),
{
    lemma_address_is_kept();
}

/// A backend is told the client's address once, and nothing that the client
/// claims instead.
pub proof fn law_client_address_is_forwarded(
    fields: Map<Seq<char>, Seq<Seq<u8>>>,
    client: Seq<char>,
)
    ensures
        forwarded(fields, client).contains_key("x-forwarded-for"@),
        forwarded(fields, client)["x-forwarded-for"@] == seq![vstd::utf8::encode_utf8(client)],
{
}

/// A backend is sent every other field, with all its values as they were, and no
/// field that the client did not send.
pub proof fn law_other_fields_are_forwarded(
    fields: Map<Seq<char>, Seq<Seq<u8>>>,
    client: Seq<char>,
    name: Seq<char>,
)
    requires
        !hop_by_hop_names().contains(name),
        name != "host"@,
        name != "x-forwarded-for"@,
    ensures
        forwarded(fields, client).contains_key(name) == fields.contains_key(name),
        fields.contains_key(name) ==> forwarded(fields, client)[name] == fields[name],
{
}

/// Fields that were made ready for a backend are not changed by making them
/// ready again.
pub proof fn law_forwarding_twice(fields: Map<Seq<char>, Seq<Seq<u8>>>, client: Seq<char>)
    ensures
        forwarded(forwarded(fields, client), client) == forwarded(fields, client),
{
    lemma_address_is_kept();
    assert(forwarded(forwarded(fields, client), client) =~= forwarded(fields, client));
}

/// Only the complete response to a `GET` or a `HEAD` that carries no cookie and
/// does not forbid storing is stored, and only as a whole, if it is not empty
/// and no larger than the limit, nor said to be.
pub proof fn law_only_cacheable_is_stored(
    method: Seq<char>,
    request: Map<Seq<char>, Seq<Seq<u8>>>,
    response: Map<Seq<char>, Seq<Seq<u8>>>,
    body: Seq<u8>,
    complete: bool,
)
    ensures
        ({
            let eligible = may_be_cached(method, request) && !declared_too_large(response);
            let stored = recording(eligible, body, complete);
            &&& stored is Some ==> {
                &&& method == "GET"@ || method == "HEAD"@
                &&& !request.contains_key("cookie"@)
                &&& !forbids_storing(request)
                &&& !declared_too_large(response)
                &&& complete
                &&& 0 < body.len() <= MAX_CACHE_SIZE
                &&& stored == Some(body)
            }
            &&& eligible && complete && 0 < body.len() <= MAX_CACHE_SIZE ==> stored == Some(body)
        }),
{
}

/// The phase that an exchange is in after these events.
pub open spec fn phase_at<V>(cacheable: bool, events: Seq<Event<V>>) -> Phase {
    if events.len() == 0 {
        Phase::Verdict
    } else {
        phase_after(next_action(cacheable, events.last()))
    }
}

/// An exchange can run this way: every event is one that it was waiting for.
pub open spec fn is_course<V>(cacheable: bool, events: Seq<Event<V>>) -> bool {
    forall|i: int|
        0 <= i < events.len() ==> expects(
            phase_at(cacheable, events.take(i)),
            #[trigger] events[i],
        )
}

/// How many events can still come.
pub open spec fn events_left(phase: Phase) -> int {
    match phase {
        Phase::Verdict => 3,
        Phase::Lookup => 2,
        Phase::Backend => 1,
        Phase::Streaming => 0,
        Phase::Done => 0,
    }
}

/// A request that the rate limiter refuses is answered with status 429 at once,
/// whatever it asks for, and nothing else happens.
pub proof fn law_refused_request_goes_no_further<V>(cacheable: bool, later: Event<V>)
    ensures
        ({
            let action = next_action(cacheable, Event::<V>::Verdict(Some(false)));
            &&& action matches Action::Reply(answer)
            &&& answer.code() == 429
            &&& answer.message() == Some("429 Too many Requests\n"@)
            &&& !expects(phase_after(action), later)
        }),
{
}

/// If the backend cannot be reached the client is answered with status 502.
pub proof fn law_unreachable_backend_is_reported<V>(cacheable: bool)
    ensures
        ({
            let action = next_action(cacheable, Event::<V>::BackendFailed);
            &&& action matches Action::Reply(answer)
            &&& answer.code() == 502
            &&& answer.message() == Some("502 Bad Gateway\n"@)
        }),
{
}

/// What the cache has is what the client is answered with, under status 200, and
/// the backend is not asked.
pub proof fn law_cache_hit_is_served<V>(cacheable: bool, value: V, later: Event<V>)
    ensures
        ({
            let action = next_action(cacheable, Event::Lookup(Some(value)));
            &&& action == Action::Reply(Answer::Cached(value))
            &&& Answer::Cached(value).code() == 200
            &&& !expects(phase_after(action), later)
        }),
{
}

/// Only a refusal stops a request: one that is let through, or on which there is
/// no verdict, goes on to the cache or to the backend.
pub proof fn law_only_refusal_stops<V>(cacheable: bool, verdict: Option<bool>)
    requires
        verdict != Some(false),
    ensures
        next_action(cacheable, Event::<V>::Verdict(verdict)) == if cacheable {
            Action::<V>::AskCache
        } else {
            Action::<V>::AskBackend
        },
{
}

/// Every exchange comes to its end: each event brings it nearer, and after three
/// at the latest the client is answered.
pub proof fn law_exchange_ends<V>(cacheable: bool, events: Seq<Event<V>>)
    requires
        is_course(cacheable, events),
    ensures
        events.len() + events_left(phase_at(cacheable, events)) <= 3,
        events.len() == 3 ==> phase_at(cacheable, events) is Streaming || phase_at(
            cacheable,
            events,
        ) is Done,
    decreases events.len(),
{
    if events.len() > 0 {
        let earlier = events.drop_last();
        lemma_course_prefix(cacheable, events);
        law_exchange_ends(cacheable, earlier);
        assert(earlier =~= events.take(events.len() - 1));
        assert(events[events.len() - 1] == events.last());
    }
}

/// What comes before the last event is a course as well.
proof fn lemma_course_prefix<V>(cacheable: bool, events: Seq<Event<V>>)
    requires
        is_course(cacheable, events),
        events.len() > 0,
    ensures
        is_course(cacheable, events.drop_last()),
{
    let earlier = events.drop_last();
    assert forall|i: int| 0 <= i < earlier.len() implies expects(
        phase_at(cacheable, earlier.take(i)),
        #[trigger] earlier[i],
    ) by {
        assert(earlier.take(i) =~= events.take(i));
        assert(earlier[i] == events[i]);
    }
}

/// A request that may not be cached never has to do with the cache: the cache is
/// not asked, and the client is not answered from it.
pub proof fn law_uncacheable_bypasses_cache<V>(events: Seq<Event<V>>)
    requires
        is_course(false, events),
    ensures
        !(phase_at(false, events) is Lookup),
        forall|i: int|
            0 <= i < events.len() ==> {
                &&& !(next_action(false, #[trigger] events[i]) is AskCache)
                &&& !(next_action(false, events[i]) matches Action::Reply(Answer::Cached(_)))
            },
    decreases events.len(),
{
    if events.len() > 0 {
        let earlier = events.drop_last();
        lemma_course_prefix(false, events);
        law_uncacheable_bypasses_cache(earlier);
        assert(earlier =~= events.take(events.len() - 1));
        let last = events[events.len() - 1];
        assert forall|i: int| 0 <= i < events.len() implies {
            &&& !(next_action(false, #[trigger] events[i]) is AskCache)
            &&& !(next_action(false, events[i]) matches Action::Reply(Answer::Cached(_)))
        } by {
            if i < earlier.len() {
                assert(earlier[i] == events[i]);
            }
        }
    }
}

/// The field is one of those that concern only the client's connection.
pub open spec fn concerns_connection(name: Seq<char>) -> bool {
    ||| name == "connection"@
    ||| name == "keep-alive"@
    ||| name == "proxy-authenticate"@
    ||| name == "proxy-authorization"@
    ||| name == "te"@
    ||| name == "trailers"@
    ||| name == "transfer-encoding"@
    ||| name == "upgrade"@
}

/// These eight names are taken out, and no other is.
pub proof fn law_eight_names_are_taken_out(name: Seq<char>)
    ensures
        hop_by_hop_names().contains(name) <==> concerns_connection(name),
{
    let names = hop_by_hop_names();
    assert(names[0] == "connection"@ && names[1] == "keep-alive"@);
    assert(names[2] == "proxy-authenticate"@ && names[3] == "proxy-authorization"@);
    assert(names[4] == "te"@ && names[5] == "trailers"@);
    assert(names[6] == "transfer-encoding"@ && names[7] == "upgrade"@);
}

/// What a backend is sent under any name: nothing under the eight names and
/// `host`, the client's address under `x-forwarded-for`, and under every other
/// name exactly what the client has sent.
pub proof fn law_fields_reach_the_backend(
    fields: Map<Seq<char>, Seq<Seq<u8>>>,
    client: Seq<char>,
    name: Seq<char>,
)
    ensures
        ({
            let sent = forwarded(fields, client);
            if name == "x-forwarded-for"@ {
                sent.contains_key(name) && sent[name] == seq![vstd::utf8::encode_utf8(client)]
            } else if concerns_connection(name) || name == "host"@ {
                !sent.contains_key(name)
            } else {
                &&& sent.contains_key(name) == fields.contains_key(name)
                &&& fields.contains_key(name) ==> sent[name] == fields[name]
            }
        }),
{
    law_eight_names_are_taken_out(name);
}

/// What each event leads to, for requests that may be cached and for those that
/// may not: only the way to the cache depends on that.
pub proof fn law_every_event_has_its_answer<V>(cacheable: bool, verdict: Option<bool>, value: V)
    ensures
        next_action(cacheable, Event::<V>::BackendAnswered) == Action::<V>::PassOn,
        next_action(cacheable, Event::<V>::BackendFailed) == Action::<V>::Reply(Answer::BadGateway),
        next_action(cacheable, Event::<V>::Lookup(None)) == Action::<V>::AskBackend,
        next_action(cacheable, Event::Lookup(Some(value))) == Action::Reply(Answer::Cached(value)),
        verdict == Some(false) ==> next_action(cacheable, Event::<V>::Verdict(verdict)) == Action::<
            V,
        >::Reply(Answer::TooManyRequests),
        verdict != Some(false) ==> next_action(true, Event::<V>::Verdict(verdict)) == Action::<
            V,
        >::AskCache,
        verdict != Some(false) ==> next_action(false, Event::<V>::Verdict(verdict)) == Action::<
            V,
        >::AskBackend,
{
}

/// Every answer has its one cause: 502 comes only of a backend that failed, 429
/// only of a refusal, a cached response only of a lookup that found it, and a
/// response is passed on only if the backend has answered.
pub proof fn law_every_answer_has_its_cause<V>(cacheable: bool, event: Event<V>, value: V)
    ensures
        next_action(cacheable, event) == Action::<V>::Reply(Answer::BadGateway) <==> event
            is BackendFailed,
        next_action(cacheable, event) == Action::<V>::Reply(Answer::TooManyRequests) <==> event
            == Event::<V>::Verdict(Some(false)),
        next_action(cacheable, event) == Action::Reply(Answer::Cached(value)) <==> event
            == Event::Lookup(Some(value)),
        next_action(cacheable, event) is PassOn <==> event is BackendAnswered,
        next_action(cacheable, event) is AskCache ==> cacheable && event is Verdict,
        next_action(cacheable, event) is AskBackend ==> event is Verdict || event == Event::<
            V,
        >::Lookup(None),
{
}

/// What is asked is what is waited for: the rate limiter at first, then the cache
/// or the backend if it is asked, and nothing once the client has its answer.
pub proof fn law_what_is_asked_is_awaited<V>(event: Event<V>, answer: Answer<V>)
    ensures
        expects(phase_at(true, Seq::<Event<V>>::empty()), event) <==> event is Verdict,
        expects(phase_at(false, Seq::<Event<V>>::empty()), event) <==> event is Verdict,
        expects(phase_after(Action::<V>::AskCache), event) <==> event is Lookup,
        expects(phase_after(Action::<V>::AskBackend), event) <==> event is BackendAnswered || event
            is BackendFailed,
        !expects(phase_after(Action::Reply(answer)), event),
        !expects(phase_after(Action::<V>::PassOn), event),
{
}

/// The status and the text of every answer.
pub proof fn law_answers_are_told<V>(value: V)
    ensures
        Answer::<V>::TooManyRequests.code() == 429,
        Answer::<V>::TooManyRequests.message() == Some("429 Too many Requests\n"@),
        Answer::<V>::BadGateway.code() == 502,
        Answer::<V>::BadGateway.message() == Some("502 Bad Gateway\n"@),
        Answer::Cached(value).code() == 200,
        Answer::Cached(value).message() is None,
{
}

/// Whatever the length of a piece, it is passed on and taken down as it is; only
/// the end of a body makes it complete, and only what ends it stops it.
pub proof fn law_body_events(event: BodyEvent)
    ensures
        body_action(event) is ForwardData <==> event is Data,
        body_action(event) is ForwardTrailers <==> event is Trailers,
        body_action(event) == BodyAction::Stop(BodyEnd::LastFrame) <==> event is End,
        body_action(event) == BodyAction::Stop(BodyEnd::Broken) <==> event is Broken,
        body_action(event) == BodyAction::Stop(BodyEnd::ClientGone) <==> event is ClientGone,
        event matches BodyEvent::Data(data) ==> body_piece(event) == data@,
        !(event is Data) ==> body_piece(event).len() == 0,
{
}

/// The event ends the body.
pub open spec fn ends_body(event: BodyEvent) -> bool {
    event is End || event is Broken || event is ClientGone
}

/// The pieces of data among these events, one after another.
pub open spec fn data_in(events: Seq<BodyEvent>) -> Seq<u8>
    decreases events.len(),
{
    if events.len() == 0 {
        Seq::empty()
    } else {
        match events.last() {
            BodyEvent::Data(data) => data_in(events.drop_last()) + data@,
            _ => data_in(events.drop_last()),
        }
    }
}

/// What the client is passed of the data in these events, if the actions are
/// carried out until one says to stop.
pub open spec fn passed_on(events: Seq<BodyEvent>) -> Seq<u8>
    decreases events.len(),
{
    if events.len() == 0 {
        Seq::empty()
    } else {
        let earlier = passed_on(events.drop_last());
        match (events.last(), body_action(events.last())) {
            (BodyEvent::Data(data), BodyAction::ForwardData) => if stopped(events.drop_last()) {
                earlier
            } else {
                earlier + data@
            },
            _ => earlier,
        }
    }
}

/// Some action among these says to stop.
pub open spec fn stopped(events: Seq<BodyEvent>) -> bool {
    exists|i: int| 0 <= i < events.len() && body_action(#[trigger] events[i]) is Stop
}

/// What the recorder takes down of these events.
pub open spec fn taken_down(events: Seq<BodyEvent>) -> Seq<u8>
    decreases events.len(),
{
    if events.len() == 0 {
        Seq::empty()
    } else {
        taken_down(events.drop_last()) + body_piece(events.last())
    }
}

/// The client is passed all the data of a body that has not ended, in order and
/// unchanged, and the recorder takes down the same.
pub proof fn law_client_is_passed_all_data(events: Seq<BodyEvent>)
    requires
        forall|i: int| 0 <= i < events.len() ==> !ends_body(#[trigger] events[i]),
    ensures
        passed_on(events) == data_in(events),
        taken_down(events) == data_in(events),
        !stopped(events),
    decreases events.len(),
{
    if events.len() > 0 {
        let earlier = events.drop_last();
        let last = events[events.len() - 1];
        assert(!ends_body(last));
        assert forall|i: int| 0 <= i < earlier.len() implies !ends_body(#[trigger] earlier[i]) by {
            assert(earlier[i] == events[i]);
        }
        law_client_is_passed_all_data(earlier);
        assert(taken_down(earlier) + Seq::<u8>::empty() =~= taken_down(earlier));
        assert forall|i: int| 0 <= i < events.len() implies !(body_action(
            #[trigger] events[i],
        ) is Stop) by {
            if i < earlier.len() {
                assert(earlier[i] == events[i]);
            }
        }
    }
}

/// A body that runs to its end is passed on whole, and if it may be cached, is not
/// empty and not too large, the cache is given exactly what the client was passed.
/// One that is broken off, or that the client does not take, is not cached.
pub proof fn law_cache_is_given_what_the_client_was_passed(
    events: Seq<BodyEvent>,
    end: BodyEvent,
    eligible: bool,
)
    requires
        forall|i: int| 0 <= i < events.len() ==> !ends_body(#[trigger] events[i]),
        ends_body(end),
    ensures
        ({
            let whole = events.push(end);
            let action = body_action(end);
            &&& action is Stop
            &&& passed_on(whole) == data_in(events)
            &&& recording(eligible, taken_down(whole), action == BodyAction::Stop(
                BodyEnd::LastFrame,
            )) == if end is End && eligible && 0 < data_in(events).len() <= 10 * 1024 * 1024 {
                Some(passed_on(whole))
            } else {
                None
            }
        }),
{
    law_client_is_passed_all_data(events);
    let whole = events.push(end);
    assert(whole.drop_last() =~= events);
    assert(taken_down(events) + Seq::<u8>::empty() =~= taken_down(events));
}

} // verus!
