//! The laws of reading a request and a response.
use crate::body_recorder::declared_too_large;
use crate::headers::{header_fields, mentioned_under, text_under, values_under, visible_text};
use crate::request::{forbids_storing, host_in, may_be_cached, RequestHead};
use crate::routing::backend_of;
use crate::text::{as_text, mentions, number_in};
use crate::text_laws::{
    decimal, law_decimal_is_read, law_found_word_is_there, law_word_is_found, spells,
};
use vstd::prelude::*;

verus! {

/// The bytes are all printable ASCII or tabs.
pub open spec fn all_visible(bytes: Seq<u8>) -> bool {
    forall|i: int|
        0 <= i < bytes.len() ==> #[trigger] bytes[i] == 9 || 32 <= bytes[i] && bytes[i] <= 126
}

/// The text is the bytes, character by character.
pub open spec fn is_text_of(text: Seq<char>, bytes: Seq<u8>) -> bool {
    &&& text.len() == bytes.len()
    &&& forall|i: int| 0 <= i < bytes.len() ==> #[trigger] text[i] as int == bytes[i] as int
}

/// A header value has a text if and only if all its bytes are printable ASCII or
/// tabs, and then the text is these bytes.
pub proof fn law_visible_bytes_are_text(bytes: Seq<u8>)
    ensures
        visible_text(bytes) is Some <==> all_visible(bytes),
        visible_text(bytes) is Some ==> is_text_of(visible_text(bytes)->0, bytes),
{
}

/// The text under a name is that of its first value; where there is no field with
/// the name, or its first value has no text, there is none.
pub proof fn law_first_value_is_read(
    fields: Map<Seq<char>, Seq<Seq<u8>>>,
    name: Seq<char>,
    first: Seq<u8>,
    others: Seq<Seq<u8>>,
)
    ensures
        ({
            let present = fields.insert(name, seq![first] + others);
            &&& all_visible(first) ==> text_under(present, name) is Some && is_text_of(
                text_under(present, name)->0,
                first,
            )
            &&& !all_visible(first) ==> text_under(present, name) is None
            &&& text_under(fields.remove(name), name) is None
            &&& values_under(present, name) == seq![first] + others
            &&& values_under(fields.remove(name), name).len() == 0
        }),
{
    law_visible_bytes_are_text(first);
    assert(fields.insert(name, seq![first] + others)[name][0] == first);
}

/// Two texts of the same bytes are the same.
proof fn lemma_one_text(one: Seq<char>, other: Seq<char>, bytes: Seq<u8>)
    requires
        is_text_of(one, bytes),
        is_text_of(other, bytes),
    ensures
        one == other,
{
    assert forall|i: int| 0 <= i < one.len() implies one[i] == other[i] by {
        assert(one[i] as int == bytes[i] as int);
        assert(other[i] as int == bytes[i] as int);
    }
    assert(one =~= other);
}

/// The host that is asked for is the first Host field, if that is text, and no
/// text at all if there is no such field or it is not text.
pub proof fn law_host_is_read(
    fields: Map<Seq<char>, Seq<Seq<u8>>>,
    host: Seq<char>,
    first: Seq<u8>,
    others: Seq<Seq<u8>>,
)
    ensures
        ({
            let present = fields.insert("host"@, seq![first] + others);
            &&& all_visible(first) && is_text_of(host, first) ==> host_in(present) == host
            &&& !all_visible(first) ==> host_in(present).len() == 0
            &&& host_in(fields.remove("host"@)).len() == 0
        }),
{
    law_first_value_is_read(fields, "host"@, first, others);
    let present = fields.insert("host"@, seq![first] + others);
    if all_visible(first) && is_text_of(host, first) {
        lemma_one_text(host, text_under(present, "host"@)->0, first);
    }
}

/// The parts of the key are the request's own, for every method.
pub proof fn law_key_is_the_requests_own(head: RequestHead)
    ensures
        head.key().method == head.method@,
        head.key().host == host_in(header_fields(head.headers)),
        head.key().path == head.path@,
        match head.query {
            Some(query) => head.key().query == Some(query@),
            None => head.key().query is None,
        },
{
}

/// Two requests have the same key only if they agree in method, host, path and
/// query, and then they do.
pub proof fn law_same_key_means_same_request(one: RequestHead, other: RequestHead)
    ensures
        one.key() == other.key() <==> {
            &&& one.method@ == other.method@
            &&& host_in(header_fields(one.headers)) == host_in(
                header_fields(other.headers),
            )
            &&& one.path@ == other.path@
            &&& match (one.query, other.query) {
                (Some(a), Some(b)) => a@ == b@,
                (None, None) => true,
                _ => false,
            }
        },
{
    law_key_is_the_requests_own(one);
    law_key_is_the_requests_own(other);
}

/// A request is sent on to the backend of its host, with path and query as they
/// are: nothing is put between or behind, and nothing left out.
pub proof fn law_target_is_backend_and_path(head: RequestHead)
    ensures
        ({
            let backend = backend_of(host_in(header_fields(head.headers)));
            match head.path_and_query {
                Some(text) => head.target() == backend + text@,
                None => head.target() == backend,
            }
        }),
{
    let backend = backend_of(host_in(header_fields(head.headers)));
    assert(backend + Seq::<char>::empty() =~= backend);
}

/// Three hosts have a backend of their own, and every other one is served by the
/// default backend.
pub proof fn law_hosts_have_their_backends(host: Seq<char>)
    ensures
        backend_of("api.example.com"@) == "http://127.0.0.1:9001"@,
        backend_of("images.example.com"@) == "http://127.0.0.1:9002"@,
        backend_of("blog.example.com"@) == "http://127.0.0.1:9003"@,
        host != "api.example.com"@ && host != "images.example.com"@ && host != "blog.example.com"@
            ==> backend_of(host) == "http://127.0.0.1:9000"@,
{
    reveal_strlit("api.example.com");
    reveal_strlit("images.example.com");
    reveal_strlit("blog.example.com");
    assert("api.example.com"@[0] == 'a');
    assert("images.example.com"@[0] == 'i');
    assert("blog.example.com"@[0] == 'b');
}

/// A word is found under a name if and only if some value there has it.
pub proof fn law_every_value_is_searched(
    fields: Map<Seq<char>, Seq<Seq<u8>>>,
    name: Seq<char>,
    values: Seq<Seq<u8>>,
    word: Seq<char>,
)
    ensures
        mentioned_under(fields.insert(name, values), name, word) <==> exists|i: int|
            0 <= i < values.len() && mentions(as_text(#[trigger] values[i]), word),
        !mentioned_under(fields.remove(name), name, word),
{
    assert(values_under(fields.insert(name, values), name) == values);
}

/// Nothing but these decides whether a response may be cached: that the method is
/// `GET` or `HEAD`, that there is no Cookie field, and that no Cache-Control field
/// has `no-store` in it.
pub proof fn law_cacheable_requests(method: Seq<char>, fields: Map<Seq<char>, Seq<Seq<u8>>>)
    ensures
        may_be_cached(method, fields) <==> {
            &&& method == "GET"@ || method == "HEAD"@
            &&& !fields.contains_key("cookie"@)
            &&& fields.contains_key("cache-control"@) ==> forall|i: int|
                0 <= i < fields["cache-control"@].len() ==> !mentions(
                    as_text(#[trigger] fields["cache-control"@][i]),
                    "no-store"@,
                )
        },
{
    let name = "cache-control"@;
    if fields.contains_key(name) {
        assert(values_under(fields, name) == fields[name]);
        if forbids_storing(fields) {
            let i = choose|i: int|
                0 <= i < values_under(fields, name).len() && mentions(
                    as_text(#[trigger] values_under(fields, name)[i]),
                    "no-store"@,
                );
            assert(mentions(as_text(fields[name][i]), "no-store"@));
        }
        assert forall|i: int|
            0 <= i < fields[name].len() && mentions(
                as_text(#[trigger] fields[name][i]),
                "no-store"@,
            ) implies forbids_storing(fields) by {
            assert(values_under(fields, name)[i] == fields[name][i]);
        }
    }
}

/// A request with a Cache-Control field that has `no-store` in it, in small or
/// capital letters and with anything around it, in whichever of the fields, is
/// never cacheable.
pub proof fn law_no_store_is_respected(
    method: Seq<char>,
    fields: Map<Seq<char>, Seq<Seq<u8>>>,
    i: int,
    before: Seq<char>,
    directive: Seq<char>,
    behind: Seq<char>,
)
    requires
        fields.contains_key("cache-control"@),
        0 <= i < fields["cache-control"@].len(),
        is_text_of(before + directive + behind, fields["cache-control"@][i]),
        spells(directive, "no-store"@),
    ensures
        forbids_storing(fields),
        !may_be_cached(method, fields),
{
    let bytes = fields["cache-control"@][i];
    assert(is_text_of(as_text(bytes), bytes));
    lemma_one_text(before + directive + behind, as_text(bytes), bytes);
    law_word_is_found(before, directive, behind, "no-store"@);
    law_cacheable_requests(method, fields);
    assert(values_under(fields, "cache-control"@)[i] == bytes);
}

/// Only a Cache-Control field that has `no-store` in it, in small or capital
/// letters, forbids storing.
pub proof fn law_only_no_store_forbids(fields: Map<Seq<char>, Seq<Seq<u8>>>) -> (found: (int, int))
    requires
        forbids_storing(fields),
    ensures
        fields.contains_key("cache-control"@),
        0 <= found.0 < fields["cache-control"@].len(),
        ({
            let text = as_text(fields["cache-control"@][found.0]);
            &&& 0 <= found.1 <= text.len() - "no-store"@.len()
            &&& spells(text.subrange(found.1, found.1 + "no-store"@.len()), "no-store"@)
        }),
{
    let name = "cache-control"@;
    let i = choose|i: int|
        0 <= i < values_under(fields, name).len() && mentions(
            as_text(#[trigger] values_under(fields, name)[i]),
            "no-store"@,
        );
    let at = law_found_word_is_there(as_text(values_under(fields, name)[i]), "no-store"@);
    (i, at)
}

/// A response says itself that it is too large if and only if the number in its
/// Content-Length field is greater than 10 MiB.
pub proof fn law_declared_length_decides(
    fields: Map<Seq<char>, Seq<Seq<u8>>>,
    length: nat,
    first: Seq<u8>,
    others: Seq<Seq<u8>>,
)
    requires
        is_text_of(decimal(length), first),
        all_visible(first),
    ensures
        declared_too_large(fields.insert("content-length"@, seq![first] + others)) <==> length > 10
            * 1024 * 1024,
        !declared_too_large(fields.remove("content-length"@)),
{
    law_first_value_is_read(fields, "content-length"@, first, others);
    law_decimal_is_read(length);
    let present = fields.insert("content-length"@, seq![first] + others);
    lemma_one_text(decimal(length), text_under(present, "content-length"@)->0, first);
}

/// A Content-Length field that is not a number, or no more than 10 MiB, decides
/// nothing, however it is written, and one that is more always decides.
pub proof fn law_only_a_large_number_decides(
    fields: Map<Seq<char>, Seq<Seq<u8>>>,
    text: Seq<char>,
    first: Seq<u8>,
    others: Seq<Seq<u8>>,
)
    requires
        is_text_of(text, first),
    ensures
        declared_too_large(fields.insert("content-length"@, seq![first] + others)) <==> {
            &&& all_visible(first)
            &&& number_in(text) is Some
            &&& number_in(text)->0 > 10 * 1024 * 1024
        },
{
    law_first_value_is_read(fields, "content-length"@, first, others);
    let present = fields.insert("content-length"@, seq![first] + others);
    if all_visible(first) {
        lemma_one_text(text, text_under(present, "content-length"@)->0, first);
    }
}

} // verus!
