//! The header fields of requests and responses, and what the proxy does to them
//! before a request goes on to a backend.
use crate::text::{as_text, is_mentioned, mentions};
use hyper::header::{HeaderMap, HeaderValue, InvalidHeaderValue, MaxSizeReached, ToStrError};
use vstd::prelude::*;

verus! {

/// `hyper::HeaderMap`, a collection of header fields.
#[verifier::external_type_specification]
#[verifier::external_body]
#[verifier::reject_recursive_types(T)]
pub struct ExHeaderMap<T>(HeaderMap<T>);

/// `hyper::header::HeaderValue`, the string of bytes that is the value of a
/// header field.
#[verifier::external_type_specification]
#[verifier::external_body]
pub struct ExHeaderValue(HeaderValue);

/// The error of `HeaderValue::from_str`.
#[verifier::external_type_specification]
#[verifier::external_body]
pub struct ExInvalidHeaderValue(InvalidHeaderValue);

/// The error of `HeaderValue::to_str`.
#[verifier::external_type_specification]
#[verifier::external_body]
pub struct ExToStrError(ToStrError);

/// The error of `HeaderMap::try_insert`.
#[verifier::external_type_specification]
#[verifier::external_body]
pub struct ExMaxSizeReached(MaxSizeReached);

/// The fields that a header map holds: under each name, in lower case, the
/// values of the fields with this name, in order.
pub uninterp spec fn header_fields(headers: HeaderMap<HeaderValue>) -> Map<
    Seq<char>,
    Seq<Seq<u8>>,
>;

/// The bytes that a header value holds.
pub uninterp spec fn header_bytes(value: HeaderValue) -> Seq<u8>;

/// Text made of 1 to 64 lower-case letters and hyphens, all of which is a header
/// name as it stands.
pub open spec fn is_plain_name(name: Seq<char>) -> bool {
    &&& 1 <= name.len() <= 64
    &&& forall|i: int|
        0 <= i < name.len() ==> 'a' <= #[trigger] name[i] <= 'z' || name[i] == '-'
}

/// The byte is visible in a header value: printable ASCII or a tab.
pub open spec fn is_visible(byte: u8) -> bool {
    32 <= byte < 127 || byte == 9
}

/// The byte may stand in a header value.
pub open spec fn is_value_byte(byte: u8) -> bool {
    byte >= 32 && byte != 127 || byte == 9
}

/// The text can be made into a header value.
pub open spec fn is_value_text(text: Seq<char>) -> bool {
    forall|i: int|
        0 <= i < vstd::utf8::encode_utf8(text).len() ==> is_value_byte(
            #[trigger] vstd::utf8::encode_utf8(text)[i],
        )
}

/// The bytes read as text, if all of them are visible.
pub open spec fn visible_text(bytes: Seq<u8>) -> Option<Seq<char>> {
    if forall|i: int| 0 <= i < bytes.len() ==> is_visible(#[trigger] bytes[i]) {
        Some(as_text(bytes))
    } else {
        None
    }
}

/// The values of the fields with this name, in order.
pub open spec fn values_under(fields: Map<Seq<char>, Seq<Seq<u8>>>, name: Seq<char>) -> Seq<
    Seq<u8>,
> {
    if fields.contains_key(name) {
        fields[name]
    } else {
        Seq::empty()
    }
}

/// The most names that a header map can hold so that there is room for one more
/// whatever the names are.
pub const SAFE_NAMES: usize = 6553;

/// `HeaderMap::get` with a name in lower case: the value of the first field with
/// this name, if there is one.
#[verifier::external_body]
fn header_get<'a>(headers: &'a HeaderMap<HeaderValue>, name: &str) -> (value: Option<
    &'a HeaderValue,
>)
    requires
        is_plain_name(name@),
    ensures
        match value {
            Some(value) => {
                &&& header_fields(*headers).contains_key(name@)
                &&& header_fields(*headers)[name@].len() > 0
                &&& header_bytes(*value) == header_fields(*headers)[name@][0]
            },
            None => !header_fields(*headers).contains_key(name@),
        },
{
    headers.get(name)
}

/// `HeaderMap::get_all` with a name in lower case: the values of the fields with
/// this name, in order. Where there is no such field, there is no value.
#[verifier::external_body]
fn header_get_all<'a>(headers: &'a HeaderMap<HeaderValue>, name: &str) -> (values: Vec<
    &'a HeaderValue,
>)
    requires
        is_plain_name(name@),
    ensures
        values@.map_values(|value: &HeaderValue| header_bytes(*value)) == values_under(
            header_fields(*headers),
            name@,
        ),
{
    headers.get_all(name).iter().collect()
}

/// `HeaderMap::contains_key` with a name in lower case: whether there is a field
/// with this name.
#[verifier::external_body]
pub(crate) fn header_contains(headers: &HeaderMap<HeaderValue>, name: &str) -> (found: bool)
    requires
        is_plain_name(name@),
    ensures
        found == header_fields(*headers).contains_key(name@),
{
    headers.contains_key(name)
}

/// `HeaderMap::remove` with a name in lower case: all fields with this name are
/// gone, and no other field is touched. The first of their values, which the
/// call hands back, is dropped.
#[verifier::external_body]
fn header_remove(headers: &mut HeaderMap<HeaderValue>, name: &str)
    requires
        is_plain_name(name@),
    ensures
        header_fields(*final(headers)) == header_fields(*old(headers)).remove(name@),
        header_fields(*final(headers)).dom().finite(),
{
    headers.remove(name);
}

/// `HeaderMap::try_insert` with a name in lower case: the value takes the place
/// of all fields with this name. The map has a limit and may refuse, and is then
/// as it was; it does not refuse while it holds no more than `SAFE_NAMES` names.
#[verifier::external_body]
fn header_insert(
    headers: &mut HeaderMap<HeaderValue>,
    name: &'static str,
    value: HeaderValue,
) -> (result: Result<(), MaxSizeReached>)
    requires
        is_plain_name(name@),
    ensures
        header_fields(*old(headers)).len() <= SAFE_NAMES ==> result is Ok,
        header_fields(*final(headers)) == match result {
            Ok(_) => header_fields(*old(headers)).insert(name@, seq![header_bytes(value)]),
            Err(_) => header_fields(*old(headers)),
        },
{
    match headers.try_insert(name, value) {
        Ok(_) => Ok(()),
        Err(error) => Err(error),
    }
}

/// `HeaderValue::to_str`: the value as text, if all its bytes are visible.
pub assume_specification[ HeaderValue::to_str ](value: &HeaderValue) -> (text: Result<
    &str,
    ToStrError,
>)
    ensures
        match text {
            Ok(text) => visible_text(header_bytes(*value)) == Some(text@),
            Err(_) => visible_text(header_bytes(*value)) is None,
        },
;

/// `HeaderValue::as_bytes`: the bytes that the value holds.
pub assume_specification[ HeaderValue::as_bytes ](value: &HeaderValue) -> (bytes: &[u8])
    ensures
        bytes@ == header_bytes(*value),
;

/// `HeaderValue::from_str`: a value that holds the UTF-8 bytes of the text, if
/// all of them may stand in a header value.
pub assume_specification[ HeaderValue::from_str ](text: &str) -> (value: Result<
    HeaderValue,
    InvalidHeaderValue,
>)
    ensures
        value is Ok <==> is_value_text(text@),
        value matches Ok(value) ==> header_bytes(value) == vstd::utf8::encode_utf8(text@),
;

/// The text of the first field with this name, if there is one and all its bytes
/// are visible.
pub open spec fn text_under(fields: Map<Seq<char>, Seq<Seq<u8>>>, name: Seq<char>) -> Option<
    Seq<char>,
> {
    if fields.contains_key(name) {
        visible_text(fields[name][0])
    } else {
        None
    }
}

/// The header fields that concern only the connection they come by.
pub open spec fn hop_by_hop_names() -> Seq<Seq<char>> {
    seq![
        "connection"@,
        "keep-alive"@,
        "proxy-authenticate"@,
        "proxy-authorization"@,
        "te"@,
        "trailers"@,
        "transfer-encoding"@,
        "upgrade"@,
    ]
}

/// The fields that a backend is sent: those of the client but for the ones that
/// concern only its connection and the host it asked for, and the address of the
/// client in place of any that was claimed.
pub open spec fn forwarded(fields: Map<Seq<char>, Seq<Seq<u8>>>, client: Seq<char>) -> Map<
    Seq<char>,
    Seq<Seq<u8>>,
> {
    fields.remove_keys(hop_by_hop_names().to_set()).remove("host"@).insert(
        "x-forwarded-for"@,
        seq![vstd::utf8::encode_utf8(client)],
    )
}

/// The names that the proxy looks for are plain ones.
pub proof fn lemma_plain_names()
    ensures
        is_plain_name("host"@),
        is_plain_name("cookie"@),
        is_plain_name("cache-control"@),
        is_plain_name("content-length"@),
        is_plain_name("x-forwarded-for"@),
        forall|i: int|
            0 <= i < hop_by_hop_names().len() ==> is_plain_name(#[trigger] hop_by_hop_names()[i]),
{
    reveal_strlit("host");
    reveal_strlit("cookie");
    reveal_strlit("cache-control");
    reveal_strlit("content-length");
    reveal_strlit("x-forwarded-for");
    reveal_strlit("connection");
    reveal_strlit("keep-alive");
    reveal_strlit("proxy-authenticate");
    reveal_strlit("proxy-authorization");
    reveal_strlit("te");
    reveal_strlit("trailers");
    reveal_strlit("transfer-encoding");
    reveal_strlit("upgrade");
}

/// The text of the first field with this name, if there is one and all its bytes
/// are visible.
pub fn header_text<'a>(headers: &'a HeaderMap<HeaderValue>, name: &str) -> (text: Option<&'a str>)
    requires
        is_plain_name(name@),
    ensures
        match text {
            Some(text) => text_under(header_fields(*headers), name@) == Some(text@),
            None => text_under(header_fields(*headers), name@) is None,
        },
{
    match header_get(headers, name) {
        Some(value) => match value.to_str() {
            Ok(text) => Some(text),
            Err(_) => None,
        },
        None => None,
    }
}

/// Some field with this name has the word, in lower case, in its value, where
/// letters may be of either case.
pub open spec fn mentioned_under(
    fields: Map<Seq<char>, Seq<Seq<u8>>>,
    name: Seq<char>,
    word: Seq<char>,
) -> bool {
    exists|i: int|
        0 <= i < values_under(fields, name).len() && mentions(
            as_text(#[trigger] values_under(fields, name)[i]),
            word,
        )
}

/// Whether some field with this name has the word, in lower case, in its value,
/// where letters may be of either case.
pub fn header_mentions(headers: &HeaderMap<HeaderValue>, name: &str, word: &str) -> (found: bool)
    requires
        is_plain_name(name@),
    ensures
        found == mentioned_under(header_fields(*headers), name@, word@),
{
    let values: Vec<&HeaderValue> = header_get_all(headers, name);
    let ghost under = values_under(header_fields(*headers), name@);
    assert(under.len() == values@.len());
    let mut i: usize = 0;
    while i < values.len()
        invariant
            i <= values@.len(),
            under == values_under(header_fields(*headers), name@),
            under == values@.map_values(|value: &HeaderValue| header_bytes(*value)),
            forall|j: int| 0 <= j < i ==> !mentions(as_text(#[trigger] under[j]), word@),
        decreases values@.len() - i,
    {
        let bytes = values[i].as_bytes();
        assert(bytes@ == under[i as int]);
        if is_mentioned(bytes, word) {
            return true;
        }
        i += 1;
    }
    false
}

/// Removes the fields that concern only the connection they come by.
fn remove_hop_by_hop(headers: &mut HeaderMap<HeaderValue>)
    ensures
        header_fields(*final(headers)) == header_fields(*old(headers)).remove_keys(
            hop_by_hop_names().to_set(),
        ),
        header_fields(*final(headers)).dom().finite(),
{
    let names: [&str; 8] = [
        "connection",
        "keep-alive",
        "proxy-authenticate",
        "proxy-authorization",
        "te",
        "trailers",
        "transfer-encoding",
        "upgrade",
    ];
    proof {
        lemma_plain_names();
    }
    let mut i: usize = 0;
    while i < 8
        invariant
            i <= 8,
            names@.len() == 8,
            forall|j: int| 0 <= j < 8 ==> (#[trigger] names@[j])@ == hop_by_hop_names()[j],
            forall|j: int| 0 <= j < 8 ==> is_plain_name(#[trigger] hop_by_hop_names()[j]),
            header_fields(*headers) == header_fields(*old(headers)).remove_keys(
                hop_by_hop_names().take(i as int).to_set(),
            ),
            i > 0 ==> header_fields(*headers).dom().finite(),
        decreases 8 - i,
    {
        let ghost before = header_fields(*headers);
        let ghost all = hop_by_hop_names();
        assert(names@[i as int]@ == all[i as int]);
        header_remove(headers, names[i]);
        assert(all.take(i + 1).to_set() =~= all.take(i as int).to_set().insert(all[i as int])) by {
            broadcast use vstd::seq_lib::group_seq_properties;

            assert(all.take(i + 1) =~= all.take(i as int).push(all[i as int]));
        }
        assert(header_fields(*headers) =~= header_fields(*old(headers)).remove_keys(
            all.take(i + 1).to_set(),
        ));
        i += 1;
    }
    assert(hop_by_hop_names().take(8) =~= hop_by_hop_names());
}

/// The header map had no room for another field.
#[derive(Debug, Clone, Copy, PartialEq, Eq)]
pub struct TooManyHeaders;

/// Makes the fields of a client's request those that a backend is sent.
pub fn forward_headers(headers: &mut HeaderMap<HeaderValue>, client: &str) -> (result: Result<
    (),
    TooManyHeaders,
>)
    requires
        is_value_text(client@),
    ensures
        header_fields(*old(headers)).len() <= SAFE_NAMES ==> result is Ok,
        result is Ok ==> header_fields(*final(headers)) == forwarded(
            header_fields(*old(headers)),
            client@,
        ),
        result is Err ==> header_fields(*final(headers)) == header_fields(
            *old(headers),
        ).remove_keys(hop_by_hop_names().to_set()).remove("host"@),
{
    proof {
        lemma_plain_names();
    }
    remove_hop_by_hop(headers);
    header_remove(headers, "host");
    proof {
        let before = header_fields(*old(headers)).dom();
        let after = header_fields(*headers).dom();
        let dropped = hop_by_hop_names().to_set().insert("host"@);
        vstd::seq_lib::seq_to_set_is_finite(hop_by_hop_names());
        assert(before.subset_of(after + dropped));
        vstd::set_lib::lemma_set_subset_finite(after + dropped, before);
        vstd::set_lib::lemma_len_subset(after, before);
    }
    let value = HeaderValue::from_str(client).unwrap();
    match header_insert(headers, "x-forwarded-for", value) {
        Ok(_) => Ok(()),
        Err(_) => Err(TooManyHeaders),
    }
}

} // verus!
