//! The key that a response is cached under.
use crate::lru_key::LruKey;
use std::collections::hash_map::DefaultHasher;
use std::hash::Hasher;
use vstd::prelude::*;
use vstd::std_specs::hash::DefaultHasherAdditionalSpecFns;
use vstd::utf8::{
    encode_scalar, encode_utf8, encode_utf8_decode_utf8, last_continuation_byte,
    leading_byte_width_1, leading_byte_width_2, leading_byte_width_3, leading_byte_width_4,
    second_last_continuation_byte, third_last_continuation_byte,
};

verus! {

/// What tells one cached response from another: the method, the host, the path
/// and the query of the request.
#[derive(Debug, Clone, PartialEq, Eq, Hash)]
pub struct CacheKey {
    pub method: String,
    pub host: String,
    pub path: String,
    pub query: Option<String>,
}

/// The byte that ends a text in what a digest is made of. It never occurs in
/// UTF-8.
pub const TEXT_END: u8 = 0xff;

/// The byte that stands for a text that is not there. It never occurs in UTF-8
/// either.
pub const NO_TEXT: u8 = 0xfe;

/// The texts that a cache key is made of.
pub struct CacheKeyView {
    pub method: Seq<char>,
    pub host: Seq<char>,
    pub path: Seq<char>,
    pub query: Option<Seq<char>>,
}

/// The text in a string, if there is one.
pub open spec fn text_of(text: Option<String>) -> Option<Seq<char>> {
    match text {
        Some(text) => Some(text@),
        None => None,
    }
}

impl View for CacheKey {
    type V = CacheKeyView;

    open spec fn view(&self) -> CacheKeyView {
        CacheKeyView {
            method: self.method@,
            host: self.host@,
            path: self.path@,
            query: text_of(self.query),
        }
    }
}

impl CacheKeyView {
    /// The byte strings that are written to find the digest: those of the
    /// method, the host, the path and the query, each with a byte behind it that
    /// stands in no text, and another such byte where there is no query.
    pub open spec fn writes(self) -> Seq<Seq<u8>> {
        let fixed = seq![
            encode_utf8(self.method),
            seq![TEXT_END],
            encode_utf8(self.host),
            seq![TEXT_END],
            encode_utf8(self.path),
            seq![TEXT_END],
        ];
        match self.query {
            Some(query) => fixed.push(encode_utf8(query)).push(seq![TEXT_END]),
            None => fixed.push(seq![NO_TEXT]),
        }
    }
}

impl LruKey for CacheKey {
    open spec fn digest_of(identity: CacheKeyView) -> u64 {
        DefaultHasher::spec_finish(identity.writes())
    }

    fn same_key(&self, other: &CacheKey) -> (same: bool) {
        let same_query = match (&self.query, &other.query) {
            (Some(one), Some(another)) => *one == *another,
            (None, None) => true,
            _ => false,
        };
        self.method == other.method && self.host == other.host && self.path == other.path
            && same_query
    }

    fn digest(&self) -> (digest: u64) {
        let mut hasher = DefaultHasher::new();
        let text_end: [u8; 1] = [TEXT_END];
        let no_text: [u8; 1] = [NO_TEXT];
        assert(text_end@ =~= seq![TEXT_END] && no_text@ =~= seq![NO_TEXT]);
        hasher.write(self.method.as_str().as_bytes());
        hasher.write(text_end.as_slice());
        hasher.write(self.host.as_str().as_bytes());
        hasher.write(text_end.as_slice());
        hasher.write(self.path.as_str().as_bytes());
        hasher.write(text_end.as_slice());
        match &self.query {
            Some(query) => {
                hasher.write(query.as_str().as_bytes());
                hasher.write(text_end.as_slice());
            },
            None => {
                hasher.write(no_text.as_slice());
            },
        }
        assert(hasher@ =~= self@.writes());
        hasher.finish()
    }
}

/// Two keys are the same key if and only if they agree in all their parts: the
/// method, the host, the path, and the query or that there is none.
pub proof fn law_keys_are_their_parts(one: CacheKey, other: CacheKey)
    ensures
        one@ == other@ <==> {
            &&& one.method@ == other.method@
            &&& one.host@ == other.host@
            &&& one.path@ == other.path@
            &&& match (one.query, other.query) {
                (Some(a), Some(b)) => a@ == b@,
                (None, None) => true,
                _ => false,
            }
        },
{
}

/// The byte occurs in no text.
spec fn is_mark(byte: u8) -> bool {
    byte >= 0xf8
}

/// No byte of a text is a mark.
proof fn lemma_texts_hold_no_marks(text: Seq<char>)
    ensures
        forall|i: int|
            0 <= i < encode_utf8(text).len() ==> !is_mark(
                #[trigger] encode_utf8(text)[i],
            ),
    decreases text.len(),
{
    if text.len() > 0 {
        let scalar = text[0] as u32;
        let first = encode_scalar(scalar);
        assert(leading_byte_width_1(scalar) < 0xf8) by (bit_vector);
        assert(leading_byte_width_2(scalar) < 0xf8) by (bit_vector);
        assert(leading_byte_width_3(scalar) < 0xf8) by (bit_vector);
        assert(leading_byte_width_4(scalar) < 0xf8) by (bit_vector);
        assert(last_continuation_byte(scalar) < 0xf8) by (bit_vector);
        assert(second_last_continuation_byte(scalar) < 0xf8) by (bit_vector);
        assert(third_last_continuation_byte(scalar) < 0xf8) by (bit_vector);
        assert(forall|i: int| 0 <= i < first.len() ==> !is_mark(#[trigger] first[i]));
        let rest = encode_utf8(text.drop_first());
        lemma_texts_hold_no_marks(text.drop_first());
        assert forall|i: int| 0 <= i < encode_utf8(text).len() implies !is_mark(
            #[trigger] encode_utf8(text)[i],
        ) by {
            if i >= first.len() {
                assert(encode_utf8(text)[i] == rest[i - first.len()]);
            }
        }
    }
}

/// Texts that a mark follows can be told from what follows them.
proof fn lemma_marks_separate(
    one: Seq<char>,
    one_mark: u8,
    one_rest: Seq<u8>,
    other: Seq<char>,
    other_mark: u8,
    other_rest: Seq<u8>,
)
    requires
        is_mark(one_mark),
        is_mark(other_mark),
        encode_utf8(one) + seq![one_mark] + one_rest == encode_utf8(other)
            + seq![other_mark] + other_rest,
    ensures
        one == other,
        one_mark == other_mark,
        one_rest == other_rest,
{
    let a = encode_utf8(one);
    let b = encode_utf8(other);
    let all = a + seq![one_mark] + one_rest;
    let same = b + seq![other_mark] + other_rest;
    lemma_texts_hold_no_marks(one);
    lemma_texts_hold_no_marks(other);
    assert(all[a.len() as int] == one_mark);
    assert(same[b.len() as int] == other_mark);
    assert(a.len() == b.len()) by {
        if a.len() < b.len() {
            assert(same[a.len() as int] == b[a.len() as int]);
            assert(!is_mark(b[a.len() as int]));
        } else if b.len() < a.len() {
            assert(all[b.len() as int] == a[b.len() as int]);
            assert(!is_mark(a[b.len() as int]));
        }
    }
    assert(all.take(a.len() as int) =~= a);
    assert(same.take(a.len() as int) =~= b);
    assert(all.skip((a.len() + 1) as int) =~= one_rest);
    assert(same.skip((a.len() + 1) as int) =~= other_rest);
    encode_utf8_decode_utf8(one);
    encode_utf8_decode_utf8(other);
}

/// All that is written to find the digest, in one piece.
spec fn written(key: CacheKeyView) -> Seq<u8> {
    encode_utf8(key.method) + seq![TEXT_END] + (encode_utf8(key.host)
        + seq![TEXT_END] + (encode_utf8(key.path) + seq![TEXT_END] + written_query(
        key.query,
    )))
}

/// What is written of the query.
spec fn written_query(query: Option<Seq<char>>) -> Seq<u8> {
    match query {
        Some(query) => encode_utf8(query) + seq![TEXT_END] + Seq::<u8>::empty(),
        None => encode_utf8(Seq::empty()) + seq![NO_TEXT] + Seq::<u8>::empty(),
    }
}

/// The writes, one after another, are what is written.
proof fn lemma_written(key: CacheKeyView)
    ensures
        key.writes().flatten() == written(key),
{
    reveal_with_fuel(Seq::flatten, 10);
    let w = key.writes();
    assert(w.flatten() =~= written(key));
}

/// The bytes that the digests of two keys are made of are the same only if the
/// keys are: the same text split in another way into host, path and query is
/// written in another way.
pub proof fn law_written_bytes_tell_keys_apart(one: CacheKeyView, other: CacheKeyView)
    requires
        one.writes().flatten() == other.writes().flatten(),
    ensures
        one == other,
{
    lemma_written(one);
    lemma_written(other);
    let one_path = encode_utf8(one.path) + seq![TEXT_END] + written_query(one.query);
    let other_path = encode_utf8(other.path) + seq![TEXT_END] + written_query(
        other.query,
    );
    lemma_marks_separate(
        one.method,
        TEXT_END,
        encode_utf8(one.host) + seq![TEXT_END] + one_path,
        other.method,
        TEXT_END,
        encode_utf8(other.host) + seq![TEXT_END] + other_path,
    );
    lemma_marks_separate(one.host, TEXT_END, one_path, other.host, TEXT_END, other_path);
    lemma_marks_separate(
        one.path,
        TEXT_END,
        written_query(one.query),
        other.path,
        TEXT_END,
        written_query(other.query),
    );
    let ends = |query: Option<Seq<char>>| match query {
        Some(query) => (query, TEXT_END),
        None => (Seq::empty(), NO_TEXT),
    };
    lemma_marks_separate(
        ends(one.query).0,
        ends(one.query).1,
        Seq::empty(),
        ends(other.query).0,
        ends(other.query).1,
        Seq::empty(),
    );
}

} // verus!
