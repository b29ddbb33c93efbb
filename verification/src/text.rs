//! Reading the text of header fields.
use vstd::prelude::*;

verus! {

/// The character in lower case, if it is an ASCII letter.
pub open spec fn lower_case(c: char) -> char {
    if 'A' <= c <= 'Z' {
        (c as u8 + 32) as char
    } else {
        c
    }
}

/// The word, in lower case, stands in the text at `at`, where letters may be of
/// either case.
pub open spec fn stands_at(text: Seq<char>, word: Seq<char>, at: int) -> bool {
    &&& 0 <= at <= text.len() - word.len()
    &&& forall|i: int| 0 <= i < word.len() ==> lower_case(text[at + i]) == #[trigger] word[i]
}

/// The word, in lower case, stands somewhere in the text, where letters may be of
/// either case.
pub open spec fn mentions(text: Seq<char>, word: Seq<char>) -> bool {
    exists|at: int| stands_at(text, word, at)
}

/// The bytes read as text, one character for each.
pub open spec fn as_text(bytes: Seq<u8>) -> Seq<char> {
    bytes.map_values(|byte: u8| byte as char)
}

/// All characters are decimal digits.
pub open spec fn all_digits(text: Seq<char>) -> bool {
    forall|i: int| 0 <= i < text.len() ==> '0' <= #[trigger] text[i] <= '9'
}

/// The number that these digits spell.
pub open spec fn spelled(digits: Seq<char>) -> int
    decreases digits.len(),
{
    if digits.len() == 0 {
        0
    } else {
        10 * spelled(digits.drop_last()) + (digits.last() as int - '0' as int)
    }
}

/// What is left of the text after a leading plus sign.
pub open spec fn unsigned_part(text: Seq<char>) -> Seq<char> {
    if text.len() > 0 && text[0] == '+' {
        text.skip(1)
    } else {
        text
    }
}

/// The number in the text, which is one or more digits that may follow a plus
/// sign.
pub open spec fn number_in(text: Seq<char>) -> Option<int> {
    let digits = unsigned_part(text);
    if digits.len() > 0 && all_digits(digits) {
        Some(spelled(digits))
    } else {
        None
    }
}

/// The number, or the largest `usize` if it is larger than that.
pub open spec fn bounded(number: int) -> int {
    if number <= usize::MAX {
        number
    } else {
        usize::MAX as int
    }
}

/// The characters of the text.
fn characters(text: &str) -> (chars: Vec<char>)
    ensures
        chars@ == text@,
{
    let mut chars: Vec<char> = Vec::new();
    for c in iter: text.chars()
        invariant
            chars@ == iter.seq().take(iter.index()),
            iter.seq() == text@,
    {
        chars.push(c);
    }
    chars
}

/// The bytes read as text, one character for each.
fn characters_of(bytes: &[u8]) -> (chars: Vec<char>)
    ensures
        chars@ == as_text(bytes@),
{
    let mut chars: Vec<char> = Vec::new();
    let mut i: usize = 0;
    while i < bytes.len()
        invariant
            i <= bytes@.len(),
            chars@ == as_text(bytes@.take(i as int)),
        decreases bytes@.len() - i,
    {
        chars.push(bytes[i] as char);
        assert(chars@ =~= as_text(bytes@.take(i + 1)));
        i += 1;
    }
    assert(bytes@.take(i as int) =~= bytes@);
    chars
}

/// Whether the two texts are the same.
pub fn same_text(one: &str, other: &str) -> (same: bool)
    ensures
        same == (one@ == other@),
{
    one.to_owned() == other.to_owned()
}

/// The character in lower case, if it is an ASCII letter.
fn to_lower_case(c: char) -> (lower: char)
    ensures
        lower == lower_case(c),
{
    if 'A' <= c && c <= 'Z' {
        (c as u8 + 32) as char
    } else {
        c
    }
}

/// Whether the word, in lower case, stands in the bytes, read as text, where
/// letters may be of either case.
pub fn is_mentioned(bytes: &[u8], word: &str) -> (found: bool)
    ensures
        found == mentions(as_text(bytes@), word@),
{
    let text_chars: Vec<char> = characters_of(bytes);
    let ghost text = text_chars@;
    let word_chars: Vec<char> = characters(word);
    let mut at: usize = 0;
    while word_chars.len() <= text_chars.len() - at
        invariant
            text_chars@ == text,
            text == as_text(bytes@),
            word_chars@ == word@,
            at <= text_chars.len(),
            forall|earlier: int| 0 <= earlier < at ==> !stands_at(text, word@, earlier),
        decreases text_chars.len() - at,
    {
        let mut i: usize = 0;
        while i < word_chars.len() && to_lower_case(text_chars[at + i]) == word_chars[i]
            invariant
                text_chars@ == text,
                word_chars@ == word@,
                i <= word_chars.len() <= text_chars.len() - at,
                forall|j: int| 0 <= j < i ==> lower_case(text[at + j]) == #[trigger] word@[j],
            decreases word_chars.len() - i,
        {
            i += 1;
        }
        if i == word_chars.len() {
            assert(stands_at(text, word@, at as int));
            return true;
        }
        assert(lower_case(text[at + i]) != word@[i as int]);
        at += 1;
    }
    false
}

/// The number in the text, if there is one; `usize::MAX` for any that is larger.
#[verifier::rlimit(30)]
#[verifier::spinoff_prover]
pub fn parse_number(text: &str) -> (number: Option<usize>)
    ensures
        match number {
            Some(number) => number_in(text@) matches Some(exact) && number == bounded(exact),
            None => number_in(text@) is None,
        },
{
    let chars: Vec<char> = characters(text);
    let start: usize = if chars.len() > 0 && chars[0] == '+' {
        1
    } else {
        0
    };
    let ghost digits = unsigned_part(text@);
    if start == chars.len() {
        return None;
    }
    let mut value: usize = 0;
    let mut i: usize = start;
    while i < chars.len()
        invariant
            chars@ == text@,
            digits == unsigned_part(text@),
            digits == chars@.skip(start as int),
            start <= i <= chars.len(),
            start < chars.len(),
            all_digits(digits.take(i - start)),
            value == bounded(spelled(digits.take(i - start))),
        decreases chars.len() - i,
    {
        let c = chars[i];
        assert(digits[i - start] == c);
        if c < '0' || c > '9' {
            return None;
        }
        let digit: usize = (c as u8 - 48) as usize;
        assert(digits.take(i + 1 - start).drop_last() =~= digits.take(i - start));
        assert(digits.take(i + 1 - start).last() == c);
        assert(spelled(digits.take(i + 1 - start)) == 10 * spelled(digits.take(i - start)) + digit);
        assert forall|j: int| 0 <= j < i + 1 - start implies '0' <= #[trigger] digits.take(
            i + 1 - start,
        )[j] <= '9' by {
            if j < i - start {
                assert(digits.take(i - start)[j] == digits[j]);
            }
        }
        value = if value > (usize::MAX - digit) / 10 {
            usize::MAX
        } else {
            10 * value + digit
        };
        i += 1;
    }
    assert(digits.take(i - start) =~= digits);
    Some(value)
}

} // verus!
