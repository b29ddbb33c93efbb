//! The laws of reading text.
use crate::text::{
    all_digits, as_text, bounded, lower_case, mentions, number_in, spelled, stands_at,
    unsigned_part,
};
use vstd::prelude::*;

verus! {

/// The character for a digit from 0 to 9.
pub open spec fn digit(value: int) -> char {
    ('0' as int + value) as char
}

/// A number as it is written in decimal.
pub open spec fn decimal(number: nat) -> Seq<char>
    decreases number,
{
    if number < 10 {
        seq![digit(number as int)]
    } else {
        decimal(number / 10).push(digit((number % 10) as int))
    }
}

/// The character stands for this one of a word in lower case: it is the same, and
/// no capital letter, or it is the capital letter that goes with it.
pub open spec fn stands_for(c: char, letter: char) -> bool {
    if 'A' <= c <= 'Z' {
        c as int - 'A' as int == letter as int - 'a' as int
    } else {
        c == letter
    }
}

/// These characters are the word, in small or capital letters.
pub open spec fn spells(chars: Seq<char>, word: Seq<char>) -> bool {
    &&& chars.len() == word.len()
    &&& forall|i: int| 0 <= i < word.len() ==> stands_for(chars[i], #[trigger] word[i])
}

/// Bytes are read as the characters of the same numbers, one for each.
pub proof fn law_bytes_are_read_one_by_one(bytes: Seq<u8>, i: int)
    requires
        0 <= i < bytes.len(),
    ensures
        as_text(bytes).len() == bytes.len(),
        as_text(bytes)[i] as int == bytes[i] as int,
{
}

/// A single digit is a number, with or without a plus sign.
pub proof fn law_digit_is_a_number(value: int)
    requires
        0 <= value <= 9,
    ensures
        number_in(seq![digit(value)]) == Some(value),
        number_in(seq!['+', digit(value)]) == Some(value),
{
    let one = seq![digit(value)];
    reveal_with_fuel(spelled, 2);
    assert(unsigned_part(one) =~= one);
    assert(unsigned_part(seq!['+', digit(value)]) =~= one);
    assert(one.drop_last() =~= Seq::<char>::empty());
}

/// A digit behind a number makes it ten times as large, and adds its own value.
pub proof fn law_digit_extends_a_number(text: Seq<char>, value: int)
    requires
        number_in(text) is Some,
        0 <= value <= 9,
    ensures
        number_in(text.push(digit(value))) == Some(10 * number_in(text)->0 + value),
{
    let digits = unsigned_part(text);
    let longer = text.push(digit(value));
    assert(unsigned_part(longer) =~= digits.push(digit(value)));
    assert(digits.push(digit(value)).drop_last() =~= digits);
    assert(all_digits(digits.push(digit(value))));
}

/// Every number is read as it is written in decimal.
pub proof fn law_decimal_is_read(number: nat)
    ensures
        number_in(decimal(number)) == Some(number as int),
        number_in(seq!['+'] + decimal(number)) == Some(number as int),
    decreases number,
{
    if number < 10 {
        law_digit_is_a_number(number as int);
        assert(seq!['+'] + decimal(number) =~= seq!['+', digit(number as int)]);
    } else {
        let last = (number % 10) as int;
        law_decimal_is_read(number / 10);
        law_digit_extends_a_number(decimal(number / 10), last);
        law_digit_extends_a_number(seq!['+'] + decimal(number / 10), last);
        assert((seq!['+'] + decimal(number / 10)).push(digit(last)) =~= seq!['+'] + decimal(
            number,
        ));
    }
}

/// A text in which there is anything but digits, or a plus sign anywhere but in
/// front, is no number, nor is one without a digit.
pub proof fn law_other_text_is_no_number(text: Seq<char>, i: int)
    requires
        text.len() == 0 || text == seq!['+'] || (0 <= i < text.len() && !('0' <= text[i] <= '9')
            && (i > 0 || text[i] != '+')),
    ensures
        number_in(text) is None,
{
    let digits = unsigned_part(text);
    if text.len() > 0 && text[0] == '+' {
        assert(digits =~= text.skip(1));
        if text != seq!['+'] {
            assert(digits[i - 1] == text[i]);
        }
    } else if text.len() > 0 {
        assert(digits == text);
        assert(digits[i] == text[i]);
    }
}

/// Only what a `usize` cannot hold is cut down to what it can.
pub proof fn law_numbers_are_cut_at_the_largest(number: int)
    ensures
        number <= usize::MAX ==> bounded(number) == number,
        number > usize::MAX ==> bounded(number) == usize::MAX,
{
}

/// A word is found wherever it stands, in small or capital letters, whatever is
/// before it and behind it.
pub proof fn law_word_is_found(
    before: Seq<char>,
    middle: Seq<char>,
    behind: Seq<char>,
    word: Seq<char>,
)
    requires
        spells(middle, word),
    ensures
        mentions(before + middle + behind, word),
{
    let text = before + middle + behind;
    let at = before.len() as int;
    assert forall|i: int| 0 <= i < word.len() implies lower_case(text[at + i])
        == #[trigger] word[i] by {
        assert(text[at + i] == middle[i]);
        assert(stands_for(middle[i], word[i]));
    }
    assert(stands_at(text, word, at));
}

/// A word is found only in a text in which it stands.
pub proof fn law_found_word_is_there(text: Seq<char>, word: Seq<char>) -> (at: int)
    requires
        mentions(text, word),
    ensures
        0 <= at <= text.len() - word.len(),
        spells(text.subrange(at, at + word.len()), word),
{
    let at = choose|at: int| stands_at(text, word, at);
    let chars = text.subrange(at, at + word.len());
    assert forall|i: int| 0 <= i < word.len() implies stands_for(chars[i], #[trigger] word[i]) by {
        assert(chars[i] == text[at + i]);
        assert(lower_case(text[at + i]) == word[i]);
    }
    at
}

} // verus!
