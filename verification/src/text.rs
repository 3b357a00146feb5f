//! Text helpers: decoding bytes, trimming, replacing and comparing.
//!
//! Strings are seen through their view, the sequence of their characters.

use vstd::prelude::*;
use vstd::string::*;
use vstd::utf8::*;

verus! {

/// The text that `String::from_utf8_lossy` makes of `bytes`.
pub uninterp spec fn lossy_text(bytes: Seq<u8>) -> Seq<char>;

/// Decodes `bytes` as UTF-8 with `String::from_utf8_lossy`, which puts
/// U+FFFD in place of what is not valid UTF-8. Bytes that are valid UTF-8
/// come back as the text they encode.
#[verifier::external_body]
pub(crate) fn decode_lossy(bytes: &[u8]) -> (text: String)
    ensures
        text@ == lossy_text(bytes@),
        valid_utf8(bytes@) ==> text@ == decode_utf8(bytes@),
{
    String::from_utf8_lossy(bytes).into_owned()
}

/// Whether `char::is_whitespace` holds of `c`: whether `c` has the Unicode
/// property White_Space.
pub uninterp spec fn is_white_space(c: char) -> bool;

/// `char::is_whitespace` tells whether the character has the property
/// White_Space.
pub assume_specification[ char::is_whitespace ](c: char) -> (white: bool)
    ensures
        white == is_white_space(c),
;

/// `String::push` appends one character.
pub assume_specification[ String::push ](text: &mut String, c: char)
    ensures
        final(text)@ == old(text)@.push(c),
;

/// The characters of `text`, in a vector.
pub fn chars_of(text: &str) -> (chars: Vec<char>)
    ensures
        chars@ == text@,
{
    let mut chars: Vec<char> = Vec::new();
    for c in it: text.chars()
        invariant
            chars@ == it.seq().take(it.index() as int),
    {
        chars.push(c);
    }
    chars
}

/// `text` without the white space at its start.
pub open spec fn trim_start(text: Seq<char>) -> Seq<char>
    decreases text.len(),
{
    if text.len() > 0 && is_white_space(text.first()) {
        trim_start(text.drop_first())
    } else {
        text
    }
}

/// `text` without the white space at its end.
pub open spec fn trim_end(text: Seq<char>) -> Seq<char>
    decreases text.len(),
{
    if text.len() > 0 && is_white_space(text.last()) {
        trim_end(text.drop_last())
    } else {
        text
    }
}

/// `text` without the white space at its start and at its end.
pub open spec fn trimmed(text: Seq<char>) -> Seq<char> {
    trim_end(trim_start(text))
}

/// Where the first `start` characters are white space and the next one is
/// not, trimming the start drops exactly those.
pub proof fn lemma_trim_start(text: Seq<char>, start: int)
    requires
        0 <= start <= text.len(),
        forall|i: int| 0 <= i < start ==> is_white_space(text[i]),
        start < text.len() ==> !is_white_space(text[start]),
    ensures
        trim_start(text) == text.skip(start),
    decreases start,
{
    if start == 0 {
        assert(text.skip(0) =~= text);
    } else {
        lemma_trim_start(text.drop_first(), start - 1);
        assert(text.drop_first().skip(start - 1) =~= text.skip(start));
    }
}

/// Where the characters from `end` on are white space and the one before
/// `end` is not, trimming the end drops exactly those.
pub proof fn lemma_trim_end(text: Seq<char>, end: int)
    requires
        0 <= end <= text.len(),
        forall|i: int| end <= i < text.len() ==> is_white_space(text[i]),
        0 < end ==> !is_white_space(text[end - 1]),
    ensures
        trim_end(text) == text.take(end),
    decreases text.len() - end,
{
    if end == text.len() {
        assert(text.take(end) =~= text);
    } else {
        lemma_trim_end(text.drop_last(), end);
        assert(text.drop_last().take(end) =~= text.take(end));
    }
}

/// Removes the white space at the start and at the end of `text`.
pub fn trim(text: &str) -> (result: String)
    ensures
        result@ == trimmed(text@),
{
    let chars = chars_of(text);
    let mut start: usize = 0;
    while start < chars.len() && chars[start].is_whitespace()
        invariant
            start <= chars.len(),
            forall|i: int| 0 <= i < start ==> is_white_space(chars@[i]),
        decreases chars.len() - start,
    {
        start += 1;
    }
    let mut end: usize = chars.len();
    while end > start && chars[end - 1].is_whitespace()
        invariant
            start <= end <= chars.len(),
            forall|i: int| end <= i < chars.len() ==> is_white_space(chars@[i]),
        decreases end,
    {
        end -= 1;
    }
    let mut result = String::new();
    let mut at: usize = start;
    while at < end
        invariant
            start <= at <= end <= chars.len(),
            result@ == chars@.subrange(start as int, at as int),
        decreases end - at,
    {
        result.push(chars[at]);
        at += 1;
        assert(chars@.subrange(start as int, at as int) =~= chars@.subrange(
            start as int,
            at - 1,
        ).push(chars@[at - 1]));
    }
    proof {
        let rest = chars@.skip(start as int);
        lemma_trim_start(chars@, start as int);
        assert forall|i: int| end - start <= i < rest.len() implies is_white_space(rest[i]) by {
            assert(rest[i] == chars@[start + i]);
        }
        lemma_trim_end(rest, end - start);
        assert(rest.take(end - start) =~= chars@.subrange(start as int, end as int));
    }
    result
}

/// `part` stands in `text` at index `at`, character for character.
pub open spec fn stands_at(text: Seq<char>, part: Seq<char>, at: int) -> bool {
    &&& 0 <= at
    &&& at + part.len() <= text.len()
    &&& text.subrange(at, at + part.len()) == part
}

/// Whether `part` stands in `text` at index `at`.
fn stands_at_index(text: &Vec<char>, part: &Vec<char>, at: usize) -> (found: bool)
    requires
        at <= text.len(),
    ensures
        found == stands_at(text@, part@, at as int),
{
    if part.len() > text.len() - at {
        return false;
    }
    let mut k: usize = 0;
    while k < part.len()
        invariant
            k <= part.len(),
            at + part.len() <= text.len(),
            forall|m: int| 0 <= m < k ==> text@[at + m] == part@[m],
        decreases part.len() - k,
    {
        if text[at + k] != part[k] {
            proof {
                let window = text@.subrange(at as int, at + part.len());
                assert(window[k as int] == text@[at + k]);
            }
            return false;
        }
        k += 1;
    }
    assert(text@.subrange(at as int, at + part.len()) =~= part@);
    true
}

/// Whether two texts are the same.
pub fn same_text(left: &str, right: &str) -> (same: bool)
    ensures
        same == (left@ == right@),
{
    let left_chars = chars_of(left);
    let right_chars = chars_of(right);
    if left_chars.len() != right_chars.len() {
        return false;
    }
    let same = stands_at_index(&left_chars, &right_chars, 0);
    assert(left@.subrange(0, left@.len() as int) =~= left@);
    same
}

/// `text` ends with `suffix`.
pub open spec fn has_suffix(text: Seq<char>, suffix: Seq<char>) -> bool {
    stands_at(text, suffix, text.len() - suffix.len())
}

/// Whether `text` ends with `suffix`.
pub fn ends_with(text: &str, suffix: &str) -> (ends: bool)
    ensures
        ends == has_suffix(text@, suffix@),
{
    let text_chars = chars_of(text);
    let suffix_chars = chars_of(suffix);
    if suffix_chars.len() > text_chars.len() {
        return false;
    }
    stands_at_index(&text_chars, &suffix_chars, text_chars.len() - suffix_chars.len())
}

/// `text` with `to` in place of every occurrence of `from`, found from left
/// to right; an occurrence that overlaps one already replaced does not
/// count. An empty `from` occurs nowhere.
pub open spec fn replaced(text: Seq<char>, from: Seq<char>, to: Seq<char>) -> Seq<char>
    decreases text.len(),
{
    if from.len() == 0 || text.len() == 0 {
        text
    } else if stands_at(text, from, 0) {
        to + replaced(text.skip(from.len() as int), from, to)
    } else {
        seq![text[0]] + replaced(text.skip(1), from, to)
    }
}

/// Replaces every occurrence of `from` in `text` by `to`.
pub fn replace_all(text: &str, from: &str, to: &str) -> (result: String)
    ensures
        result@ == replaced(text@, from@, to@),
{
    let source = chars_of(text);
    let pattern = chars_of(from);
    if pattern.len() == 0 {
        return text.to_owned();
    }
    let mut result = String::new();
    let mut at: usize = 0;
    assert(source@.skip(0) =~= source@);
    while at < source.len()
        invariant
            at <= source.len(),
            pattern@.len() > 0,
            pattern@ == from@,
            replaced(source@, pattern@, to@) == result@ + replaced(
                source@.skip(at as int),
                pattern@,
                to@,
            ),
        decreases source.len() - at,
    {
        let ghost rest = source@.skip(at as int);
        let ghost done = result@;
        if stands_at_index(&source, &pattern, at) {
            assert(stands_at(rest, pattern@, 0)) by {
                assert(rest.subrange(0, pattern@.len() as int) =~= source@.subrange(
                    at as int,
                    at + pattern@.len(),
                ));
            }
            result.append(to);
            at += pattern.len();
            assert(rest.skip(pattern@.len() as int) =~= source@.skip(at as int));
            assert(done + (to@ + replaced(source@.skip(at as int), pattern@, to@)) =~= (done + to@)
                + replaced(source@.skip(at as int), pattern@, to@));
        } else {
            assert(!stands_at(rest, pattern@, 0)) by {
                if at + pattern@.len() <= source@.len() {
                    assert(rest.subrange(0, pattern@.len() as int) =~= source@.subrange(
                        at as int,
                        at + pattern@.len(),
                    ));
                }
            }
            result.push(source[at]);
            at += 1;
            assert(rest.skip(1) =~= source@.skip(at as int));
            assert(done + (seq![rest[0]] + replaced(source@.skip(at as int), pattern@, to@))
                =~= done.push(rest[0]) + replaced(source@.skip(at as int), pattern@, to@));
        }
    }
    assert(result@ + Seq::<char>::empty() =~= result@);
    result
}

/// Whether `c` is one of the ten decimal digits.
pub open spec fn is_digit(c: char) -> bool {
    '0' <= c <= '9'
}

/// The number that a run of decimal digits stands for.
pub open spec fn decimal(digits: Seq<char>) -> nat
    decreases digits.len(),
{
    if digits.len() == 0 {
        0
    } else {
        10 * decimal(digits.drop_last()) + (digits.last() as nat - '0' as nat) as nat
    }
}

/// `text` without the plus sign that may stand in front of it.
pub open spec fn without_sign(text: Seq<char>) -> Seq<char> {
    if text.len() > 0 && text[0] == '+' {
        text.skip(1)
    } else {
        text
    }
}

/// The number written in `text`: decimal digits, at least one, with
/// nothing around them but a plus sign that may stand in front.
pub open spec fn written_number(text: Seq<char>) -> Option<nat> {
    let digits = without_sign(text);
    if digits.len() > 0 && (forall|i: int| 0 <= i < digits.len() ==> is_digit(digits[i])) {
        Some(decimal(digits))
    } else {
        None
    }
}

/// The number written in `text`, where it fits a `usize`.
pub open spec fn written_usize(text: Seq<char>) -> Option<usize> {
    match written_number(text) {
        Some(number) => if number <= usize::MAX {
            Some(number as usize)
        } else {
            None
        },
        None => None,
    }
}

/// More digits never make a smaller number.
pub proof fn lemma_decimal_grows(digits: Seq<char>, shorter: int)
    requires
        0 <= shorter <= digits.len(),
    ensures
        decimal(digits.take(shorter)) <= decimal(digits),
    decreases digits.len() - shorter,
{
    if shorter == digits.len() {
        assert(digits.take(shorter) =~= digits);
    } else {
        lemma_decimal_grows(digits.drop_last(), shorter);
        assert(digits.drop_last().take(shorter) =~= digits.take(shorter));
    }
}

/// Reads a count written in decimal digits, as `str::parse` reads a
/// `usize`: a plus sign may stand in front; anything else that is not a
/// digit, no digit at all, or a number too large for a `usize`, gives
/// `None`.
pub fn parse_usize(text: &str) -> (number: Option<usize>)
    ensures
        number == written_usize(text@),
{
    let chars = chars_of(text);
    let start: usize = if chars.len() > 0 && chars[0] == '+' {
        1
    } else {
        0
    };
    let ghost digits = without_sign(text@);
    assert(digits =~= chars@.skip(start as int));
    if chars.len() == start {
        return None;
    }
    let mut value: usize = 0;
    let mut at: usize = start;
    assert(digits.take(0) =~= Seq::<char>::empty());
    while at < chars.len()
        invariant
            start <= at <= chars.len(),
            start < chars.len(),
            digits == without_sign(text@),
            digits == chars@.skip(start as int),
            forall|i: int| 0 <= i < at - start ==> is_digit(digits[i]),
            value == decimal(digits.take(at - start)),
        decreases chars.len() - at,
    {
        let c = chars[at];
        assert(c == digits[at - start]);
        if c < '0' || c > '9' {
            assert(!is_digit(digits[at - start]));
            return None;
        }
        let digit: usize = (c as u32 - '0' as u32) as usize;
        proof {
            assert(digits.take(at - start + 1).drop_last() =~= digits.take(at - start));
            lemma_decimal_grows(digits, at - start + 1);
        }
        if value > (usize::MAX - digit) / 10 {
            return None;
        }
        value = value * 10 + digit;
        at += 1;
    }
    assert(digits.take(at - start) =~= digits);
    Some(value)
}

} // verus!
