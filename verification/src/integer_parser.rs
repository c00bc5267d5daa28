//! Integer literals: an optional minus sign and an unsigned body without
//! leading zeros, converted to 64 signed bits.

use crate::node::{Node, NodeView};
use crate::utils::{
    JSONParseError,
    ParseFailure,
    CharClass,
    answers,
    answers_at,
    char_at,
    from_start,
    has_char,
    is_digit,
    lemma_run_is_maximal,
    matched_from_start,
    recognized,
    run_len,
    same_end,
    skip_run,
    to_chars,
};
use vstd::prelude::*;

verus! {

/// The digit that stands at `i`, where it is one of `1` to `9`.
pub open spec fn spec_digit1to9(s: Seq<char>, i: int) -> Option<(int, char)> {
    if 0 <= i < s.len() && '1' <= s[i] <= '9' {
        Some((i + 1, s[i]))
    } else {
        None
    }
}

/// The end of the unsigned integer body at `i`: a single `0`, or a digit from
/// `1` to `9` followed by the longest run of digits.
pub open spec fn spec_uint(s: Seq<char>, i: int) -> Option<int> {
    if has_char(s, i, '0') {
        Some(i + 1)
    } else if spec_digit1to9(s, i) is Some {
        Some(i + 1 + run_len(s, i + 1, CharClass::Digit))
    } else {
        None
    }
}

/// The position behind an optional minus sign at `i`.
pub open spec fn after_minus(s: Seq<char>, i: int) -> int {
    if has_char(s, i, '-') {
        i + 1
    } else {
        i
    }
}

/// The end of the integer literal at `i`: an optional minus sign and an
/// unsigned body.
pub open spec fn spec_integer_body(s: Seq<char>, i: int) -> Option<int> {
    spec_uint(s, after_minus(s, i))
}

/// The number that a decimal digit stands for.
pub open spec fn digit_value(c: char) -> int {
    c as int - '0' as int
}

/// The number that a sequence of decimal digits denotes.
pub open spec fn decimal_value(digits: Seq<char>) -> int
    decreases digits.len(),
{
    if digits.len() == 0 {
        0
    } else {
        10 * decimal_value(digits.drop_last()) + digit_value(digits.last())
    }
}

/// The number that an integer literal denotes.
pub open spec fn integer_value(text: Seq<char>) -> int {
    if has_char(text, 0, '-') {
        -decimal_value(text.skip(1))
    } else {
        decimal_value(text)
    }
}

/// The integer rule at `i`: a soft failure where no integer literal stands, a
/// hard failure where the literal's number does not fit in 64 signed bits, and
/// the number otherwise.
pub open spec fn spec_json_integer(s: Seq<char>, i: int) -> Result<(int, NodeView), ParseFailure> {
    match spec_integer_body(s, i) {
        None => Err(ParseFailure::Soft),
        Some(end) => {
            let value = integer_value(s.subrange(i, end));
            if i64::MIN <= value <= i64::MAX {
                Ok((end, NodeView::Integer(value as i64)))
            } else {
                Err(ParseFailure::Hard(JSONParseError::BadInt))
            }
        },
    }
}

/// Whether every character from `from` up to `to` is a digit.
pub open spec fn all_digits(s: Seq<char>, from: int, to: int) -> bool {
    forall|k: int| from <= k < to ==> is_digit(#[trigger] s[k])
}

/// An unsigned body lies inside the text, is not empty and holds digits only.
pub proof fn lemma_uint_is_digits(s: Seq<char>, i: int)
    requires
        spec_uint(s, i) is Some,
    ensures
        0 <= i < spec_uint(s, i)->0 <= s.len(),
        all_digits(s, i, spec_uint(s, i)->0),
{
    if !has_char(s, i, '0') {
        lemma_run_is_maximal(s, i + 1, CharClass::Digit);
    }
}

/// The number of a digit sequence is not negative, and no prefix of the
/// sequence denotes a larger number.
pub proof fn lemma_decimal_value_grows(digits: Seq<char>, k: int)
    requires
        all_digits(digits, 0, digits.len() as int),
        0 <= k <= digits.len(),
    ensures
        0 <= decimal_value(digits.take(k)) <= decimal_value(digits),
    decreases digits.len(),
{
    if k == digits.len() {
        assert(digits.take(k) == digits);
        if digits.len() > 0 {
            lemma_decimal_value_grows(digits.drop_last(), k - 1);
        }
    } else {
        lemma_decimal_value_grows(digits.drop_last(), k);
        assert(digits.drop_last().take(k) == digits.take(k));
    }
}

/// The least number whose tenfold still fits in 64 signed bits.
pub const MIN_TENTH: i64 = -922_337_203_685_477_580;

/// Converts the digits from `from` up to `to`, with the sign that `negative`
/// gives, to 64 signed bits; `None` where the number does not fit.
pub(crate) fn digits_to_i64(chars: &[char], from: usize, to: usize, negative: bool) -> (value:
    Option<i64>)
    requires
        from <= to <= chars.len(),
        all_digits(chars@, from as int, to as int),
    ensures
        ({
            let number = decimal_value(chars@.subrange(from as int, to as int));
            let signed = if negative {
                -number
            } else {
                number
            };
            match value {
                Some(v) => v == signed,
                None => !(i64::MIN <= signed <= i64::MAX),
            }
        }),
{
    let ghost digits = chars@.subrange(from as int, to as int);
    // The number is collected as its negative, which has room for one more
    // value than the positive side.
    let mut acc: i64 = 0;
    let mut pos: usize = from;
    while pos < to
        invariant
            from <= pos <= to <= chars.len(),
            all_digits(chars@, from as int, to as int),
            digits == chars@.subrange(from as int, to as int),
            acc == -decimal_value(digits.take(pos - from)),
        decreases to - pos,
    {
        let c = chars[pos];
        let digit: i64 = (c as u32 - '0' as u32) as i64;
        proof {
            assert(is_digit(chars@[pos as int]));
            assert(digit == digit_value(c));
            let longer = digits.take(pos - from + 1);
            assert(longer.drop_last() == digits.take(pos - from));
            assert(longer.last() == c);
            assert(decimal_value(longer) == 10 * decimal_value(digits.take(pos - from)) + digit);
            assert(all_digits(digits, 0, digits.len() as int));
            lemma_decimal_value_grows(digits, pos - from + 1);
            assert(digits.take(digits.len() as int) == digits);
        }
        if acc < MIN_TENTH {
            return None;
        }
        let tenfold: i64 = acc * 10;
        if tenfold < i64::MIN + digit {
            return None;
        }
        acc = tenfold - digit;
        pos += 1;
    }
    proof {
        assert(digits.take(to - from) == digits);
    }
    if negative {
        Some(acc)
    } else if acc == i64::MIN {
        None
    } else {
        Some(-acc)
    }
}

/// Matches one digit from `1` to `9` at `i`.
pub fn digit1to9_at(chars: &[char], i: usize) -> (r: Option<(usize, char)>)
    ensures
        match r {
            Some((end, c)) => spec_digit1to9(chars@, i as int) == Some((end as int, c)),
            None => spec_digit1to9(chars@, i as int) is None,
        },
{
    if i < chars.len() && '1' <= chars[i] && chars[i] <= '9' {
        Some((i + 1, chars[i]))
    } else {
        None
    }
}

/// Matches an unsigned integer body at `i`.
pub fn uint_at(chars: &[char], i: usize) -> (end: Option<usize>)
    ensures
        same_end(end, spec_uint(chars@, i as int)),
        end matches Some(e) ==> i < e <= chars.len(),
{
    if char_at(chars, i, '0') {
        Some(i + 1)
    } else {
        match digit1to9_at(chars, i) {
            Some((next, _)) => Some(skip_run(chars, next, CharClass::Digit)),
            None => None,
        }
    }
}

/// Matches an integer literal at `i`.
pub fn integer_body_at(chars: &[char], i: usize) -> (end: Option<usize>)
    ensures
        same_end(end, spec_integer_body(chars@, i as int)),
        end matches Some(e) ==> i < e <= chars.len(),
{
    if char_at(chars, i, '-') {
        uint_at(chars, i + 1)
    } else {
        uint_at(chars, i)
    }
}

/// Applies the integer rule at `i`.
pub fn json_integer_at(chars: &[char], i: usize) -> (r: Result<(usize, Node), ParseFailure>)
    ensures
        answers_at(r, spec_json_integer(chars@, i as int)),
        r matches Ok((end, _)) ==> i < end <= chars.len(),
{
    match integer_body_at(chars, i) {
        None => Err(ParseFailure::Soft),
        Some(end) => {
            let negative = char_at(chars, i, '-');
            let from: usize = if negative {
                i + 1
            } else {
                i
            };
            proof {
                let text = chars@.subrange(i as int, end as int);
                lemma_uint_is_digits(chars@, from as int);
                assert(has_char(text, 0, '-') == negative);
                if negative {
                    assert(text.skip(1) == chars@.subrange(from as int, end as int));
                }
            }
            match digits_to_i64(chars, from, end, negative) {
                Some(value) => Ok((end, Node::Integer(value))),
                None => Err(ParseFailure::Hard(JSONParseError::BadInt)),
            }
        },
    }
}

/// Matches one digit from `1` to `9` at the start of `input`.
pub fn digit1to9(input: &str) -> (r: Result<(&str, char), ParseFailure>)
    ensures
        match spec_digit1to9(input@, 0) {
            Some((end, c)) => r matches Ok((rest, d)) && rest@ == input@.skip(end) && d == c,
            None => r matches Err(f) && f == ParseFailure::Soft,
        },
{
    let chars = to_chars(input);
    let found = match digit1to9_at(chars.as_slice(), 0) {
        Some((end, c)) => Ok((end, c)),
        None => Err(ParseFailure::Soft),
    };
    from_start(input, chars.len(), found)
}

/// Matches an unsigned integer body at the start of `input` and returns the
/// text that is left over and the matched text.
pub fn uint(input: &str) -> (r: Result<(&str, &str), ParseFailure>)
    ensures
        answers(r, input@, recognized(input@, 0, spec_uint(input@, 0))),
{
    let chars = to_chars(input);
    matched_from_start(input, chars.len(), uint_at(chars.as_slice(), 0))
}

/// Matches an integer literal at the start of `input` and returns the text
/// that is left over and the matched text.
pub fn integer_body(input: &str) -> (r: Result<(&str, &str), ParseFailure>)
    ensures
        answers(r, input@, recognized(input@, 0, spec_integer_body(input@, 0))),
{
    let chars = to_chars(input);
    matched_from_start(input, chars.len(), integer_body_at(chars.as_slice(), 0))
}

/// Applies the integer rule at the start of `input`.
pub fn json_integer(input: &str) -> (r: Result<(&str, Node), ParseFailure>)
    ensures
        answers(r, input@, spec_json_integer(input@, 0)),
{
    let chars = to_chars(input);
    from_start(input, chars.len(), json_integer_at(chars.as_slice(), 0))
}

/// An integer literal, where one stands at `i`, is not empty and lies inside
/// the text.
pub proof fn lemma_integer_body_bounds(s: Seq<char>, i: int)
    ensures
        spec_integer_body(s, i) matches Some(end) ==> 0 <= i < end <= s.len(),
{
    if spec_integer_body(s, i) is Some {
        lemma_uint_is_digits(s, after_minus(s, i));
    }
}

/// The text that an integer literal covers is, taken by itself, an integer
/// literal.
pub proof fn lemma_integer_text_is_literal(s: Seq<char>, i: int)
    ensures
        spec_integer_body(s, i) matches Some(end) ==> spec_integer_body(s.subrange(i, end), 0)
            == Some(end - i),
{
    if let Some(end) = spec_integer_body(s, i) {
        lemma_integer_body_bounds(s, i);
        let text = s.subrange(i, end);
        let digits = after_minus(s, i);
        lemma_uint_is_digits(s, digits);
        assert(after_minus(text, 0) == digits - i);
        if !has_char(s, digits, '0') {
            crate::utils::lemma_run_len_within(s, i, end, digits + 1, CharClass::Digit);
        }
    }
}

} // verus!
