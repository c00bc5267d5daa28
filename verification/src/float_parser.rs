//! Float literals: a number with a fraction part, an exponent part or both.
//! The literal's text is kept as it stands.

use crate::integer_parser::{after_minus, lemma_uint_is_digits, spec_uint, uint_at};
use crate::node::{Node, NodeView};
use crate::utils::{
    ParseFailure,
    CharClass,
    answers,
    answers_at,
    char_at,
    from_start,
    has_char,
    lemma_run_is_maximal,
    lemma_run_len_within,
    matched_from_start,
    recognized,
    run_len,
    same_end,
    skip_run,
    text_between,
    to_chars,
};
use vstd::prelude::*;

verus! {

/// The end of the fraction part at `i`: a decimal point and one or more digits.
pub open spec fn spec_frac(s: Seq<char>, i: int) -> Option<int> {
    if has_char(s, i, '.') && run_len(s, i + 1, CharClass::Digit) > 0 {
        Some(i + 1 + run_len(s, i + 1, CharClass::Digit))
    } else {
        None
    }
}

/// The position behind an optional plus or minus sign at `i`.
pub open spec fn after_sign(s: Seq<char>, i: int) -> int {
    if has_char(s, i, '-') || has_char(s, i, '+') {
        i + 1
    } else {
        i
    }
}

/// The end of the exponent part at `i`: `e` or `E`, an optional sign and one
/// or more digits.
pub open spec fn spec_exp(s: Seq<char>, i: int) -> Option<int> {
    let digits = after_sign(s, i + 1);
    if (has_char(s, i, 'e') || has_char(s, i, 'E')) && run_len(s, digits, CharClass::Digit) > 0 {
        Some(digits + run_len(s, digits, CharClass::Digit))
    } else {
        None
    }
}

/// The end of the part that makes a number a float, at `i`: a fraction part
/// with an optional exponent part behind it, or an exponent part alone.
pub open spec fn spec_frac_or_exp(s: Seq<char>, i: int) -> Option<int> {
    match spec_frac(s, i) {
        Some(f) => match spec_exp(s, f) {
            Some(e) => Some(e),
            None => Some(f),
        },
        None => spec_exp(s, i),
    }
}

/// The end of the float literal at `i`: an optional minus sign, an unsigned
/// integer body, and a fraction part, an exponent part or both.
pub open spec fn spec_float_body(s: Seq<char>, i: int) -> Option<int> {
    match spec_uint(s, after_minus(s, i)) {
        Some(u) => spec_frac_or_exp(s, u),
        None => None,
    }
}

/// The float rule at `i`: a soft failure where no float literal stands, and
/// the literal's text otherwise. It never fails hard.
pub open spec fn spec_json_float(s: Seq<char>, i: int) -> Result<(int, NodeView), ParseFailure> {
    match spec_float_body(s, i) {
        Some(end) => Ok((end, NodeView::Float(s.subrange(i, end)))),
        None => Err(ParseFailure::Soft),
    }
}

/// Matches a fraction part at `i`.
pub fn frac_at(chars: &[char], i: usize) -> (end: Option<usize>)
    ensures
        same_end(end, spec_frac(chars@, i as int)),
        end matches Some(e) ==> i < e <= chars.len(),
{
    if !char_at(chars, i, '.') {
        return None;
    }
    let end = skip_run(chars, i + 1, CharClass::Digit);
    if end > i + 1 {
        Some(end)
    } else {
        None
    }
}

/// Matches an exponent part at `i`.
pub fn exp_at(chars: &[char], i: usize) -> (end: Option<usize>)
    ensures
        same_end(end, spec_exp(chars@, i as int)),
        end matches Some(e) ==> i < e <= chars.len(),
{
    if !(char_at(chars, i, 'e') || char_at(chars, i, 'E')) {
        return None;
    }
    let digits: usize = if char_at(chars, i + 1, '-') || char_at(chars, i + 1, '+') {
        i + 2
    } else {
        i + 1
    };
    let end = skip_run(chars, digits, CharClass::Digit);
    if end > digits {
        Some(end)
    } else {
        None
    }
}

/// Matches a float literal at `i`.
pub fn float_body_at(chars: &[char], i: usize) -> (end: Option<usize>)
    ensures
        same_end(end, spec_float_body(chars@, i as int)),
        end matches Some(e) ==> i < e <= chars.len(),
{
    let digits: usize = if char_at(chars, i, '-') {
        i + 1
    } else {
        i
    };
    let u = match uint_at(chars, digits) {
        Some(u) => u,
        None => {
            return None;
        },
    };
    match frac_at(chars, u) {
        Some(f) => match exp_at(chars, f) {
            Some(e) => Some(e),
            None => Some(f),
        },
        None => exp_at(chars, u),
    }
}

/// Applies the float rule at `i`.
pub fn json_float_at(chars: &[char], i: usize) -> (r: Result<(usize, Node), ParseFailure>)
    ensures
        answers_at(r, spec_json_float(chars@, i as int)),
        r matches Ok((end, _)) ==> i < end <= chars.len(),
{
    match float_body_at(chars, i) {
        Some(end) => Ok((end, Node::Float(text_between(chars, i, end)))),
        None => Err(ParseFailure::Soft),
    }
}

/// Matches a fraction part at the start of `input` and returns the text that
/// is left over and the matched text.
pub fn frac(input: &str) -> (r: Result<(&str, &str), ParseFailure>)
    ensures
        answers(r, input@, recognized(input@, 0, spec_frac(input@, 0))),
{
    let chars = to_chars(input);
    matched_from_start(input, chars.len(), frac_at(chars.as_slice(), 0))
}

/// Matches an exponent part at the start of `input` and returns the text that
/// is left over and the matched text.
pub fn exp(input: &str) -> (r: Result<(&str, &str), ParseFailure>)
    ensures
        answers(r, input@, recognized(input@, 0, spec_exp(input@, 0))),
{
    let chars = to_chars(input);
    matched_from_start(input, chars.len(), exp_at(chars.as_slice(), 0))
}

/// Matches a float literal at the start of `input` and returns the text that
/// is left over and the matched text.
pub fn float_body(input: &str) -> (r: Result<(&str, &str), ParseFailure>)
    ensures
        answers(r, input@, recognized(input@, 0, spec_float_body(input@, 0))),
{
    let chars = to_chars(input);
    matched_from_start(input, chars.len(), float_body_at(chars.as_slice(), 0))
}

/// Applies the float rule at the start of `input`.
pub fn json_float(input: &str) -> (r: Result<(&str, Node), ParseFailure>)
    ensures
        answers(r, input@, spec_json_float(input@, 0)),
{
    let chars = to_chars(input);
    from_start(input, chars.len(), json_float_at(chars.as_slice(), 0))
}

/// A fraction part, where one stands at `i`, is not empty and lies inside the
/// text.
pub proof fn lemma_frac_bounds(s: Seq<char>, i: int)
    ensures
        spec_frac(s, i) matches Some(end) ==> 0 <= i < end <= s.len(),
{
    if spec_frac(s, i) is Some {
        lemma_run_is_maximal(s, i + 1, CharClass::Digit);
    }
}

/// An exponent part, where one stands at `i`, is not empty and lies inside the
/// text.
pub proof fn lemma_exp_bounds(s: Seq<char>, i: int)
    ensures
        spec_exp(s, i) matches Some(end) ==> 0 <= i < end <= s.len(),
{
    if spec_exp(s, i) is Some {
        lemma_run_is_maximal(s, after_sign(s, i + 1), CharClass::Digit);
    }
}

/// A float literal, where one stands at `i`, is not empty and lies inside the
/// text.
pub proof fn lemma_float_body_bounds(s: Seq<char>, i: int)
    ensures
        spec_float_body(s, i) matches Some(end) ==> 0 <= i < end <= s.len(),
{
    if spec_float_body(s, i) is Some {
        let u = spec_uint(s, after_minus(s, i))->0;
        lemma_uint_is_digits(s, after_minus(s, i));
        lemma_frac_bounds(s, u);
        lemma_exp_bounds(s, u);
        if let Some(f) = spec_frac(s, u) {
            lemma_exp_bounds(s, f);
        }
    }
}

/// Whether `text` as a whole is a float literal.
pub open spec fn is_float_literal(text: Seq<char>) -> bool {
    spec_float_body(text, 0) == Some(text.len() as int)
}

/// The text that a float literal covers is, taken by itself, a float literal.
pub proof fn lemma_float_text_is_literal(s: Seq<char>, i: int)
    ensures
        spec_float_body(s, i) matches Some(end) ==> is_float_literal(s.subrange(i, end)),
{
    if let Some(end) = spec_float_body(s, i) {
        lemma_float_body_bounds(s, i);
        let text = s.subrange(i, end);
        let digits = after_minus(s, i);
        let u = spec_uint(s, digits)->0;
        lemma_uint_is_digits(s, digits);
        lemma_frac_bounds(s, u);
        lemma_exp_bounds(s, u);
        assert(after_minus(text, 0) == digits - i);
        if !has_char(s, digits, '0') {
            lemma_run_len_within(s, i, end, digits + 1, CharClass::Digit);
        }
        assert(spec_uint(text, digits - i) == Some(u - i));
        lemma_part_within(s, i, end, u);
        if let Some(f) = spec_frac(s, u) {
            lemma_exp_bounds(s, f);
            lemma_part_within(s, i, end, f);
        }
    }
}

/// Inside a part of the text that ends at `to`, a fraction part or an exponent
/// part that ends at or before `to` stands as it does in the whole text, and
/// where none stands in the whole text none stands in the part.
pub proof fn lemma_part_within(s: Seq<char>, from: int, to: int, k: int)
    requires
        0 <= from <= k <= to <= s.len(),
    ensures
        match spec_frac(s, k) {
            Some(end) => end <= to ==> spec_frac(s.subrange(from, to), k - from) == Some(
                end - from,
            ),
            None => spec_frac(s.subrange(from, to), k - from) is None,
        },
        match spec_exp(s, k) {
            Some(end) => end <= to ==> spec_exp(s.subrange(from, to), k - from) == Some(
                end - from,
            ),
            None => spec_exp(s.subrange(from, to), k - from) is None,
        },
{
    let text = s.subrange(from, to);
    if k < to {
        if k + 1 <= to {
            lemma_run_len_within(s, from, to, k + 1, CharClass::Digit);
        }
        let digits = after_sign(s, k + 1);
        if digits <= to {
            lemma_run_len_within(s, from, to, digits, CharClass::Digit);
            assert(after_sign(text, k + 1 - from) == digits - from);
        } else {
            assert(k + 1 == to);
            assert(after_sign(text, k + 1 - from) == k + 1 - from);
        }
    }
}

} // verus!
