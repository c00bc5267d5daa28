//! String literals: quoted text whose escape sequences are decoded once the
//! closing quotation mark has been found.

use crate::node::{Node, NodeView};
use crate::utils::{
    JSONParseError,
    ParseFailure,
    CharClass,
    answers,
    answers_at,
    char_at,
    escape_code_at,
    from_start,
    has_char,
    is_escape_letter,
    is_plain,
    lemma_run_is_maximal,
    matched_from_start,
    recognized,
    run_len,
    same_end,
    skip_run,
    spec_escape_code,
    text_between,
    to_chars,
};
use vstd::prelude::*;

verus! {

/// Tests whether `c` may stand in a string without being escaped: its code
/// point is at least 0x20, and it is neither a quotation mark nor a backslash.
pub fn is_nonescaped_string_char(c: char) -> (b: bool)
    ensures
        b == is_plain(c),
{
    let cv = c as u32;
    (cv >= 0x20) && (cv != 0x22) && (cv != 0x5C)
}

/// The end of the run of one or more unescaped characters at `i`.
pub open spec fn spec_nonescaped_string(s: Seq<char>, i: int) -> Option<int> {
    if run_len(s, i, CharClass::Plain) > 0 {
        Some(i + run_len(s, i, CharClass::Plain))
    } else {
        None
    }
}

/// The end of the string body at `i`: a run of unescaped characters, as long
/// as it gets, and then, where an escape code follows it, that escape code
/// and the rest of the body behind it.
pub open spec fn spec_string_body(s: Seq<char>, i: int) -> int
    decreases s.len() - i,
{
    let plain_end = i + run_len(s, i, CharClass::Plain);
    match spec_escape_code(s, plain_end) {
        Some(next) => spec_string_body(s, next),
        None => plain_end,
    }
}

/// One of the sixteen digits in which a `\u` escape states a code unit.
pub open spec fn is_hex_digit(c: char) -> bool {
    '0' <= c <= '9' || 'a' <= c <= 'f' || 'A' <= c <= 'F'
}

/// Whether four hex digits stand at `k`.
pub open spec fn four_hex_at(raw: Seq<char>, k: int) -> bool {
    0 <= k && k + 4 <= raw.len() && is_hex_digit(raw[k]) && is_hex_digit(raw[k + 1])
        && is_hex_digit(raw[k + 2]) && is_hex_digit(raw[k + 3])
}

/// Whether, from `k` on, every `\u` escape of the string body `raw` is followed
/// by four hex digits. A backslash that is itself escaped starts no escape.
pub open spec fn unicode_escapes_complete(raw: Seq<char>, k: int) -> bool
    decreases raw.len() - k,
{
    if k < 0 || k >= raw.len() {
        true
    } else if raw[k] != '\\' {
        unicode_escapes_complete(raw, k + 1)
    } else if has_char(raw, k + 1, 'u') {
        four_hex_at(raw, k + 2) && unicode_escapes_complete(raw, k + 6)
    } else if k + 1 < raw.len() {
        unicode_escapes_complete(raw, k + 2)
    } else {
        true
    }
}

/// The text that the body `raw` of a string literal stands for once its escape
/// sequences are decoded, where they can be decoded.
pub uninterp spec fn unescaped(raw: Seq<char>) -> Option<Seq<char>>;

/// Whether `raw` holds unescaped characters only.
pub open spec fn all_plain(raw: Seq<char>) -> bool {
    forall|k: int| 0 <= k < raw.len() ==> is_plain(#[trigger] raw[k])
}

/// The text that the body `raw` of a string literal stands for: the body
/// itself where nothing in it is escaped, and what decoding gives otherwise.
pub open spec fn body_text(raw: Seq<char>) -> Option<Seq<char>> {
    if all_plain(raw) {
        Some(raw)
    } else {
        unescaped(raw)
    }
}

/// Whether a backslash stands at `i` with a character behind it. Where a string
/// body ends at such a place, the character is none of the escape letters.
pub open spec fn has_unknown_escape(s: Seq<char>, i: int) -> bool {
    has_char(s, i, '\\') && i + 1 < s.len()
}

/// The string literal at `i`.
///
/// It fails softly where no quotation mark stands at `i`, and where the body
/// behind it is not closed: it ends at the end of the text, at a control
/// character, or at a backslash that is the last character of the text.
/// It fails hard where the body ends at a backslash with an unknown escape
/// letter behind it, where the body holds a `\u` escape without four hex
/// digits, and where the body cannot be decoded. Otherwise it yields the text
/// that the body stands for.
pub open spec fn spec_string_literal(s: Seq<char>, i: int) -> Result<
    (int, Seq<char>),
    ParseFailure,
> {
    let close = spec_string_body(s, i + 1);
    if !has_char(s, i, '"') {
        Err(ParseFailure::Soft)
    } else if has_char(s, close, '"') {
        decoded(close + 1, s.subrange(i + 1, close), body_text(s.subrange(i + 1, close)))
    } else if has_unknown_escape(s, close) {
        Err(ParseFailure::Hard(JSONParseError::BadEscape))
    } else {
        Err(ParseFailure::Soft)
    }
}

/// What a string literal with the body `raw` and the end `end` yields, given
/// the result of decoding the body.
pub open spec fn decoded(end: int, raw: Seq<char>, text: Option<Seq<char>>) -> Result<
    (int, Seq<char>),
    ParseFailure,
> {
    match text {
        Some(t) if unicode_escapes_complete(raw, 0) => Ok((end, t)),
        _ => Err(ParseFailure::Hard(JSONParseError::BadEscape)),
    }
}

/// The string rule at `i`: the string literal as a node.
pub open spec fn spec_json_string(s: Seq<char>, i: int) -> Result<(int, NodeView), ParseFailure> {
    match spec_string_literal(s, i) {
        Ok((end, text)) => Ok((end, NodeView::Str(text))),
        Err(failure) => Err(failure),
    }
}

/// The error with which `escape8259::unescape` fails.
#[verifier::external_type_specification]
#[verifier::external_body]
pub struct ExUnescapeError(escape8259::UnescapeError);

/// Calls `escape8259::unescape`, which decodes the escape sequences of a string
/// body. The decoded text is a function of the body alone; it is known here
/// by the name `unescaped`, and by one fact: a body of unescaped characters
/// only, which holds no backslash, comes back as it is.
#[verifier::external_body]
fn unescape(raw: &str) -> (r: Result<String, escape8259::UnescapeError>)
    ensures
        match r {
            Ok(text) => unescaped(raw@) == Some(text@) && (all_plain(raw@) ==> text@ == raw@),
            Err(_) => unescaped(raw@) is None && !all_plain(raw@),
        },
{
    escape8259::unescape(raw)
}

/// Tests whether `c` is a hex digit.
pub fn hex_digit(c: char) -> (b: bool)
    ensures
        b == is_hex_digit(c),
{
    ('0' <= c && c <= '9') || ('a' <= c && c <= 'f') || ('A' <= c && c <= 'F')
}

/// Tests whether every `\u` escape of the string body `raw` is followed by four
/// hex digits.
pub fn check_unicode_escapes(raw: &[char]) -> (b: bool)
    ensures
        b == unicode_escapes_complete(raw@, 0),
{
    let mut k: usize = 0;
    while k < raw.len()
        invariant
            unicode_escapes_complete(raw@, 0) == unicode_escapes_complete(raw@, k as int),
        decreases raw.len() - k,
    {
        if raw[k] != '\\' {
            k += 1;
        } else if k + 1 < raw.len() && raw[k + 1] == 'u' {
            if raw.len() - k < 6 || !hex_digit(raw[k + 2]) || !hex_digit(raw[k + 3]) || !hex_digit(
                raw[k + 4],
            ) || !hex_digit(raw[k + 5]) {
                return false;
            }
            k += 6;
        } else if k + 1 < raw.len() {
            k += 2;
        } else {
            return true;
        }
    }
    true
}

/// Says what a string literal yields, given the result of decoding its body
/// `raw`: the decoded text where every `\u` escape of the body has its four hex
/// digits and the decoding succeeded, and a hard failure otherwise.
pub fn finish_string(end: usize, raw: &[char], text: Option<String>) -> (r: Result<
    (usize, String),
    ParseFailure,
>)
    ensures
        answers_at(
            r,
            decoded(
                end as int,
                raw@,
                match text {
                    Some(t) => Some(t@),
                    None => None,
                },
            ),
        ),
{
    match text {
        Some(t) => {
            if check_unicode_escapes(raw) {
                Ok((end, t))
            } else {
                Err(ParseFailure::Hard(JSONParseError::BadEscape))
            }
        },
        None => Err(ParseFailure::Hard(JSONParseError::BadEscape)),
    }
}

/// Matches a run of one or more unescaped characters at `i`.
pub fn nonescaped_string_at(chars: &[char], i: usize) -> (end: Option<usize>)
    ensures
        same_end(end, spec_nonescaped_string(chars@, i as int)),
        end matches Some(e) ==> i < e <= chars.len(),
{
    let end = skip_run(chars, i, CharClass::Plain);
    if end > i {
        proof {
            if i > chars.len() {
                assert(run_len(chars@, i as int, CharClass::Plain) == 0);
            }
        }
        Some(end)
    } else {
        None
    }
}

/// Matches a string body at `i`. A body may be empty, so this always matches.
pub fn string_body_at(chars: &[char], i: usize) -> (end: usize)
    ensures
        end == spec_string_body(chars@, i as int),
        i <= end,
        i <= chars.len() ==> end <= chars.len(),
{
    let mut pos: usize = i;
    loop
        invariant
            i <= pos,
            i <= chars.len() ==> pos <= chars.len(),
            spec_string_body(chars@, i as int) == spec_string_body(chars@, pos as int),
        decreases chars.len() - pos,
    {
        let plain_end = skip_run(chars, pos, CharClass::Plain);
        match escape_code_at(chars, plain_end) {
            Some(next) => {
                pos = next;
            },
            None => {
                return plain_end;
            },
        }
    }
}

/// Matches a string literal at `i` and decodes it.
pub fn string_literal_at(chars: &[char], i: usize) -> (r: Result<(usize, String), ParseFailure>)
    ensures
        answers_at(r, spec_string_literal(chars@, i as int)),
        r matches Ok((end, _)) ==> i < end <= chars.len(),
{
    if !char_at(chars, i, '"') {
        return Err(ParseFailure::Soft);
    }
    let close = string_body_at(chars, i + 1);
    if !char_at(chars, close, '"') {
        if char_at(chars, close, '\\') && close + 1 < chars.len() {
            return Err(ParseFailure::Hard(JSONParseError::BadEscape));
        }
        return Err(ParseFailure::Soft);
    }
    let raw = text_between(chars, i + 1, close);
    let text = match unescape(raw.as_str()) {
        Ok(t) => Some(t),
        Err(_) => None,
    };
    let body = vstd::slice::slice_subrange(chars, i + 1, close);
    finish_string(close + 1, body, text)
}

/// Applies the string rule at `i`.
pub fn json_string_at(chars: &[char], i: usize) -> (r: Result<(usize, Node), ParseFailure>)
    ensures
        answers_at(r, spec_json_string(chars@, i as int)),
        r matches Ok((end, _)) ==> i < end <= chars.len(),
{
    match string_literal_at(chars, i) {
        Ok((end, text)) => Ok((end, Node::Str(text))),
        Err(failure) => Err(failure),
    }
}

/// Matches a run of one or more unescaped characters at the start of `input`
/// and returns the text that is left over and the matched text.
pub fn nonescaped_string(input: &str) -> (r: Result<(&str, &str), ParseFailure>)
    ensures
        answers(r, input@, recognized(input@, 0, spec_nonescaped_string(input@, 0))),
{
    let chars = to_chars(input);
    matched_from_start(input, chars.len(), nonescaped_string_at(chars.as_slice(), 0))
}

/// Matches a string body at the start of `input` and returns the text that is
/// left over and the matched text.
pub fn string_body(input: &str) -> (r: Result<(&str, &str), ParseFailure>)
    ensures
        answers(r, input@, recognized(input@, 0, Some(spec_string_body(input@, 0)))),
{
    let chars = to_chars(input);
    matched_from_start(input, chars.len(), Some(string_body_at(chars.as_slice(), 0)))
}

/// Matches a string literal at the start of `input` and decodes it.
pub fn string_literal(input: &str) -> (r: Result<(&str, String), ParseFailure>)
    ensures
        answers(r, input@, spec_string_literal(input@, 0)),
{
    let chars = to_chars(input);
    from_start(input, chars.len(), string_literal_at(chars.as_slice(), 0))
}

/// Applies the string rule at the start of `input`.
pub fn json_string(input: &str) -> (r: Result<(&str, Node), ParseFailure>)
    ensures
        answers(r, input@, spec_json_string(input@, 0)),
{
    let chars = to_chars(input);
    from_start(input, chars.len(), json_string_at(chars.as_slice(), 0))
}

/// A string body that starts inside the text ends inside the text, and not
/// before its start.
pub proof fn lemma_string_body_bounds(s: Seq<char>, i: int)
    requires
        0 <= i <= s.len(),
    ensures
        i <= spec_string_body(s, i) <= s.len(),
    decreases s.len() - i,
{
    lemma_run_is_maximal(s, i, CharClass::Plain);
    let plain_end = i + run_len(s, i, CharClass::Plain);
    if let Some(next) = spec_escape_code(s, plain_end) {
        lemma_string_body_bounds(s, next);
    }
}

/// A string literal, where one stands at `i`, is not empty and lies inside the
/// text.
pub proof fn lemma_string_literal_bounds(s: Seq<char>, i: int)
    ensures
        spec_string_literal(s, i) matches Ok((end, _)) ==> 0 <= i < end <= s.len(),
{
    if spec_string_literal(s, i) is Ok {
        lemma_string_body_bounds(s, i + 1);
    }
}

/// A body of unescaped characters holds no `\u` escape, so none is incomplete.
pub proof fn lemma_plain_has_complete_escapes(raw: Seq<char>, k: int)
    requires
        all_plain(raw),
    ensures
        unicode_escapes_complete(raw, k),
    decreases raw.len() - k,
{
    if 0 <= k < raw.len() {
        assert(is_plain(raw[k]));
        lemma_plain_has_complete_escapes(raw, k + 1);
    }
}

/// A string literal in which nothing is escaped stands for the text between
/// its quotation marks.
pub proof fn lemma_plain_string_literal(s: Seq<char>, i: int)
    requires
        has_char(s, i, '"'),
        has_char(s, spec_string_body(s, i + 1), '"'),
        all_plain(s.subrange(i + 1, spec_string_body(s, i + 1))),
    ensures
        spec_string_literal(s, i) == Ok::<(int, Seq<char>), ParseFailure>(
            (spec_string_body(s, i + 1) + 1, s.subrange(i + 1, spec_string_body(s, i + 1))),
        ),
{
    lemma_plain_has_complete_escapes(s.subrange(i + 1, spec_string_body(s, i + 1)), 0);
}

/// A string body ends where neither an unescaped character nor an escape code
/// stands: so a backslash at its end is the last character of the text or is
/// followed by a character that is no escape letter.
pub proof fn lemma_string_body_end(s: Seq<char>, i: int)
    requires
        0 <= i <= s.len(),
    ensures
        ({
            let end = spec_string_body(s, i);
            &&& spec_escape_code(s, end) is None
            &&& end < s.len() ==> !is_plain(s[end])
            &&& has_unknown_escape(s, end) ==> !is_escape_letter(s[end + 1])
        }),
    decreases s.len() - i,
{
    lemma_run_is_maximal(s, i, CharClass::Plain);
    let plain_end = i + run_len(s, i, CharClass::Plain);
    if let Some(next) = spec_escape_code(s, plain_end) {
        lemma_string_body_end(s, next);
    }
}

/// The text that a string body covers is, taken by itself, a string body.
pub proof fn lemma_string_body_within(s: Seq<char>, from: int, to: int, k: int)
    requires
        0 <= from <= k <= to <= s.len(),
        spec_string_body(s, k) == to,
    ensures
        spec_string_body(s.subrange(from, to), k - from) == to - from,
    decreases to - k,
{
    let text = s.subrange(from, to);
    lemma_run_is_maximal(s, k, CharClass::Plain);
    crate::utils::lemma_run_len_within(s, from, to, k, CharClass::Plain);
    let plain_end = k + run_len(s, k, CharClass::Plain);
    if let Some(next) = spec_escape_code(s, plain_end) {
        lemma_string_body_bounds(s, next);
        assert(text[plain_end - from] == s[plain_end]);
        assert(text[plain_end + 1 - from] == s[plain_end + 1]);
        lemma_string_body_within(s, from, to, next);
    } else {
        assert(plain_end == to);
    }
}

} // verus!
