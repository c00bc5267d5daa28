//! What a JSON text looks like, stated without the rules that read it.
//!
//! A text is described by a tree of spans: a token covers a literal, a number
//! or a string; an array and an object cover their brackets and what stands
//! between them. Whitespace may stand around brackets, commas and colons.
//! The tokens are the texts that are a literal, a number or a string as a
//! whole; what is said of them here is how they stand inside a longer text.

use crate::float_parser::{
    is_float_literal,
    lemma_exp_bounds,
    lemma_float_body_bounds,
    lemma_frac_bounds,
    lemma_part_within,
    spec_exp,
    spec_float_body,
    spec_frac,
};
use crate::integer_parser::{
    after_minus,
    integer_value,
    lemma_integer_body_bounds,
    lemma_uint_is_digits,
    spec_integer_body,
    spec_uint,
};
use crate::{
    spec_alternatives,
    spec_json_value,
};
use crate::object_parser::spec_object_member;
use crate::string_parser::{
    body_text,
    spec_string_body,
    spec_string_literal,
    unicode_escapes_complete,
};
use crate::utils::{
    CharClass,
    ParseFailure,
    has_char,
    has_tag,
    is_space,
    lemma_run_is_maximal,
    lemma_run_len_within,
    padded_char,
    run_len,
    spec_escape_code,
};
use vstd::prelude::*;

verus! {

/// Whether the text from `from` up to `to` is whitespace only.
pub open spec fn spaces(s: Seq<char>, from: int, to: int) -> bool {
    0 <= from <= to <= s.len() && forall|k: int| from <= k < to ==> is_space(#[trigger] s[k])
}

/// Whether the text from `from` up to `to` is the character `c` with optional
/// whitespace before and after it.
pub open spec fn separator(s: Seq<char>, from: int, to: int, c: char) -> bool {
    exists|at: int| #[trigger] spaces(s, from, at) && has_char(s, at, c) && spaces(s, at + 1, to)
}

/// Whether what stands at `at` can follow a value: the end of the text,
/// whitespace, a comma or a closing bracket.
pub open spec fn can_follow(s: Seq<char>, at: int) -> bool {
    at == s.len() || has_char(s, at, ',') || has_char(s, at, ']') || has_char(s, at, '}') || (0
        <= at < s.len() && is_space(s[at]))
}

/// The position behind the whitespace that starts at `at`.
pub open spec fn after_spaces(s: Seq<char>, at: int) -> int {
    at + run_len(s, at, CharClass::Space)
}

/// Whether `text` is an integer literal whose number fits in 64 signed bits.
pub open spec fn is_integer_token(text: Seq<char>) -> bool {
    spec_integer_body(text, 0) == Some(text.len() as int) && i64::MIN <= integer_value(text)
        <= i64::MAX
}

/// Whether `text` is a string literal that can be decoded: a body of unescaped
/// characters and escape codes between quotation marks, in which every `\u`
/// escape has its four hex digits, and which stands for a text.
pub open spec fn is_string_token(text: Seq<char>) -> bool {
    let raw = text.subrange(1, text.len() - 1);
    &&& text.len() >= 2
    &&& text[0] == '"'
    &&& text.last() == '"'
    &&& spec_string_body(raw, 0) == raw.len()
    &&& unicode_escapes_complete(raw, 0)
    &&& body_text(raw) is Some
}

/// Whether `text` is one of the tokens that are values by themselves.
pub open spec fn is_token(text: Seq<char>) -> bool {
    text == "null"@ || text == "true"@ || text == "false"@ || is_integer_token(text)
        || is_float_literal(text) || is_string_token(text)
}

/// Whitespace that ends at a character that is no whitespace, or at the end of
/// the text, is the longest run of whitespace at its start.
pub proof fn lemma_spaces_are_the_run(s: Seq<char>, from: int, to: int)
    requires
        spaces(s, from, to),
        to == s.len() || !is_space(s[to]),
    ensures
        after_spaces(s, from) == to,
    decreases to - from,
{
    if from < to {
        assert(is_space(s[from]));
        lemma_spaces_are_the_run(s, from + 1, to);
    }
}

/// Behind the longest run of whitespace no whitespace stands.
pub proof fn lemma_after_spaces_twice(s: Seq<char>, at: int)
    requires
        0 <= at <= s.len(),
    ensures
        after_spaces(s, after_spaces(s, at)) == after_spaces(s, at),
        at <= after_spaces(s, at) <= s.len(),
        after_spaces(s, at) == s.len() || !is_space(s[after_spaces(s, at)]),
{
    lemma_run_is_maximal(s, at, CharClass::Space);
}

/// A separator that ends where no whitespace stands is what the padded
/// character matches, and it starts with whitespace or with the character.
pub proof fn lemma_separator_is_padded(s: Seq<char>, from: int, to: int, c: char)
    requires
        separator(s, from, to, c),
        !is_space(c),
        to == s.len() || !is_space(s[to]),
    ensures
        padded_char(s, from, c) == Some(to),
        can_follow(s, from) || has_char(s, from, c),
{
    let at = choose|at: int|
        #[trigger] spaces(s, from, at) && has_char(s, at, c) && spaces(s, at + 1, to);
    lemma_spaces_are_the_run(s, from, at);
    lemma_spaces_are_the_run(s, at + 1, to);
    if from < at {
        assert(is_space(s[from]));
    }
}

/// An integer token that is followed by what can follow a value is what the
/// integer rule matches, and the float rule does not match there.
pub proof fn lemma_integer_token(s: Seq<char>, from: int, to: int)
    requires
        0 <= from <= to <= s.len(),
        spec_integer_body(s.subrange(from, to), 0) == Some(to - from),
        can_follow(s, to),
    ensures
        spec_integer_body(s, from) == Some(to),
        spec_float_body(s, from) is None,
        from < to,
        !is_space(s[from]),
{
    let text = s.subrange(from, to);
    lemma_integer_body_bounds(text, 0);
    let digits = after_minus(s, from);
    assert(after_minus(text, 0) == digits - from);
    lemma_uint_is_digits(text, digits - from);
    assert(text[digits - from] == s[digits]);
    if !has_char(s, digits, '0') {
        lemma_run_len_within(s, from, to, digits + 1, CharClass::Digit);
        lemma_run_is_maximal(s, digits + 1, CharClass::Digit);
    }
    assert(spec_uint(s, digits) == Some(to));
}

/// A fraction part and an exponent part stand inside a token, which is
/// followed by what can follow a value, as they stand in the text.
pub proof fn lemma_part_extends(s: Seq<char>, from: int, to: int, k: int)
    requires
        0 <= from <= k <= to <= s.len(),
        can_follow(s, to),
    ensures
        match spec_frac(s.subrange(from, to), k - from) {
            Some(end) => spec_frac(s, k) == Some(end + from),
            None => spec_frac(s, k) is None,
        },
        match spec_exp(s.subrange(from, to), k - from) {
            Some(end) => spec_exp(s, k) == Some(end + from),
            None => spec_exp(s, k) is None,
        },
{
    lemma_part_within(s, from, to, k);
    lemma_frac_bounds(s, k);
    lemma_exp_bounds(s, k);
    if k < to {
        lemma_run_is_maximal(s, k + 1, CharClass::Digit);
        let digits = crate::float_parser::after_sign(s, k + 1);
        lemma_run_is_maximal(s, digits, CharClass::Digit);
    }
}

/// A float token that is followed by what can follow a value is what the float
/// rule matches.
pub proof fn lemma_float_token(s: Seq<char>, from: int, to: int)
    requires
        0 <= from <= to <= s.len(),
        is_float_literal(s.subrange(from, to)),
        can_follow(s, to),
    ensures
        spec_float_body(s, from) == Some(to),
        from < to,
        !is_space(s[from]),
{
    let text = s.subrange(from, to);
    lemma_float_body_bounds(text, 0);
    let digits = after_minus(s, from);
    assert(after_minus(text, 0) == digits - from);
    let u = spec_uint(text, digits - from)->0 + from;
    lemma_uint_is_digits(text, digits - from);
    lemma_frac_bounds(text, u - from);
    lemma_exp_bounds(text, u - from);
    assert(text[digits - from] == s[digits]);
    if !has_char(s, digits, '0') {
        lemma_run_len_within(s, from, to, digits + 1, CharClass::Digit);
        lemma_run_is_maximal(s, digits + 1, CharClass::Digit);
        lemma_run_is_maximal(text, digits + 1 - from, CharClass::Digit);
    }
    assert(spec_uint(s, digits) == Some(u));
    lemma_part_extends(s, from, to, u);
    if let Some(f) = spec_frac(text, u - from) {
        lemma_frac_bounds(text, u - from);
        lemma_exp_bounds(text, f);
        lemma_part_extends(s, from, to, f + from);
    }
}

/// A string body that fills the text between `from` and a quotation mark at
/// `to` is the string body that stands at `from`.
pub proof fn lemma_string_body_extends(s: Seq<char>, from: int, to: int, k: int)
    requires
        0 <= from <= k <= to < s.len(),
        s[to] == '"',
        spec_string_body(s.subrange(from, to), k - from) == to - from,
    ensures
        spec_string_body(s, k) == to,
    decreases to - k,
{
    let text = s.subrange(from, to);
    lemma_run_len_within(s, from, to, k, CharClass::Plain);
    lemma_run_is_maximal(s, k, CharClass::Plain);
    lemma_run_is_maximal(text, k - from, CharClass::Plain);
    let plain_end = k + run_len(s, k, CharClass::Plain);
    assert(plain_end - from == k - from + run_len(text, k - from, CharClass::Plain));
    if plain_end < to {
        assert(text[plain_end - from] == s[plain_end]);
        if plain_end + 1 < to {
            assert(text[plain_end + 1 - from] == s[plain_end + 1]);
        }
        if let Some(next) = spec_escape_code(text, plain_end - from) {
            lemma_string_body_extends(s, from, to, next + from);
        }
    }
}

/// A string token is what the string literal rule matches.
pub proof fn lemma_string_token(s: Seq<char>, from: int, to: int)
    requires
        0 <= from <= to <= s.len(),
        is_string_token(s.subrange(from, to)),
    ensures
        spec_string_literal(s, from) matches Ok((end, _)) && end == to,
        from < to,
        !is_space(s[from]),
{
    let text = s.subrange(from, to);
    let raw = text.subrange(1, text.len() - 1);
    assert(text[0] == s[from]);
    assert(text.last() == s[to - 1]);
    assert(raw == s.subrange(from + 1, to - 1));
    lemma_string_body_extends(s, from + 1, to - 1, from + 1);
}

/// The shape of a value: the span of a token, or the span of a container
/// with the shapes of what it holds. A member of an object is the span of its
/// key and the shape of its value.
pub ghost enum Syntax {
    Token { start: int, end: int },
    Array { start: int, end: int, items: Seq<Syntax> },
    Object { start: int, end: int, members: Seq<(int, int, Syntax)> },
}

impl Syntax {
    /// Where the value starts.
    pub open spec fn start(self) -> int {
        match self {
            Syntax::Token { start, .. } => start,
            Syntax::Array { start, .. } => start,
            Syntax::Object { start, .. } => start,
        }
    }

    /// Where the value ends.
    pub open spec fn end(self) -> int {
        match self {
            Syntax::Token { end, .. } => end,
            Syntax::Array { end, .. } => end,
            Syntax::Object { end, .. } => end,
        }
    }
}

/// The spans of the items of an array.
pub open spec fn item_spans(items: Seq<Syntax>) -> Seq<(int, int)> {
    Seq::new(items.len(), |k: int| (items[k].start(), items[k].end()))
}

/// The spans of the members of an object, each from the start of its key to
/// the end of its value.
pub open spec fn member_spans(members: Seq<(int, int, Syntax)>) -> Seq<(int, int)> {
    Seq::new(members.len(), |k: int| (members[k].0, members[k].2.end()))
}

/// Whether a comma with optional whitespace stands between every two
/// neighbours of the parts with the given spans.
pub open spec fn chained(s: Seq<char>, spans: Seq<(int, int)>) -> bool {
    forall|k: int|
        0 <= k < spans.len() - 1 ==> separator(s, (#[trigger] spans[k]).1, spans[k + 1].0, ',')
}

/// Whether the text from `start` up to `end` is a container: the bracket
/// `open`, the parts with the given spans, separated by commas, and the bracket
/// `close`, with optional whitespace between all of these.
pub open spec fn laid_out(
    s: Seq<char>,
    start: int,
    end: int,
    open: char,
    close: char,
    spans: Seq<(int, int)>,
) -> bool {
    &&& has_char(s, start, open)
    &&& has_char(s, end - 1, close)
    &&& start + 1 <= end - 1
    &&& if spans.len() == 0 {
        spaces(s, start + 1, end - 1)
    } else {
        &&& spaces(s, start + 1, spans[0].0)
        &&& spaces(s, spans.last().1, end - 1)
        &&& chained(s, spans)
    }
}

/// Whether a member stands in the text as its span and shape say: a string
/// token as the key, a colon, and a value.
#[verifier::opaque]
pub open spec fn valid_key(s: Seq<char>, key_start: int, key_end: int, value_start: int) -> bool {
    &&& 0 <= key_start <= key_end <= s.len()
    &&& is_string_token(s.subrange(key_start, key_end))
    &&& separator(s, key_end, value_start, ':')
}

/// Whether the text holds a value of the shape `t` at the span of `t`.
pub open spec fn valid(s: Seq<char>, t: Syntax) -> bool
    decreases t,
{
    match t {
        Syntax::Token { start, end } => 0 <= start <= end <= s.len() && is_token(
            s.subrange(start, end),
        ),
        Syntax::Array { start, end, items } => {
            &&& laid_out(s, start, end, '[', ']', item_spans(items))
            &&& forall|k: int| 0 <= k < items.len() ==> valid(s, #[trigger] items[k])
        },
        Syntax::Object { start, end, members } => {
            &&& laid_out(s, start, end, '{', '}', member_spans(members))
            &&& forall|k: int|
                0 <= k < members.len() ==> valid_key(
                    s,
                    (#[trigger] members[k]).0,
                    members[k].1,
                    members[k].2.start(),
                ) && valid(s, members[k].2)
        },
    }
}

/// Whether `s` is a JSON text: one value with optional whitespace before and
/// after it, in which every integer fits in 64 signed bits and every string
/// can be decoded.
pub open spec fn is_json_text(s: Seq<char>) -> bool {
    exists|t: Syntax| #[trigger]
        valid(s, t) && spaces(s, 0, t.start()) && spaces(s, t.end(), s.len() as int)
}

/// A token is not empty and does not start with whitespace.
pub proof fn lemma_token_start(text: Seq<char>)
    requires
        is_token(text),
    ensures
        text.len() > 0,
        !is_space(text[0]),
{
    reveal_strlit("null");
    reveal_strlit("true");
    reveal_strlit("false");
    lemma_integer_body_bounds(text, 0);
    lemma_float_body_bounds(text, 0);
    if spec_integer_body(text, 0) is Some {
        lemma_uint_is_digits(text, after_minus(text, 0));
    }
    if spec_float_body(text, 0) is Some {
        lemma_uint_is_digits(text, after_minus(text, 0));
    }
}

/// A value lies inside the text, is not empty and does not start with
/// whitespace.
pub proof fn lemma_valid_start(s: Seq<char>, t: Syntax)
    requires
        valid(s, t),
    ensures
        0 <= t.start() < t.end() <= s.len(),
        !is_space(s[t.start()]),
{
    if let Syntax::Token { start, end } = t {
        lemma_token_start(s.subrange(start, end));
        assert(s.subrange(start, end)[0] == s[start]);
    }
}

/// A key lies inside the text, is not empty and does not start with
/// whitespace.
pub proof fn lemma_key_start(s: Seq<char>, key_start: int, key_end: int, value_start: int)
    requires
        valid_key(s, key_start, key_end, value_start),
    ensures
        0 <= key_start < key_end <= s.len(),
        !is_space(s[key_start]),
{
    reveal(valid_key);
    lemma_string_token(s, key_start, key_end);
}

/// No value and no member stands at a closing bracket.
pub proof fn lemma_no_value_at_bracket(s: Seq<char>, i: int)
    requires
        has_char(s, i, ']') || has_char(s, i, '}'),
    ensures
        spec_json_value(s, i) matches Err(ParseFailure::Soft),
        spec_object_member(s, i) matches Err(ParseFailure::Soft),
{
    reveal_strlit("null");
    reveal_strlit("true");
    reveal_strlit("false");
    assert(run_len(s, i, CharClass::Space) == 0);
    if has_tag(s, i, "false"@) {
        assert(s.subrange(i, i + 5)[0] == 'f');
    }
    if has_tag(s, i, "true"@) {
        assert(s.subrange(i, i + 4)[0] == 't');
    }
    if has_tag(s, i, "null"@) {
        assert(s.subrange(i, i + 4)[0] == 'n');
    }
}

/// A token that is followed by what can follow a value is read by one of the
/// rules for values, up to its end.
pub proof fn lemma_token_is_read(s: Seq<char>, from: int, to: int)
    requires
        0 <= from <= to <= s.len(),
        is_token(s.subrange(from, to)),
        can_follow(s, to),
    ensures
        spec_alternatives(s, from) matches Ok((end, _)) && end == to,
{
    let text = s.subrange(from, to);
    lemma_token_start(text);
    assert(text[0] == s[from]);
    assert(run_len(s, from, CharClass::Space) == 0);
    reveal_strlit("null");
    reveal_strlit("true");
    reveal_strlit("false");
    if is_float_literal(text) {
        lemma_float_token(s, from, to);
        crate::theorems::theorem_number_kinds(s, from);
    } else if is_integer_token(text) {
        lemma_integer_token(s, from, to);
        crate::theorems::theorem_number_kinds(s, from);
    } else if is_string_token(text) {
        lemma_string_token(s, from, to);
    } else {
        assert(text == "null"@ || text == "true"@ || text == "false"@);
        assert(text[0] == s[from]);
        assert(s.subrange(from, from + text.len()) == text);
        if has_tag(s, from, "false"@) {
            assert(s.subrange(from, from + 5)[0] == 'f');
        }
        if has_tag(s, from, "true"@) {
            assert(s.subrange(from, from + 4)[0] == 't');
        }
    }
}

} // verus!
