//! Every text that is read with success is a JSON text.

use crate::array_parser::{
    spec_array_items,
    spec_json_array,
};
use crate::completeness::theorem_json_text_is_read;
use crate::float_parser::spec_float_body;
use crate::integer_parser::spec_integer_body;
use crate::{
    spec_alternatives,
    spec_json_value,
    spec_parse_json,
};
use crate::object_parser::{
    spec_json_object,
    spec_object_member,
    spec_object_members,
};
use crate::string_parser::spec_string_literal;
use crate::syntax::{
    Syntax,
    after_spaces,
    chained,
    is_json_text,
    is_string_token,
    is_token,
    item_spans,
    laid_out,
    lemma_after_spaces_twice,
    lemma_key_start,
    member_spans,
    separator,
    spaces,
    valid,
    valid_key,
};
use crate::utils::{
    CharClass,
    ParseFailure,
    has_char,
    is_space,
    lemma_run_is_maximal,
    padded_char,
};
use vstd::prelude::*;

verus! {

/// Whitespace behind whitespace is whitespace.
proof fn lemma_spaces_join(s: Seq<char>, from: int, mid: int, to: int)
    requires
        spaces(s, from, mid),
        spaces(s, mid, to),
    ensures
        spaces(s, from, to),
{
}

/// The whitespace that a run covers is whitespace.
proof fn lemma_run_is_spaces(s: Seq<char>, from: int)
    requires
        0 <= from <= s.len(),
    ensures
        spaces(s, from, after_spaces(s, from)),
{
    lemma_run_is_maximal(s, from, CharClass::Space);
}

/// What a padded character matches is a separator, also with more whitespace
/// behind it.
proof fn lemma_padded_is_separator(s: Seq<char>, from: int, c: char, to: int)
    requires
        0 <= from,
        padded_char(s, from, c) matches Some(after) && spaces(s, after, to),
    ensures
        separator(s, from, to, c),
        has_char(s, after_spaces(s, from), c),
        padded_char(s, from, c) == Some(after_spaces(s, after_spaces(s, from) + 1)),
{
    let at = after_spaces(s, from);
    let after = padded_char(s, from, c)->0;
    lemma_run_is_spaces(s, from);
    lemma_run_is_spaces(s, at + 1);
    lemma_spaces_join(s, at + 1, after, to);
    assert(spaces(s, from, at) && has_char(s, at, c) && spaces(s, at + 1, to));
}

/// A chain of parts goes on to the left by a part that a separator follows.
proof fn lemma_chain_prepend(s: Seq<char>, first: (int, int), rest: Seq<(int, int)>)
    requires
        rest.len() > 0 ==> separator(s, first.1, rest[0].0, ','),
        chained(s, rest),
    ensures
        chained(s, seq![first] + rest),
{
    let spans = seq![first] + rest;
    assert forall|k: int| 0 <= k < spans.len() - 1 implies separator(
        s,
        (#[trigger] spans[k]).1,
        spans[k + 1].0,
        ',',
    ) by {
        assert(spans[k + 1] == rest[k]);
        if k > 0 {
            assert(spans[k] == rest[k - 1]);
        }
    }
}

/// Whether the parts with the given spans are what a list holds that ends at
/// `end`, where the parts that were taken before end at `pos` and the first of
/// these parts is expected at `next`.
pub open spec fn list_shape(
    s: Seq<char>,
    spans: Seq<(int, int)>,
    pos: int,
    next: int,
    end: int,
) -> bool {
    if spans.len() == 0 {
        end == pos
    } else {
        &&& spaces(s, next, spans[0].0)
        &&& 0 <= spans.last().1 <= s.len()
        &&& end == after_spaces(s, spans.last().1)
        &&& chained(s, spans)
    }
}

/// A list grows to the left by a part that a padded comma follows.
proof fn lemma_list_shape_prepend(
    s: Seq<char>,
    first: (int, int),
    rest: Seq<(int, int)>,
    pos: int,
    next: int,
    after: int,
    end: int,
)
    requires
        spaces(s, next, first.0),
        0 <= first.1 <= s.len(),
        padded_char(s, after_spaces(s, first.1), ',') == Some(after),
        list_shape(s, rest, after_spaces(s, first.1), after, end),
    ensures
        list_shape(s, seq![first] + rest, pos, next, end),
{
    let spans = seq![first] + rest;
    lemma_after_spaces_twice(s, first.1);
    if rest.len() > 0 {
        assert(spans.last() == rest.last());
        lemma_padded_is_separator(s, after_spaces(s, first.1), ',', rest[0].0);
        let at = after_spaces(s, first.1);
        lemma_run_is_spaces(s, first.1);
        assert(spaces(s, first.1, at) && has_char(s, at, ',') && spaces(s, at + 1, rest[0].0)) by {
            let inner = choose|inner: int| #[trigger]
                spaces(s, at, inner) && has_char(s, inner, ',') && spaces(s, inner + 1, rest[0].0);
            if at < inner {
                assert(is_space(s[at]));
            }
        }
    } else {
        assert(spans.last() == first);
    }
    lemma_chain_prepend(s, first, rest);
    assert(spans[0] == first);
}

/// A list with one part ends behind the whitespace that follows the part.
proof fn lemma_list_shape_single(s: Seq<char>, first: (int, int), pos: int, next: int)
    requires
        spaces(s, next, first.0),
        0 <= first.1 <= s.len(),
    ensures
        list_shape(s, seq![first], pos, next, after_spaces(s, first.1)),
{
    let spans = seq![first];
    assert(spans[0] == first);
    assert(spans.last() == first);
}

/// The brackets around a list of parts lay the container out.
proof fn lemma_container_laid_out(
    s: Seq<char>,
    i: int,
    open: char,
    close: char,
    spans: Seq<(int, int)>,
    list_end: int,
)
    requires
        0 <= i,
        !is_space(close),
        padded_char(s, i, open) matches Some(first) && first <= list_end && list_shape(
            s,
            spans,
            first,
            first,
            list_end,
        ),
        padded_char(s, list_end, close) is Some,
    ensures
        laid_out(s, after_spaces(s, i), after_spaces(s, list_end) + 1, open, close, spans),
        spaces(s, i, after_spaces(s, i)),
        padded_char(s, list_end, close) == Some(
            after_spaces(s, after_spaces(s, list_end) + 1),
        ),
{
    let start = after_spaces(s, i);
    let first = padded_char(s, i, open)->0;
    let close_at = after_spaces(s, list_end);
    crate::utils::lemma_padded_char_bounds(s, i, open);
    crate::utils::lemma_padded_char_bounds(s, list_end, close);
    lemma_run_is_spaces(s, i);
    lemma_run_is_spaces(s, start + 1);
    lemma_run_is_spaces(s, list_end);
    if spans.len() == 0 {
        lemma_spaces_join(s, start + 1, first, close_at);
    } else {
        lemma_spaces_join(s, start + 1, first, spans[0].0);
        lemma_after_spaces_twice(s, spans.last().1);
        lemma_run_is_spaces(s, spans.last().1);
    }
}

/// What the string literal rule matches is a string token.
pub proof fn lemma_string_shape(s: Seq<char>, i: int)
    requires
        spec_string_literal(s, i) is Ok,
    ensures
        0 <= i <= spec_string_literal(s, i)->Ok_0.0 <= s.len(),
        is_string_token(s.subrange(i, spec_string_literal(s, i)->Ok_0.0)),
{
    let end = spec_string_literal(s, i)->Ok_0.0;
    let text = s.subrange(i, end);
    crate::string_parser::lemma_string_literal_bounds(s, i);
    crate::string_parser::lemma_string_body_bounds(s, i + 1);
    crate::string_parser::lemma_string_body_within(s, i + 1, end - 1, i + 1);
    assert(text.subrange(1, text.len() - 1) == s.subrange(i + 1, end - 1));
}

/// What one of the rules for tokens reads is a token.
pub proof fn lemma_token_shape(s: Seq<char>, i: int)
    requires
        spec_alternatives(s, i) is Ok,
        spec_json_array(s, i) matches Err(ParseFailure::Soft),
        spec_json_object(s, i) matches Err(ParseFailure::Soft),
    ensures
        0 <= i <= spec_alternatives(s, i)->Ok_0.0 <= s.len(),
        is_token(s.subrange(i, spec_alternatives(s, i)->Ok_0.0)),
{
    let end = spec_alternatives(s, i)->Ok_0.0;
    crate::theorems::theorem_value_bounds(s, i);
    reveal_strlit("null");
    reveal_strlit("true");
    reveal_strlit("false");
    if spec_string_literal(s, i) is Ok {
        lemma_string_shape(s, i);
    } else if spec_float_body(s, i) is Some {
        crate::float_parser::lemma_float_text_is_literal(s, i);
    } else if spec_integer_body(s, i) is Some {
        crate::integer_parser::lemma_integer_text_is_literal(s, i);
    }
}

/// What the value rule reads has a shape: a value stands there, behind the
/// whitespace that the rule skips, and the rule ends behind the whitespace
/// that follows the value.
pub proof fn lemma_value_shape(s: Seq<char>, i: int) -> (t: Syntax)
    requires
        spec_json_value(s, i) is Ok,
    ensures
        valid(s, t),
        spaces(s, i, t.start()),
        0 <= t.end() <= s.len(),
        spec_json_value(s, i)->Ok_0.0 == after_spaces(s, t.end()),
    decreases s.len() - i, 3int,
{
    let start = after_spaces(s, i);
    crate::theorems::theorem_value_bounds(s, start);
    if 0 <= i <= s.len() {
        lemma_run_is_spaces(s, i);
    }
    let t = lemma_alternatives_shape(s, start);
    lemma_spaces_join(s, i, start, t.start());
    lemma_after_spaces_twice(s, t.end());
    t
}

proof fn lemma_alternatives_shape(s: Seq<char>, i: int) -> (t: Syntax)
    requires
        spec_alternatives(s, i) is Ok,
    ensures
        valid(s, t),
        spaces(s, i, t.start()),
        0 <= t.end() <= s.len(),
        after_spaces(s, spec_alternatives(s, i)->Ok_0.0) == after_spaces(s, t.end()),
    decreases s.len() - i, 2int,
{
    crate::theorems::theorem_value_bounds(s, i);
    if spec_json_array(s, i) is Ok {
        let t = lemma_array_shape(s, i);
        lemma_after_spaces_twice(s, t.end());
        t
    } else if spec_json_object(s, i) is Ok {
        let t = lemma_object_shape(s, i);
        lemma_after_spaces_twice(s, t.end());
        t
    } else {
        lemma_token_shape(s, i);
        Syntax::Token { start: i, end: spec_alternatives(s, i)->Ok_0.0 }
    }
}

proof fn lemma_array_shape(s: Seq<char>, i: int) -> (t: Syntax)
    requires
        spec_json_array(s, i) is Ok,
    ensures
        valid(s, t),
        spaces(s, i, t.start()),
        0 <= t.end() <= s.len(),
        spec_json_array(s, i)->Ok_0.0 == after_spaces(s, t.end()),
    decreases s.len() - i, 1int,
{
    let first = padded_char(s, i, '[')->0;
    crate::utils::lemma_padded_char_bounds(s, i, '[');
    let list_end = spec_array_items(s, first, first)->Ok_0.0;
    crate::array_parser::lemma_array_items_end(s, first, first);
    let items = lemma_items_shape(s, first, first);
    lemma_container_laid_out(s, i, '[', ']', item_spans(items), list_end);
    crate::utils::lemma_padded_char_bounds(s, list_end, ']');
    lemma_after_spaces_twice(s, list_end);
    Syntax::Array { start: after_spaces(s, i), end: after_spaces(s, list_end) + 1, items }
}

proof fn lemma_items_shape(s: Seq<char>, pos: int, next: int) -> (items: Seq<Syntax>)
    requires
        spec_array_items(s, pos, next) is Ok,
        0 <= next,
    ensures
        forall|j: int| 0 <= j < items.len() ==> valid(s, #[trigger] items[j]),
        list_shape(s, item_spans(items), pos, next, spec_array_items(s, pos, next)->Ok_0.0),
    decreases s.len() - next, 5int,
{
    if spec_json_value(s, next) is Ok {
        let end = spec_json_value(s, next)->Ok_0.0;
        let item = lemma_value_shape(s, next);
        let span = (item.start(), item.end());
        if let Some(after) = padded_char(s, end, ',') {
            crate::utils::lemma_padded_char_bounds(s, end, ',');
            let rest = lemma_items_shape(s, end, after);
            let items = seq![item] + rest;
            assert(item_spans(items) == seq![span] + item_spans(rest));
            lemma_list_shape_prepend(
                s,
                span,
                item_spans(rest),
                pos,
                next,
                after,
                spec_array_items(s, end, after)->Ok_0.0,
            );
            assert forall|j: int| 0 <= j < items.len() implies valid(s, #[trigger] items[j]) by {
                if j > 0 {
                    assert(items[j] == rest[j - 1]);
                }
            }
            items
        } else {
            let items = seq![item];
            assert(item_spans(items) == seq![span]);
            lemma_list_shape_single(s, span, pos, next);
            items
        }
    } else {
        let items = Seq::<Syntax>::empty();
        assert(item_spans(items).len() == 0);
        items
    }
}

proof fn lemma_object_shape(s: Seq<char>, i: int) -> (t: Syntax)
    requires
        spec_json_object(s, i) is Ok,
    ensures
        valid(s, t),
        spaces(s, i, t.start()),
        0 <= t.end() <= s.len(),
        spec_json_object(s, i)->Ok_0.0 == after_spaces(s, t.end()),
    decreases s.len() - i, 1int,
{
    let first = padded_char(s, i, '{')->0;
    crate::utils::lemma_padded_char_bounds(s, i, '{');
    let list_end = spec_object_members(s, first, first)->Ok_0.0;
    crate::object_parser::lemma_object_members_end(s, first, first);
    let members = lemma_members_shape(s, first, first);
    lemma_container_laid_out(s, i, '{', '}', member_spans(members), list_end);
    crate::utils::lemma_padded_char_bounds(s, list_end, '}');
    lemma_after_spaces_twice(s, list_end);
    Syntax::Object { start: after_spaces(s, i), end: after_spaces(s, list_end) + 1, members }
}

proof fn lemma_member_shape(s: Seq<char>, i: int) -> (member: (int, int, Syntax))
    requires
        spec_object_member(s, i) is Ok,
    ensures
        member.0 == i,
        valid_key(s, member.0, member.1, member.2.start()),
        valid(s, member.2),
        0 <= member.2.end() <= s.len(),
        spec_object_member(s, i)->Ok_0.0 == after_spaces(s, member.2.end()),
    decreases s.len() - i, 4int,
{
    reveal(valid_key);
    let key_end = spec_string_literal(s, i)->Ok_0.0;
    lemma_string_shape(s, i);
    crate::string_parser::lemma_string_literal_bounds(s, i);
    let colon_end = padded_char(s, key_end, ':')->0;
    crate::utils::lemma_padded_char_bounds(s, key_end, ':');
    let value = lemma_value_shape(s, colon_end);
    lemma_padded_is_separator(s, key_end, ':', value.start());
    (i, key_end, value)
}

proof fn lemma_members_shape(s: Seq<char>, pos: int, next: int) -> (members: Seq<
    (int, int, Syntax),
>)
    requires
        spec_object_members(s, pos, next) is Ok,
        0 <= next,
    ensures
        forall|j: int|
            0 <= j < members.len() ==> valid_key(
                s,
                (#[trigger] members[j]).0,
                members[j].1,
                members[j].2.start(),
            ) && valid(s, members[j].2),
        list_shape(
            s,
            member_spans(members),
            pos,
            next,
            spec_object_members(s, pos, next)->Ok_0.0,
        ),
    decreases s.len() - next, 5int,
{
    if spec_object_member(s, next) is Ok {
        let end = spec_object_member(s, next)->Ok_0.0;
        let member = lemma_member_shape(s, next);
        let span = (member.0, member.2.end());
        lemma_key_start(s, member.0, member.1, member.2.start());
        assert(spaces(s, next, span.0));
        if let Some(after) = padded_char(s, end, ',') {
            crate::utils::lemma_padded_char_bounds(s, end, ',');
            let rest = lemma_members_shape(s, end, after);
            let members = seq![member] + rest;
            assert(member_spans(members) == seq![span] + member_spans(rest));
            lemma_list_shape_prepend(
                s,
                span,
                member_spans(rest),
                pos,
                next,
                after,
                spec_object_members(s, end, after)->Ok_0.0,
            );
            assert forall|j: int| 0 <= j < members.len() implies valid_key(
                s,
                (#[trigger] members[j]).0,
                members[j].1,
                members[j].2.start(),
            ) && valid(s, members[j].2) by {
                if j > 0 {
                    assert(members[j] == rest[j - 1]);
                }
            }
            members
        } else {
            let members = seq![member];
            assert(member_spans(members) == seq![span]);
            lemma_list_shape_single(s, span, pos, next);
            members
        }
    } else {
        let members = Seq::<(int, int, Syntax)>::empty();
        assert(member_spans(members).len() == 0);
        members
    }
}

/// Every text that is read with success is a JSON text.
pub proof fn theorem_read_text_is_json_text(s: Seq<char>)
    requires
        spec_parse_json(s) is Ok,
    ensures
        is_json_text(s),
{
    let t = lemma_value_shape(s, 0);
    lemma_run_is_spaces(s, t.end());
    assert(valid(s, t) && spaces(s, 0, t.start()) && spaces(s, t.end(), s.len() as int));
}

/// The JSON texts are the texts that are read with success.
pub proof fn theorem_json_texts_are_what_is_read(s: Seq<char>)
    ensures
        is_json_text(s) <==> spec_parse_json(s) is Ok,
{
    if is_json_text(s) {
        theorem_json_text_is_read(s);
    }
    if spec_parse_json(s) is Ok {
        theorem_read_text_is_json_text(s);
    }
}

} // verus!
