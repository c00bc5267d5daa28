//! Every JSON text is read with success.

use crate::array_parser::{
    spec_array_items,
    spec_json_array,
};
use crate::{
    spec_alternatives,
    spec_json_value,
    spec_parse_json,
};
use crate::object_parser::{
    spec_json_object,
    spec_object_member,
    spec_object_members,
};
use crate::string_parser::spec_string_literal;
use crate::syntax::{
    Syntax,
    after_spaces,
    can_follow,
    is_json_text,
    item_spans,
    laid_out,
    lemma_after_spaces_twice,
    lemma_key_start,
    lemma_no_value_at_bracket,
    lemma_separator_is_padded,
    lemma_spaces_are_the_run,
    lemma_string_token,
    lemma_token_is_read,
    lemma_valid_start,
    member_spans,
    separator,
    spaces,
    valid,
    valid_key,
};
use crate::utils::{
    CharClass,
    ParseFailure,
    has_char,
    is_space,
    padded_char,
    run_len,
};
use vstd::prelude::*;

verus! {

/// The value rule reads what one of the rules for values reads, with the
/// whitespace before and after it.
proof fn lemma_value_from_alternatives(s: Seq<char>, i: int, start: int, target: int)
    requires
        spaces(s, i, start),
        start < s.len(),
        !is_space(s[start]),
        spec_alternatives(s, start) matches Ok((e, _)) && after_spaces(s, e) == target,
    ensures
        spec_json_value(s, i) matches Ok((end, _)) && end == target,
{
    lemma_spaces_are_the_run(s, i, start);
}

/// The array rule reads an opening bracket, a list that ends at the closing
/// bracket, and the closing bracket with the whitespace behind it.
proof fn lemma_array_from_parts(s: Seq<char>, start: int, end: int)
    requires
        has_char(s, start, '['),
        has_char(s, end - 1, ']'),
        spec_array_items(s, after_spaces(s, start + 1), after_spaces(s, start + 1)) matches Ok(
            (e, _),
        ) && e == end - 1,
    ensures
        spec_alternatives(s, start) matches Ok((e, _)) && e == after_spaces(s, end),
{
    assert(run_len(s, start, CharClass::Space) == 0);
    assert(run_len(s, end - 1, CharClass::Space) == 0);
    assert(padded_char(s, start, '[') == Some(after_spaces(s, start + 1)));
    assert(padded_char(s, end - 1, ']') == Some(after_spaces(s, end)));
    assert(spec_json_array(s, start) matches Ok((e, _)) && e == after_spaces(s, end));
}

/// The object rule reads an opening bracket, a list that ends at the closing
/// bracket, and the closing bracket with the whitespace behind it.
proof fn lemma_object_from_parts(s: Seq<char>, start: int, end: int)
    requires
        has_char(s, start, '{'),
        has_char(s, end - 1, '}'),
        spec_object_members(s, after_spaces(s, start + 1), after_spaces(s, start + 1)) matches Ok(
            (e, _),
        ) && e == end - 1,
    ensures
        spec_alternatives(s, start) matches Ok((e, _)) && e == after_spaces(s, end),
{
    assert(run_len(s, start, CharClass::Space) == 0);
    assert(run_len(s, end - 1, CharClass::Space) == 0);
    assert(padded_char(s, start, '{') == Some(after_spaces(s, start + 1)));
    assert(padded_char(s, end - 1, '}') == Some(after_spaces(s, end)));
    assert(padded_char(s, start, '[') is None);
    assert(spec_json_array(s, start) matches Err(ParseFailure::Soft));
    assert(spec_json_object(s, start) matches Ok((e, _)) && e == after_spaces(s, end));
}

/// A list is empty where a closing bracket stands in place of its first item.
proof fn lemma_empty_list(s: Seq<char>, at: int)
    requires
        has_char(s, at, ']') || has_char(s, at, '}'),
    ensures
        spec_array_items(s, at, at) matches Ok((e, _)) && e == at,
        spec_object_members(s, at, at) matches Ok((e, _)) && e == at,
{
    lemma_no_value_at_bracket(s, at);
}

/// A list goes on behind an item that a comma follows.
proof fn lemma_items_go_on(s: Seq<char>, pos: int, next: int, e: int, after: int, target: int)
    requires
        spec_json_value(s, next) matches Ok((end, _)) && end == e,
        next < e,
        padded_char(s, e, ',') == Some(after),
        spec_array_items(s, e, after) matches Ok((end, _)) && end == target,
    ensures
        spec_array_items(s, pos, next) matches Ok((end, _)) && end == target,
{
}

/// A list ends behind an item that no comma follows.
proof fn lemma_items_stop(s: Seq<char>, pos: int, next: int, e: int)
    requires
        spec_json_value(s, next) matches Ok((end, _)) && end == e,
        next < e,
        padded_char(s, e, ',') is None,
    ensures
        spec_array_items(s, pos, next) matches Ok((end, _)) && end == e,
{
}

/// A list goes on behind a member that a comma follows.
proof fn lemma_members_go_on(s: Seq<char>, pos: int, next: int, e: int, after: int, target: int)
    requires
        spec_object_member(s, next) matches Ok((end, _)) && end == e,
        next < e,
        padded_char(s, e, ',') == Some(after),
        spec_object_members(s, e, after) matches Ok((end, _)) && end == target,
    ensures
        spec_object_members(s, pos, next) matches Ok((end, _)) && end == target,
{
}

/// A list ends behind a member that no comma follows.
proof fn lemma_members_stop(s: Seq<char>, pos: int, next: int, e: int)
    requires
        spec_object_member(s, next) matches Ok((end, _)) && end == e,
        next < e,
        padded_char(s, e, ',') is None,
    ensures
        spec_object_members(s, pos, next) matches Ok((end, _)) && end == e,
{
}

/// What follows a part of a list: where a comma with optional whitespace
/// stands between the part and the next one, the padded comma behind the part
/// leads to the next part; where whitespace and the closing bracket stand
/// behind it, no padded comma stands there. Either way the part is followed by
/// what can follow a value.
proof fn lemma_behind_a_part(s: Seq<char>, end: int, next: Option<int>, close_at: int, close: char)
    requires
        0 <= end <= s.len(),
        close == ']' || close == '}',
        match next {
            Some(n) => separator(s, end, n, ',') && (n == s.len() || !is_space(s[n])),
            None => spaces(s, end, close_at) && has_char(s, close_at, close),
        },
    ensures
        can_follow(s, end),
        match next {
            Some(n) => padded_char(s, after_spaces(s, end), ',') == Some(n),
            None => padded_char(s, after_spaces(s, end), ',') is None && after_spaces(s, end)
                == close_at,
        },
{
    lemma_after_spaces_twice(s, end);
    match next {
        Some(n) => {
            lemma_separator_is_padded(s, end, n, ',');
        },
        None => {
            lemma_spaces_are_the_run(s, end, close_at);
            if end < close_at {
                assert(is_space(s[end]));
            }
        },
    }
}

/// Every value of the shape `t` is read by the value rule, from the
/// whitespace before it to the end of the whitespace behind it.
pub proof fn lemma_value_is_read(s: Seq<char>, t: Syntax, i: int)
    requires
        valid(s, t),
        spaces(s, i, t.start()),
        can_follow(s, t.end()),
    ensures
        spec_json_value(s, i) matches Ok((end, _)) && end == after_spaces(s, t.end()),
    decreases t, 0int,
{
    lemma_valid_start(s, t);
    lemma_after_spaces_twice(s, t.end());
    match t {
        Syntax::Token { start, end } => {
            lemma_token_is_read(s, start, end);
        },
        Syntax::Array { start, end, items } => {
            let first = after_spaces(s, start + 1);
            if items.len() == 0 {
                lemma_spaces_are_the_run(s, start + 1, end - 1);
                lemma_empty_list(s, end - 1);
            } else {
                assert(item_spans(items)[0] == (items[0].start(), items[0].end()));
                lemma_valid_start(s, items[0]);
                lemma_spaces_are_the_run(s, start + 1, items[0].start());
                lemma_items_are_read(s, start, end, items, 0, first);
            }
            lemma_array_from_parts(s, start, end);
        },
        Syntax::Object { start, end, members } => {
            let first = after_spaces(s, start + 1);
            if members.len() == 0 {
                lemma_spaces_are_the_run(s, start + 1, end - 1);
                lemma_empty_list(s, end - 1);
            } else {
                assert(member_spans(members)[0] == (members[0].0, members[0].2.end()));
                lemma_key_start(s, members[0].0, members[0].1, members[0].2.start());
                lemma_spaces_are_the_run(s, start + 1, members[0].0);
                lemma_members_are_read(s, start, end, members, 0, first);
            }
            lemma_object_from_parts(s, start, end);
        },
    }
    lemma_value_from_alternatives(s, i, t.start(), after_spaces(s, t.end()));
}

/// The items of an array from the one with the index `k` on are read by the
/// list rule, up to the closing bracket.
proof fn lemma_items_are_read(
    s: Seq<char>,
    start: int,
    end: int,
    items: Seq<Syntax>,
    k: int,
    pos: int,
)
    requires
        laid_out(s, start, end, '[', ']', item_spans(items)),
        forall|j: int| 0 <= j < items.len() ==> valid(s, #[trigger] items[j]),
        0 <= k < items.len(),
    ensures
        spec_array_items(s, pos, items[k].start()) matches Ok((e, _)) && e == end - 1,
    decreases items, items.len() - k,
{
    let item = items[k];
    let spans = item_spans(items);
    assert(spans[k] == (item.start(), item.end()));
    lemma_valid_start(s, item);
    let e = after_spaces(s, item.end());
    if k + 1 < items.len() {
        let next = items[k + 1];
        assert(spans[k + 1] == (next.start(), next.end()));
        lemma_valid_start(s, next);
        lemma_behind_a_part(s, item.end(), Some(next.start()), end - 1, ']');
        lemma_value_is_read(s, item, item.start());
        lemma_items_are_read(s, start, end, items, k + 1, e);
        lemma_after_spaces_twice(s, item.end());
        lemma_items_go_on(s, pos, item.start(), e, next.start(), end - 1);
    } else {
        assert(spans.last() == spans[k]);
        lemma_behind_a_part(s, item.end(), None, end - 1, ']');
        lemma_value_is_read(s, item, item.start());
        lemma_after_spaces_twice(s, item.end());
        lemma_items_stop(s, pos, item.start(), e);
    }
}

/// A member is read by the member rule, up to the end of the whitespace behind
/// its value.
proof fn lemma_member_is_read(s: Seq<char>, member: (int, int, Syntax))
    requires
        valid_key(s, member.0, member.1, member.2.start()),
        valid(s, member.2),
        can_follow(s, member.2.end()),
    ensures
        spec_object_member(s, member.0) matches Ok((e, _)) && e == after_spaces(
            s,
            member.2.end(),
        ),
        member.0 < member.1 <= member.2.start() < member.2.end(),
    decreases member, 0int,
{
    reveal(valid_key);
    lemma_string_token(s, member.0, member.1);
    lemma_valid_start(s, member.2);
    lemma_separator_is_padded(s, member.1, member.2.start(), ':');
    lemma_value_is_read(s, member.2, member.2.start());
    lemma_member_from_parts(
        s,
        member.0,
        member.1,
        member.2.start(),
        after_spaces(s, member.2.end()),
    );
}

/// The member rule reads a key, a padded colon and a value.
proof fn lemma_member_from_parts(
    s: Seq<char>,
    key_start: int,
    key_end: int,
    value_start: int,
    target: int,
)
    requires
        spec_string_literal(s, key_start) matches Ok((e, _)) && e == key_end,
        key_start < key_end,
        padded_char(s, key_end, ':') == Some(value_start),
        spec_json_value(s, value_start) matches Ok((e, _)) && e == target,
    ensures
        spec_object_member(s, key_start) matches Ok((e, _)) && e == target,
        key_end <= value_start,
{
    crate::utils::lemma_padded_char_bounds(s, key_end, ':');
}

/// The members of an object from the one with the index `k` on are read by the
/// list rule, up to the closing bracket.
proof fn lemma_members_are_read(
    s: Seq<char>,
    start: int,
    end: int,
    members: Seq<(int, int, Syntax)>,
    k: int,
    pos: int,
)
    requires
        laid_out(s, start, end, '{', '}', member_spans(members)),
        forall|j: int|
            0 <= j < members.len() ==> valid_key(
                s,
                (#[trigger] members[j]).0,
                members[j].1,
                members[j].2.start(),
            ) && valid(s, members[j].2),
        0 <= k < members.len(),
    ensures
        spec_object_members(s, pos, members[k].0) matches Ok((e, _)) && e == end - 1,
    decreases members, members.len() - k,
{
    let member = members[k];
    let spans = member_spans(members);
    assert(spans[k] == (member.0, member.2.end()));
    lemma_valid_start(s, member.2);
    let e = after_spaces(s, member.2.end());
    if k + 1 < members.len() {
        let next = members[k + 1];
        assert(spans[k + 1] == (next.0, next.2.end()));
        lemma_key_start(s, next.0, next.1, next.2.start());
        lemma_behind_a_part(s, member.2.end(), Some(next.0), end - 1, '}');
        lemma_member_is_read(s, member);
        lemma_members_are_read(s, start, end, members, k + 1, e);
        lemma_after_spaces_twice(s, member.2.end());
        lemma_members_go_on(s, pos, member.0, e, next.0, end - 1);
    } else {
        assert(spans.last() == spans[k]);
        lemma_behind_a_part(s, member.2.end(), None, end - 1, '}');
        lemma_member_is_read(s, member);
        lemma_after_spaces_twice(s, member.2.end());
        lemma_members_stop(s, pos, member.0, e);
    }
}

/// Every JSON text is read with success.
pub proof fn theorem_json_text_is_read(s: Seq<char>)
    requires
        is_json_text(s),
    ensures
        spec_parse_json(s) is Ok,
{
    let t = choose|t: Syntax| #[trigger]
        valid(s, t) && spaces(s, 0, t.start()) && spaces(s, t.end(), s.len() as int);
    lemma_valid_start(s, t);
    if t.end() < s.len() {
        assert(is_space(s[t.end()]));
    }
    lemma_value_is_read(s, t, 0);
    lemma_spaces_are_the_run(s, t.end(), s.len() as int);
}

} // verus!
