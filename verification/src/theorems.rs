//! What holds of the grammar as a whole.

use crate::array_parser::{lemma_array_bounds, spec_array_items, spec_json_array};
use crate::bool_parser::{lemma_bool_bounds, spec_json_bool};
use crate::float_parser::{
    lemma_float_body_bounds,
    lemma_float_text_is_literal,
    spec_float_body,
    spec_json_float,
};
use crate::integer_parser::{
    after_minus,
    integer_value,
    lemma_integer_body_bounds,
    lemma_uint_is_digits,
    spec_integer_body,
    spec_json_integer,
};
use crate::node::{Node, NodeView};
use crate::null_parser::{lemma_null_bounds, spec_json_null};
use crate::object_parser::{
    lemma_object_bounds,
    spec_json_object,
    spec_object_member,
    spec_object_members,
};
use crate::string_parser::{lemma_string_literal_bounds, spec_json_string, spec_string_literal};
use crate::utils::{
    CharClass,
    JSONParseError,
    ParseFailure,
    has_tag,
    is_space,
    lemma_padded_char_bounds,
    lemma_run_is_maximal,
    padded_char,
    run_len,
};
use crate::{reads_as, spec_alternatives, spec_json_value, spec_parse_json};
use vstd::prelude::*;

verus! {

/// Reading a text has one outcome: two results of reading the same text are
/// both trees with the same view, or both the same error.
pub proof fn theorem_reading_is_stable(
    input: Seq<char>,
    first: Result<Node, JSONParseError>,
    second: Result<Node, JSONParseError>,
)
    requires
        reads_as(first, spec_parse_json(input)),
        reads_as(second, spec_parse_json(input)),
    ensures
        match (first, second) {
            (Ok(a), Ok(b)) => a@ == b@,
            (Err(a), Err(b)) => a == b,
            _ => false,
        },
{
}

/// A value, where one stands at `i`, takes at least one character and lies
/// inside the text.
pub proof fn theorem_value_bounds(s: Seq<char>, i: int)
    ensures
        spec_alternatives(s, i) matches Ok((end, _)) ==> i < end <= s.len(),
        spec_json_value(s, i) matches Ok((end, _)) ==> i < end <= s.len(),
{
    let start = i + run_len(s, i, CharClass::Space);
    lemma_alternatives_bounds(s, i);
    lemma_alternatives_bounds(s, start);
    if let Ok((end, _)) = spec_alternatives(s, start) {
        lemma_run_is_maximal(s, end, CharClass::Space);
    }
}

proof fn lemma_alternatives_bounds(s: Seq<char>, i: int)
    ensures
        spec_alternatives(s, i) matches Ok((end, _)) ==> 0 <= i < end <= s.len(),
{
    lemma_array_bounds(s, i);
    lemma_object_bounds(s, i);
    lemma_string_literal_bounds(s, i);
    lemma_float_body_bounds(s, i);
    lemma_integer_body_bounds(s, i);
    lemma_bool_bounds(s, i);
    lemma_null_bounds(s, i);
}

/// The failures that a content defect causes: an integer out of range or an
/// escape sequence that cannot be decoded. A rule fails in no other way than
/// softly or with one of these.
pub open spec fn soft_or_content(failure: ParseFailure) -> bool {
    failure == ParseFailure::Soft || failure == ParseFailure::Hard(JSONParseError::BadInt)
        || failure == ParseFailure::Hard(JSONParseError::BadEscape)
}

/// A value fails softly, with `BadInt` or with `BadEscape`, and in no other
/// way.
pub proof fn theorem_value_failures(s: Seq<char>, i: int)
    ensures
        spec_json_value(s, i) matches Err(failure) ==> soft_or_content(failure),
    decreases s.len() - i, 3int,
{
    let start = i + run_len(s, i, CharClass::Space);
    if 0 <= i <= s.len() {
        lemma_run_is_maximal(s, i, CharClass::Space);
    }
    lemma_alternatives_failures(s, start);
}

proof fn lemma_alternatives_failures(s: Seq<char>, i: int)
    ensures
        spec_alternatives(s, i) matches Err(failure) ==> soft_or_content(failure),
    decreases s.len() - i, 2int,
{
    lemma_array_failures(s, i);
    lemma_object_failures(s, i);
}

proof fn lemma_array_failures(s: Seq<char>, i: int)
    ensures
        spec_json_array(s, i) matches Err(failure) ==> soft_or_content(failure),
    decreases s.len() - i, 1int,
{
    if let Some(first) = padded_char(s, i, '[') {
        lemma_padded_char_bounds(s, i, '[');
        lemma_array_items_failures(s, first, first);
    }
}

proof fn lemma_array_items_failures(s: Seq<char>, pos: int, next: int)
    ensures
        spec_array_items(s, pos, next) matches Err(failure) ==> soft_or_content(failure),
    decreases s.len() - next, 5int,
{
    theorem_value_failures(s, next);
    if let Ok((end, item)) = spec_json_value(s, next) {
        if next < end {
            if let Some(after) = padded_char(s, end, ',') {
                lemma_padded_char_bounds(s, end, ',');
                lemma_array_items_failures(s, end, after);
            }
        }
    }
}

proof fn lemma_object_failures(s: Seq<char>, i: int)
    ensures
        spec_json_object(s, i) matches Err(failure) ==> soft_or_content(failure),
    decreases s.len() - i, 1int,
{
    if let Some(first) = padded_char(s, i, '{') {
        lemma_padded_char_bounds(s, i, '{');
        lemma_object_members_failures(s, first, first);
    }
}

proof fn lemma_object_members_failures(s: Seq<char>, pos: int, next: int)
    ensures
        spec_object_members(s, pos, next) matches Err(failure) ==> soft_or_content(failure),
    decreases s.len() - next, 5int,
{
    lemma_object_member_failures(s, next);
    if let Ok((end, member)) = spec_object_member(s, next) {
        if next < end {
            if let Some(after) = padded_char(s, end, ',') {
                lemma_padded_char_bounds(s, end, ',');
                lemma_object_members_failures(s, end, after);
            }
        }
    }
}

proof fn lemma_object_member_failures(s: Seq<char>, i: int)
    ensures
        spec_object_member(s, i) matches Err(failure) ==> soft_or_content(failure),
    decreases s.len() - i, 4int,
{
    if let Ok((key_end, key)) = spec_string_literal(s, i) {
        if let Some(colon_end) = padded_char(s, key_end, ':') {
            if i < key_end {
                lemma_padded_char_bounds(s, key_end, ':');
                theorem_value_failures(s, colon_end);
            }
        }
    }
}

/// Reading a text fails with `BadInt`, `BadEscape` or `Unparseable`, and never
/// with `BadFloat`.
pub proof fn theorem_reading_errors(input: Seq<char>)
    ensures
        spec_parse_json(input) matches Err(error) ==> error != JSONParseError::BadFloat,
{
    theorem_value_failures(input, 0);
}

/// A number with a fraction part or an exponent part is a float, and a number
/// without either is an integer: where a float literal stands at `i` the float
/// rule decides, and where only an integer literal stands there the integer
/// rule decides.
pub proof fn theorem_number_kinds(s: Seq<char>, i: int)
    ensures
        spec_float_body(s, i) is Some ==> spec_alternatives(s, i) == spec_json_float(s, i),
        spec_float_body(s, i) is None && spec_integer_body(s, i) is Some ==> spec_alternatives(s, i)
            == spec_json_integer(s, i),
{
    if spec_integer_body(s, i) is Some || spec_float_body(s, i) is Some {
        lemma_uint_is_digits(s, after_minus(s, i));
        assert(run_len(s, i, CharClass::Space) == 0);
    }
}

/// A float node comes from a float literal and holds its text; an integer node
/// comes from an integer literal that is no float literal and holds its number.
pub proof fn theorem_node_kinds(s: Seq<char>, i: int)
    ensures
        spec_alternatives(s, i) matches Ok((end, NodeView::Float(text))) ==> spec_float_body(s, i)
            == Some(end) && text == s.subrange(i, end),
        spec_alternatives(s, i) matches Ok((end, NodeView::Integer(number))) ==> spec_float_body(
            s,
            i,
        ) is None && spec_integer_body(s, i) == Some(end) && number == integer_value(
            s.subrange(i, end),
        ),
{
}

/// A member, where one stands at `i`, takes at least one character and lies
/// inside the text.
pub proof fn theorem_member_bounds(s: Seq<char>, i: int)
    ensures
        spec_object_member(s, i) matches Ok((end, _)) ==> i < end <= s.len(),
{
    lemma_string_literal_bounds(s, i);
    if let Ok((key_end, key)) = spec_string_literal(s, i) {
        if let Some(colon_end) = padded_char(s, key_end, ':') {
            lemma_padded_char_bounds(s, key_end, ':');
            theorem_value_bounds(s, colon_end);
        }
    }
}

/// A list of values or of members never fails softly: where the first item
/// does not match the list is empty, and behind an item the list goes on or
/// ends. So a list fails only where one of its items fails hard.
pub proof fn theorem_lists_fail_only_hard(s: Seq<char>, pos: int, next: int)
    ensures
        spec_array_items(s, pos, next) matches Err(failure) ==> failure != ParseFailure::Soft,
        spec_object_members(s, pos, next) matches Err(failure) ==> failure != ParseFailure::Soft,
    decreases s.len() - next,
{
    theorem_value_bounds(s, next);
    theorem_member_bounds(s, next);
    if let Ok((end, item)) = spec_json_value(s, next) {
        if let Some(after) = padded_char(s, end, ',') {
            lemma_padded_char_bounds(s, end, ',');
            theorem_lists_fail_only_hard(s, end, after);
        }
    }
    if let Ok((end, member)) = spec_object_member(s, next) {
        if let Some(after) = padded_char(s, end, ',') {
            lemma_padded_char_bounds(s, end, ',');
            theorem_lists_fail_only_hard(s, end, after);
        }
    }
}

/// Whether every node of `items` is well formed.
pub open spec fn all_well_formed(items: Seq<NodeView>) -> bool {
    forall|k: int| 0 <= k < items.len() ==> (#[trigger] items[k]).well_formed()
}

/// Whether the value of every member of `members` is well formed.
pub open spec fn all_values_well_formed(members: Seq<(Seq<char>, NodeView)>) -> bool {
    forall|k: int| 0 <= k < members.len() ==> (#[trigger] members[k]).1.well_formed()
}

/// Every float of a value that the grammar yields holds the text of a float
/// literal, however deep it lies in the tree.
pub proof fn theorem_values_are_well_formed(s: Seq<char>, i: int)
    ensures
        spec_json_value(s, i) matches Ok((_, value)) ==> value.well_formed(),
    decreases s.len() - i, 3int,
{
    let start = i + run_len(s, i, CharClass::Space);
    if 0 <= i <= s.len() {
        lemma_run_is_maximal(s, i, CharClass::Space);
    }
    lemma_alternatives_well_formed(s, start);
}

proof fn lemma_alternatives_well_formed(s: Seq<char>, i: int)
    ensures
        spec_alternatives(s, i) matches Ok((_, value)) ==> value.well_formed(),
    decreases s.len() - i, 2int,
{
    lemma_array_well_formed(s, i);
    lemma_object_well_formed(s, i);
    lemma_float_text_is_literal(s, i);
}

proof fn lemma_array_well_formed(s: Seq<char>, i: int)
    ensures
        spec_json_array(s, i) matches Ok((_, value)) ==> value.well_formed(),
    decreases s.len() - i, 1int,
{
    if let Some(first) = padded_char(s, i, '[') {
        lemma_padded_char_bounds(s, i, '[');
        lemma_array_items_well_formed(s, first, first);
    }
}

proof fn lemma_array_items_well_formed(s: Seq<char>, pos: int, next: int)
    ensures
        spec_array_items(s, pos, next) matches Ok((_, items)) ==> all_well_formed(items),
    decreases s.len() - next, 5int,
{
    theorem_values_are_well_formed(s, next);
    if let Ok((end, item)) = spec_json_value(s, next) {
        if next < end {
            if let Some(after) = padded_char(s, end, ',') {
                lemma_padded_char_bounds(s, end, ',');
                lemma_array_items_well_formed(s, end, after);
                if let Ok((_, more)) = spec_array_items(s, end, after) {
                    let items = seq![item] + more;
                    assert forall|k: int| 0 <= k < items.len() implies (
                    #[trigger] items[k]).well_formed() by {
                        if k > 0 {
                            assert(items[k] == more[k - 1]);
                        }
                    }
                }
            }
        }
    }
}

proof fn lemma_object_well_formed(s: Seq<char>, i: int)
    ensures
        spec_json_object(s, i) matches Ok((_, value)) ==> value.well_formed(),
    decreases s.len() - i, 1int,
{
    if let Some(first) = padded_char(s, i, '{') {
        lemma_padded_char_bounds(s, i, '{');
        lemma_object_members_well_formed(s, first, first);
    }
}

proof fn lemma_object_members_well_formed(s: Seq<char>, pos: int, next: int)
    ensures
        spec_object_members(s, pos, next) matches Ok((_, members)) ==> all_values_well_formed(
            members,
        ),
    decreases s.len() - next, 5int,
{
    lemma_object_member_well_formed(s, next);
    if let Ok((end, member)) = spec_object_member(s, next) {
        if next < end {
            if let Some(after) = padded_char(s, end, ',') {
                lemma_padded_char_bounds(s, end, ',');
                lemma_object_members_well_formed(s, end, after);
                if let Ok((_, more)) = spec_object_members(s, end, after) {
                    let members = seq![member] + more;
                    assert forall|k: int| 0 <= k < members.len() implies (
                    #[trigger] members[k]).1.well_formed() by {
                        if k > 0 {
                            assert(members[k] == more[k - 1]);
                        }
                    }
                }
            }
        }
    }
}

proof fn lemma_object_member_well_formed(s: Seq<char>, i: int)
    ensures
        spec_object_member(s, i) matches Ok((_, member)) ==> member.1.well_formed(),
    decreases s.len() - i, 4int,
{
    if let Ok((key_end, key)) = spec_string_literal(s, i) {
        if let Some(colon_end) = padded_char(s, key_end, ':') {
            if i < key_end {
                lemma_padded_char_bounds(s, key_end, ':');
                theorem_values_are_well_formed(s, colon_end);
            }
        }
    }
}

/// A tree that reading a text yields is well formed.
pub proof fn theorem_reading_is_well_formed(input: Seq<char>)
    ensures
        spec_parse_json(input) matches Ok(value) ==> value.well_formed(),
{
    theorem_values_are_well_formed(input, 0);
}

/// Whether a rule decides at its place: it matches or fails hard, so that no
/// later rule is tried.
pub open spec fn decides<T>(outcome: Result<(int, T), ParseFailure>) -> bool {
    !(outcome matches Err(ParseFailure::Soft))
}

/// 1 where `b` holds, 0 where it does not.
pub open spec fn count(b: bool) -> int {
    if b {
        1
    } else {
        0
    }
}

/// The kinds of value exclude each other: of the rules for arrays, objects,
/// strings, numbers, booleans and null at most one decides at a given place,
/// because each asks for another first character. So the order in which they
/// are tried matters only between the two rules for numbers.
pub proof fn theorem_kinds_exclude_each_other(s: Seq<char>, i: int)
    ensures
        count(decides(spec_json_array(s, i))) + count(decides(spec_json_object(s, i))) + count(
            decides(spec_json_string(s, i)),
        ) + count(decides(spec_json_float(s, i)) || decides(spec_json_integer(s, i))) + count(
            decides(spec_json_bool(s, i)),
        ) + count(decides(spec_json_null(s, i))) <= 1,
{
    reveal_strlit("false");
    reveal_strlit("true");
    reveal_strlit("null");
    if 0 <= i < s.len() {
        if has_tag(s, i, "false"@) {
            assert(s.subrange(i, i + 5)[0] == 'f');
        }
        if has_tag(s, i, "true"@) {
            assert(s.subrange(i, i + 4)[0] == 't');
        }
        if has_tag(s, i, "null"@) {
            assert(s.subrange(i, i + 4)[0] == 'n');
        }
        if !is_space(s[i]) {
            assert(run_len(s, i, CharClass::Space) == 0);
        }
    }
}

} // verus!
