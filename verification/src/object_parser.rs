//! Objects: a comma-separated list of members between curly brackets. A member
//! is a string literal, a colon and a value.

use crate::node::{Node, NodeView, lemma_object_view, member_views_of};
use crate::string_parser::{spec_string_literal, string_literal_at};
use crate::utils::{
    ParseFailure,
    answers,
    answers_at,
    extend,
    from_start,
    lemma_padded_char_bounds,
    padded_char,
    padded_char_at,
    to_chars,
};
use crate::{json_value_at, spec_json_value};
use vstd::prelude::*;

verus! {

/// The member rule at `i`: a string literal as the key, a colon with optional
/// whitespace around it, and a value.
pub open spec fn spec_object_member(s: Seq<char>, i: int) -> Result<
    (int, (Seq<char>, NodeView)),
    ParseFailure,
>
    decreases s.len() - i, 4int,
{
    match spec_string_literal(s, i) {
        Ok((key_end, key)) => match padded_char(s, key_end, ':') {
            Some(colon_end) => {
                if i < key_end {
                    proof {
                        lemma_padded_char_bounds(s, key_end, ':');
                    }
                    match spec_json_value(s, colon_end) {
                        Ok((end, value)) => Ok((end, (key, value))),
                        Err(failure) => Err(failure),
                    }
                } else {
                    Err(ParseFailure::Soft)
                }
            },
            None => Err(ParseFailure::Soft),
        },
        Err(failure) => Err(failure),
    }
}

/// The list of members of which the next is expected at `next`, where the
/// members that were taken so far end at `pos`.
///
/// A member that fails softly ends the list at `pos`, so that a comma with no
/// member behind it stays outside the list. A member that fails hard fails the
/// list. Members are kept in the order of the text, whatever their keys.
pub open spec fn spec_object_members(s: Seq<char>, pos: int, next: int) -> Result<
    (int, Seq<(Seq<char>, NodeView)>),
    ParseFailure,
>
    decreases s.len() - next, 5int,
{
    match spec_object_member(s, next) {
        Ok((end, member)) => {
            if next < end {
                match padded_char(s, end, ',') {
                    Some(after) => {
                        proof {
                            lemma_padded_char_bounds(s, end, ',');
                        }
                        extend(seq![member], spec_object_members(s, end, after))
                    },
                    None => Ok((end, seq![member])),
                }
            } else {
                Err(ParseFailure::Soft)
            }
        },
        Err(ParseFailure::Soft) => Ok((pos, Seq::empty())),
        Err(hard) => Err(hard),
    }
}

/// The object rule at `i`: `{`, a list of members separated by commas, `}`,
/// with optional whitespace around the brackets and the commas.
pub open spec fn spec_json_object(s: Seq<char>, i: int) -> Result<(int, NodeView), ParseFailure>
    decreases s.len() - i, 1int,
{
    match padded_char(s, i, '{') {
        Some(first) => {
            proof {
                lemma_padded_char_bounds(s, i, '{');
            }
            match spec_object_members(s, first, first) {
                Ok((end, members)) => match padded_char(s, end, '}') {
                    Some(close) => Ok((close, NodeView::Object(members))),
                    None => Err(ParseFailure::Soft),
                },
                Err(failure) => Err(failure),
            }
        },
        None => Err(ParseFailure::Soft),
    }
}

/// Applies the member rule at `i`.
pub fn object_member_at(chars: &[char], i: usize) -> (r: Result<
    (usize, (String, Node)),
    ParseFailure,
>)
    ensures
        answers_at(r, spec_object_member(chars@, i as int)),
        r matches Ok((end, _)) ==> i < end <= chars.len(),
    decreases chars.len() - i, 4int,
{
    let (key_end, key) = match string_literal_at(chars, i) {
        Ok(found) => found,
        Err(failure) => {
            return Err(failure);
        },
    };
    let colon_end = match padded_char_at(chars, key_end, ':') {
        Some(colon_end) => colon_end,
        None => {
            return Err(ParseFailure::Soft);
        },
    };
    match json_value_at(chars, colon_end) {
        Ok((end, value)) => Ok((end, (key, value))),
        Err(failure) => Err(failure),
    }
}

/// Applies the object rule at `i`.
pub fn json_object_at(chars: &[char], i: usize) -> (r: Result<(usize, Node), ParseFailure>)
    ensures
        answers_at(r, spec_json_object(chars@, i as int)),
        r matches Ok((end, _)) ==> i < end <= chars.len(),
    decreases chars.len() - i, 1int,
{
    let first = match padded_char_at(chars, i, '{') {
        Some(first) => first,
        None => {
            return Err(ParseFailure::Soft);
        },
    };
    let mut members: Vec<(String, Node)> = Vec::new();
    let mut pos: usize = first;
    let mut next: usize = first;
    loop
        invariant_except_break
            spec_object_members(chars@, first as int, first as int) == extend(
                member_views_of(members@),
                spec_object_members(chars@, pos as int, next as int),
            ),
        invariant
            i < first <= pos <= next <= chars.len(),
            padded_char(chars@, i as int, '{') == Some(first as int),
        ensures
            spec_object_members(chars@, first as int, first as int) == Ok::<
                (int, Seq<(Seq<char>, NodeView)>),
                ParseFailure,
            >((pos as int, member_views_of(members@))),
        decreases chars.len() - next,
    {
        match object_member_at(chars, next) {
            Ok((end, member)) => {
                let ghost before = member_views_of(members@);
                let ghost added = (member.0@, member.1@);
                members.push(member);
                proof {
                    assert(member_views_of(members@) == before + seq![added]);
                }
                pos = end;
                match padded_char_at(chars, end, ',') {
                    Some(after) => {
                        proof {
                            let rest = spec_object_members(chars@, end as int, after as int);
                            if let Ok((e, more)) = rest {
                                assert(before + (seq![added] + more) == (before + seq![added])
                                    + more);
                            }
                        }
                        next = after;
                    },
                    None => {
                        next = end;
                        break ;
                    },
                }
            },
            Err(ParseFailure::Soft) => {
                proof {
                    assert(member_views_of(members@) + Seq::<(Seq<char>, NodeView)>::empty()
                        == member_views_of(members@));
                }
                break ;
            },
            Err(hard) => {
                return Err(hard);
            },
        }
    }
    match padded_char_at(chars, pos, '}') {
        Some(close) => {
            proof {
                lemma_object_view(members);
            }
            Ok((close, Node::Object(members)))
        },
        None => Err(ParseFailure::Soft),
    }
}

/// Applies the member rule at the start of `input`.
pub fn object_member(input: &str) -> (r: Result<(&str, (String, Node)), ParseFailure>)
    ensures
        answers(r, input@, spec_object_member(input@, 0)),
{
    let chars = to_chars(input);
    from_start(input, chars.len(), object_member_at(chars.as_slice(), 0))
}

/// Applies the object rule at the start of `input`.
pub fn json_object(input: &str) -> (r: Result<(&str, Node), ParseFailure>)
    ensures
        answers(r, input@, spec_json_object(input@, 0)),
{
    let chars = to_chars(input);
    from_start(input, chars.len(), json_object_at(chars.as_slice(), 0))
}

/// A list of members does not end before the members that were taken so far.
pub proof fn lemma_object_members_end(s: Seq<char>, pos: int, next: int)
    requires
        pos <= next,
    ensures
        spec_object_members(s, pos, next) matches Ok((end, _)) ==> pos <= end,
    decreases s.len() - next,
{
    if let Ok((end, member)) = spec_object_member(s, next) {
        if next < end {
            if let Some(after) = padded_char(s, end, ',') {
                lemma_padded_char_bounds(s, end, ',');
                lemma_object_members_end(s, end, after);
            }
        }
    }
}

/// An object, where one stands at `i`, is not empty and lies inside the text.
pub proof fn lemma_object_bounds(s: Seq<char>, i: int)
    ensures
        spec_json_object(s, i) matches Ok((end, _)) ==> 0 <= i < end <= s.len(),
{
    if let Some(first) = padded_char(s, i, '{') {
        lemma_padded_char_bounds(s, i, '{');
        lemma_object_members_end(s, first, first);
        if let Ok((end, _)) = spec_object_members(s, first, first) {
            lemma_padded_char_bounds(s, end, '}');
        }
    }
}

} // verus!
