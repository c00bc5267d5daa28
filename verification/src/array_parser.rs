//! Arrays: a comma-separated list of values between square brackets.

use crate::node::{Node, NodeView, lemma_array_view, views_of};
use crate::utils::{
    ParseFailure,
    answers,
    answers_at,
    extend,
    from_start,
    lemma_padded_char_bounds,
    padded_char,
    padded_char_at,
    to_chars,
};
use crate::{json_value_at, spec_json_value};
use vstd::prelude::*;

verus! {

/// The list of values of which the next is expected at `next`, where the
/// values that were taken so far end at `pos`.
///
/// A value that fails softly ends the list at `pos`, so that a comma with no
/// value behind it stays outside the list. A value that fails hard fails the
/// list. A value that takes no text ends the list with a soft failure.
pub open spec fn spec_array_items(s: Seq<char>, pos: int, next: int) -> Result<
    (int, Seq<NodeView>),
    ParseFailure,
>
    decreases s.len() - next, 5int,
{
    match spec_json_value(s, next) {
        Ok((end, item)) => {
            if next < end {
                match padded_char(s, end, ',') {
                    Some(after) => {
                        proof {
                            lemma_padded_char_bounds(s, end, ',');
                        }
                        extend(seq![item], spec_array_items(s, end, after))
                    },
                    None => Ok((end, seq![item])),
                }
            } else {
                Err(ParseFailure::Soft)
            }
        },
        Err(ParseFailure::Soft) => Ok((pos, Seq::empty())),
        Err(hard) => Err(hard),
    }
}

/// The array rule at `i`: `[`, a list of values separated by commas, `]`, with
/// optional whitespace around the brackets, the commas and the values.
pub open spec fn spec_json_array(s: Seq<char>, i: int) -> Result<(int, NodeView), ParseFailure>
    decreases s.len() - i, 1int,
{
    match padded_char(s, i, '[') {
        Some(first) => {
            proof {
                lemma_padded_char_bounds(s, i, '[');
            }
            match spec_array_items(s, first, first) {
                Ok((end, items)) => match padded_char(s, end, ']') {
                    Some(close) => Ok((close, NodeView::Array(items))),
                    None => Err(ParseFailure::Soft),
                },
                Err(failure) => Err(failure),
            }
        },
        None => Err(ParseFailure::Soft),
    }
}

/// Applies the array rule at `i`.
pub fn json_array_at(chars: &[char], i: usize) -> (r: Result<(usize, Node), ParseFailure>)
    ensures
        answers_at(r, spec_json_array(chars@, i as int)),
        r matches Ok((end, _)) ==> i < end <= chars.len(),
    decreases chars.len() - i, 1int,
{
    let first = match padded_char_at(chars, i, '[') {
        Some(first) => first,
        None => {
            return Err(ParseFailure::Soft);
        },
    };
    let mut items: Vec<Node> = Vec::new();
    let mut pos: usize = first;
    let mut next: usize = first;
    loop
        invariant_except_break
            spec_array_items(chars@, first as int, first as int) == extend(
                views_of(items@),
                spec_array_items(chars@, pos as int, next as int),
            ),
        invariant
            i < first <= pos <= next <= chars.len(),
            padded_char(chars@, i as int, '[') == Some(first as int),
        ensures
            spec_array_items(chars@, first as int, first as int) == Ok::<
                (int, Seq<NodeView>),
                ParseFailure,
            >((pos as int, views_of(items@))),
        decreases chars.len() - next,
    {
        match json_value_at(chars, next) {
            Ok((end, item)) => {
                let ghost before = views_of(items@);
                items.push(item);
                proof {
                    assert(views_of(items@) == before + seq![item@]);
                }
                pos = end;
                match padded_char_at(chars, end, ',') {
                    Some(after) => {
                        proof {
                            let rest = spec_array_items(chars@, end as int, after as int);
                            if let Ok((e, more)) = rest {
                                assert(before + (seq![item@] + more) == (before + seq![item@])
                                    + more);
                            }
                        }
                        next = after;
                    },
                    None => {
                        next = end;
                        break ;
                    },
                }
            },
            Err(ParseFailure::Soft) => {
                proof {
                    assert(views_of(items@) + Seq::<NodeView>::empty() == views_of(items@));
                }
                break ;
            },
            Err(hard) => {
                return Err(hard);
            },
        }
    }
    match padded_char_at(chars, pos, ']') {
        Some(close) => {
            proof {
                lemma_array_view(items);
            }
            Ok((close, Node::Array(items)))
        },
        None => Err(ParseFailure::Soft),
    }
}

/// Applies the array rule at the start of `input`.
pub fn json_array(input: &str) -> (r: Result<(&str, Node), ParseFailure>)
    ensures
        answers(r, input@, spec_json_array(input@, 0)),
{
    let chars = to_chars(input);
    from_start(input, chars.len(), json_array_at(chars.as_slice(), 0))
}

/// A list of values does not end before the values that were taken so far.
pub proof fn lemma_array_items_end(s: Seq<char>, pos: int, next: int)
    requires
        pos <= next,
    ensures
        spec_array_items(s, pos, next) matches Ok((end, _)) ==> pos <= end,
    decreases s.len() - next,
{
    if let Ok((end, item)) = spec_json_value(s, next) {
        if next < end {
            if let Some(after) = padded_char(s, end, ',') {
                lemma_padded_char_bounds(s, end, ',');
                lemma_array_items_end(s, end, after);
            }
        }
    }
}

/// An array, where one stands at `i`, is not empty and lies inside the text.
pub proof fn lemma_array_bounds(s: Seq<char>, i: int)
    ensures
        spec_json_array(s, i) matches Ok((end, _)) ==> 0 <= i < end <= s.len(),
{
    if let Some(first) = padded_char(s, i, '[') {
        lemma_padded_char_bounds(s, i, '[');
        lemma_array_items_end(s, first, first);
        if let Ok((end, _)) = spec_array_items(s, first, first) {
            lemma_padded_char_bounds(s, end, ']');
        }
    }
}

} // verus!
