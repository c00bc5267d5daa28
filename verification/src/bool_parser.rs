//! The literals `false` and `true`.

use crate::node::{Node, NodeView};
use crate::utils::{ParseFailure, answers, answers_at, from_start, has_tag, tag_at, to_chars};
use vstd::prelude::*;

verus! {

/// The boolean rule at `i`: the literal `false` or the literal `true`. What
/// follows the literal is not looked at.
pub open spec fn spec_json_bool(s: Seq<char>, i: int) -> Result<(int, NodeView), ParseFailure> {
    if has_tag(s, i, "false"@) {
        Ok((i + 5, NodeView::Bool(false)))
    } else if has_tag(s, i, "true"@) {
        Ok((i + 4, NodeView::Bool(true)))
    } else {
        Err(ParseFailure::Soft)
    }
}

/// Applies the boolean rule at `i`.
pub fn json_bool_at(chars: &[char], i: usize) -> (r: Result<(usize, Node), ParseFailure>)
    ensures
        answers_at(r, spec_json_bool(chars@, i as int)),
        r matches Ok((end, _)) ==> i < end <= chars.len(),
{
    proof {
        reveal_strlit("false");
        reveal_strlit("true");
    }
    match tag_at(chars, i, "false") {
        Some(end) => Ok((end, Node::Bool(false))),
        None => match tag_at(chars, i, "true") {
            Some(end) => Ok((end, Node::Bool(true))),
            None => Err(ParseFailure::Soft),
        },
    }
}

/// Applies the boolean rule at the start of `input`.
pub fn json_bool(input: &str) -> (r: Result<(&str, Node), ParseFailure>)
    ensures
        answers(r, input@, spec_json_bool(input@, 0)),
{
    let chars = to_chars(input);
    from_start(input, chars.len(), json_bool_at(chars.as_slice(), 0))
}

/// A boolean literal, where one stands at `i`, is not empty and lies inside
/// the text.
pub proof fn lemma_bool_bounds(s: Seq<char>, i: int)
    ensures
        spec_json_bool(s, i) matches Ok((end, _)) ==> 0 <= i < end <= s.len(),
{
    reveal_strlit("false");
    reveal_strlit("true");
}

} // verus!
