//! The literal `null`.

use crate::node::{Node, NodeView};
use crate::utils::{ParseFailure, answers, answers_at, from_start, has_tag, tag_at, to_chars};
use vstd::prelude::*;

verus! {

/// The null rule at `i`: the literal `null`. What follows the literal is not
/// looked at.
pub open spec fn spec_json_null(s: Seq<char>, i: int) -> Result<(int, NodeView), ParseFailure> {
    if has_tag(s, i, "null"@) {
        Ok((i + 4, NodeView::Null))
    } else {
        Err(ParseFailure::Soft)
    }
}

/// Applies the null rule at `i`.
pub fn json_null_at(chars: &[char], i: usize) -> (r: Result<(usize, Node), ParseFailure>)
    ensures
        answers_at(r, spec_json_null(chars@, i as int)),
        r matches Ok((end, _)) ==> i < end <= chars.len(),
{
    proof {
        reveal_strlit("null");
    }
    match tag_at(chars, i, "null") {
        Some(end) => Ok((end, Node::Null)),
        None => Err(ParseFailure::Soft),
    }
}

/// Applies the null rule at the start of `input`.
pub fn json_null(input: &str) -> (r: Result<(&str, Node), ParseFailure>)
    ensures
        answers(r, input@, spec_json_null(input@, 0)),
{
    let chars = to_chars(input);
    from_start(input, chars.len(), json_null_at(chars.as_slice(), 0))
}

/// The literal `null`, where it stands at `i`, lies inside the text.
pub proof fn lemma_null_bounds(s: Seq<char>, i: int)
    ensures
        spec_json_null(s, i) matches Ok((end, _)) ==> 0 <= i < end <= s.len(),
{
    reveal_strlit("null");
}

} // verus!
