//! A strict reader for JSON text.
//!
//! The grammar is written as recursive-descent rules over the characters of the
//! text. Every rule has a mathematical definition (a `spec` function over
//! `Seq<char>` and a position) and two executable functions that are proved to
//! compute exactly that definition: one that works at a position of a slice of
//! characters (its name ends in `_at`), and one that takes a `&str` and hands
//! back the text that is left over.
//!
//! A rule fails softly where it does not match, and hard where the text has
//! its shape but a content that cannot be accepted. `parse_json` reads a whole
//! text; `theorems` states what holds of the grammar as a whole. `syntax` says
//! what a JSON text looks like, and `completeness` and `soundness` prove that
//! the JSON texts are exactly the texts that are read with success.

use vstd::prelude::*;

pub mod array_parser;
pub mod bool_parser;
pub mod completeness;
pub mod float_parser;
pub mod integer_parser;
pub mod node;
pub mod null_parser;
pub mod object_parser;
pub mod soundness;
pub mod string_parser;
pub mod syntax;
pub mod theorems;
pub mod utils;

pub use array_parser::{json_array, json_array_at, spec_json_array};
pub use bool_parser::{json_bool, json_bool_at, spec_json_bool};
pub use float_parser::{json_float, json_float_at, spec_json_float};
pub use integer_parser::{json_integer, json_integer_at, spec_json_integer};
pub use node::{Node, NodeView};
pub use null_parser::{json_null, json_null_at, spec_json_null};
pub use object_parser::{json_object, json_object_at, spec_json_object};
pub use string_parser::{json_string, json_string_at, spec_json_string};
pub use utils::{
    CharClass, JSONParseError, ParseFailure, answers, answers_at, or_else, run_len, skip_run,
    spacey, to_chars,
};
use utils::from_start;

verus! {

/// The rules for the seven kinds of value at `i`, tried in a fixed order:
/// array, object, string, float, integer, boolean, null. The first rule that
/// does not fail softly decides.
pub open spec fn spec_alternatives(s: Seq<char>, i: int) -> Result<(int, NodeView), ParseFailure>
    decreases s.len() - i, 2int,
{
    or_else(
        spec_json_array(s, i),
        or_else(
            spec_json_object(s, i),
            or_else(
                spec_json_string(s, i),
                or_else(
                    spec_json_float(s, i),
                    or_else(
                        spec_json_integer(s, i),
                        or_else(spec_json_bool(s, i), spec_json_null(s, i)),
                    ),
                ),
            ),
        ),
    )
}

/// The value rule at `i`: one of the seven kinds of value, with optional
/// whitespace before and after it.
pub open spec fn spec_json_value(s: Seq<char>, i: int) -> Result<(int, NodeView), ParseFailure>
    decreases s.len() - i, 3int,
{
    let start = i + run_len(s, i, CharClass::Space);
    proof {
        if 0 <= i <= s.len() {
            utils::lemma_run_is_maximal(s, i, CharClass::Space);
        }
    }
    match spec_alternatives(s, start) {
        Ok((end, value)) => Ok((end + run_len(s, end, CharClass::Space), value)),
        Err(failure) => Err(failure),
    }
}

/// What reading the whole text `s` yields: the value, where the value rule
/// matches and takes all of the text; the error of a hard failure; and
/// `Unparseable` otherwise.
pub open spec fn spec_parse_json(s: Seq<char>) -> Result<NodeView, JSONParseError> {
    match spec_json_value(s, 0) {
        Ok((end, value)) => if end == s.len() {
            Ok(value)
        } else {
            Err(JSONParseError::Unparseable)
        },
        Err(failure) => Err(failure.spec_error()),
    }
}

/// Whether the result `r` of reading a text is the expected one: a tree with
/// the expected view, or the expected error.
pub open spec fn reads_as(
    r: Result<Node, JSONParseError>,
    expected: Result<NodeView, JSONParseError>,
) -> bool {
    match expected {
        Ok(value) => r matches Ok(node) && node@ == value,
        Err(error) => r matches Err(e) && e == error,
    }
}

/// Tries the rules for the seven kinds of value at `i`.
pub fn alternatives_at(chars: &[char], i: usize) -> (r: Result<(usize, Node), ParseFailure>)
    ensures
        answers_at(r, spec_alternatives(chars@, i as int)),
        r matches Ok((end, _)) ==> i < end <= chars.len(),
    decreases chars.len() - i, 2int,
{
    match json_array_at(chars, i) {
        Err(ParseFailure::Soft) => {},
        decided => {
            return decided;
        },
    }
    match json_object_at(chars, i) {
        Err(ParseFailure::Soft) => {},
        decided => {
            return decided;
        },
    }
    match json_string_at(chars, i) {
        Err(ParseFailure::Soft) => {},
        decided => {
            return decided;
        },
    }
    match json_float_at(chars, i) {
        Err(ParseFailure::Soft) => {},
        decided => {
            return decided;
        },
    }
    match json_integer_at(chars, i) {
        Err(ParseFailure::Soft) => {},
        decided => {
            return decided;
        },
    }
    match json_bool_at(chars, i) {
        Err(ParseFailure::Soft) => {},
        decided => {
            return decided;
        },
    }
    json_null_at(chars, i)
}

/// Applies the value rule at `i`.
pub fn json_value_at(chars: &[char], i: usize) -> (r: Result<(usize, Node), ParseFailure>)
    ensures
        answers_at(r, spec_json_value(chars@, i as int)),
        r matches Ok((end, _)) ==> i < end <= chars.len(),
    decreases chars.len() - i, 3int,
{
    let start = skip_run(chars, i, CharClass::Space);
    match alternatives_at(chars, start) {
        Ok((end, node)) => Ok((skip_run(chars, end, CharClass::Space), node)),
        Err(failure) => Err(failure),
    }
}

/// Applies the value rule at the start of `input`.
pub fn json_value(input: &str) -> (r: Result<(&str, Node), ParseFailure>)
    ensures
        answers(r, input@, spec_json_value(input@, 0)),
{
    let chars = to_chars(input);
    from_start(input, chars.len(), json_value_at(chars.as_slice(), 0))
}

/// Reads the whole of `input` as one JSON value.
pub fn parse_json(input: &str) -> (r: Result<Node, JSONParseError>)
    ensures
        reads_as(r, spec_parse_json(input@)),
        r matches Ok(node) ==> node@.well_formed(),
        r is Ok <==> syntax::is_json_text(input@),
{
    let chars = to_chars(input);
    proof {
        theorems::theorem_reading_is_well_formed(input@);
        soundness::theorem_json_texts_are_what_is_read(input@);
    }
    match json_value_at(chars.as_slice(), 0) {
        Ok((end, node)) => {
            if end == chars.len() {
                Ok(node)
            } else {
                Err(JSONParseError::Unparseable)
            }
        },
        Err(failure) => Err(failure.error()),
    }
}

} // verus!
