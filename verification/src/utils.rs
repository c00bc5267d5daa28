//! Error kinds, failure kinds and the small reusable pieces that the grammar
//! rules are assembled from: character classes, greedy runs, literal matches
//! and whitespace padding.

use crate::string_parser::is_nonescaped_string_char;
use vstd::prelude::*;
use vstd::string::*;

verus! {

/// The four ways in which reading a JSON text can go wrong.
#[derive(Debug, PartialEq, Eq, Clone, Copy, Structural)]
pub enum JSONParseError {
    /// An integer literal does not fit in 64 signed bits.
    BadInt,
    /// A float literal could not be converted to a double.
    BadFloat,
    /// A string holds an escape sequence that cannot be decoded.
    BadEscape,
    /// The text does not follow the grammar, or text is left over.
    Unparseable,
}

impl JSONParseError {
    /// The text that describes the error.
    pub open spec fn spec_message(self) -> Seq<char> {
        match self {
            JSONParseError::BadInt => "bad integer"@,
            JSONParseError::BadFloat => "bad float"@,
            JSONParseError::BadEscape => "bad escape sequence"@,
            JSONParseError::Unparseable => "unknown parser error"@,
        }
    }

    /// Returns the text that describes the error.
    pub fn message(&self) -> (text: String)
        ensures
            text@ == self.spec_message(),
    {
        match self {
            JSONParseError::BadInt => "bad integer".to_owned(),
            JSONParseError::BadFloat => "bad float".to_owned(),
            JSONParseError::BadEscape => "bad escape sequence".to_owned(),
            JSONParseError::Unparseable => "unknown parser error".to_owned(),
        }
    }
}

/// How a grammar rule fails.
///
/// A soft failure says that the rule does not match at this place, so another
/// rule may be tried. A hard failure says that the text has the shape of the
/// rule but a content that cannot be accepted; it ends the whole parse.
#[derive(Debug, PartialEq, Eq, Clone, Copy, Structural)]
pub enum ParseFailure {
    Soft,
    Hard(JSONParseError),
}

impl ParseFailure {
    /// The error that the caller of the top-level entry sees for this failure.
    pub open spec fn spec_error(self) -> JSONParseError {
        match self {
            ParseFailure::Soft => JSONParseError::Unparseable,
            ParseFailure::Hard(e) => e,
        }
    }

    /// Returns the error that the caller of the top-level entry sees.
    pub fn error(self) -> (e: JSONParseError)
        ensures
            e == self.spec_error(),
    {
        match self {
            ParseFailure::Soft => JSONParseError::Unparseable,
            ParseFailure::Hard(e) => e,
        }
    }
}

/// Space, tab, line feed or carriage return.
pub open spec fn is_space(c: char) -> bool {
    c == ' ' || c == '\t' || c == '\n' || c == '\r'
}

/// One of the ten decimal digits.
pub open spec fn is_digit(c: char) -> bool {
    '0' <= c <= '9'
}

/// A character that may stand in a string without being escaped: no control
/// character, no quotation mark, no backslash.
pub open spec fn is_plain(c: char) -> bool {
    c as u32 >= 0x20 && c != '"' && c != '\\'
}

/// The sets of characters of which the grammar takes greedy runs.
#[derive(Debug, PartialEq, Eq, Clone, Copy, Structural)]
pub enum CharClass {
    Space,
    Digit,
    Plain,
}

impl CharClass {
    /// Whether `c` belongs to the class.
    pub open spec fn has(self, c: char) -> bool {
        match self {
            CharClass::Space => is_space(c),
            CharClass::Digit => is_digit(c),
            CharClass::Plain => is_plain(c),
        }
    }

    /// Tests whether `c` belongs to the class.
    pub fn contains(self, c: char) -> (b: bool)
        ensures
            b == self.has(c),
    {
        match self {
            CharClass::Space => c == ' ' || c == '\t' || c == '\n' || c == '\r',
            CharClass::Digit => '0' <= c && c <= '9',
            CharClass::Plain => is_nonescaped_string_char(c),
        }
    }
}

/// The length of the longest run of characters of `class` that starts at `i`.
pub open spec fn run_len(s: Seq<char>, i: int, class: CharClass) -> nat
    decreases s.len() - i,
{
    if 0 <= i < s.len() && class.has(s[i]) {
        1 + run_len(s, i + 1, class)
    } else {
        0
    }
}

/// A run is greedy: it stays inside the text, every character in it belongs to
/// the class, and it stops only at the end of the text or at a character that
/// does not belong to the class.
pub proof fn lemma_run_is_maximal(s: Seq<char>, i: int, class: CharClass)
    requires
        0 <= i <= s.len(),
    ensures
        i + run_len(s, i, class) <= s.len(),
        forall|k: int| i <= k < i + run_len(s, i, class) ==> class.has(#[trigger] s[k]),
        i + run_len(s, i, class) == s.len() || !class.has(s[i + run_len(s, i, class)]),
    decreases s.len() - i,
{
    if i < s.len() && class.has(s[i]) {
        lemma_run_is_maximal(s, i + 1, class);
    }
}

/// A run inside a part of the text is the run in the whole text, cut off where
/// the part ends.
pub proof fn lemma_run_len_within(s: Seq<char>, from: int, to: int, k: int, class: CharClass)
    requires
        0 <= from <= k <= to <= s.len(),
    ensures
        run_len(s.subrange(from, to), k - from, class) == if k + run_len(s, k, class) <= to {
            run_len(s, k, class)
        } else {
            (to - k) as nat
        },
    decreases to - k,
{
    if k < to {
        lemma_run_len_within(s, from, to, k + 1, class);
    }
}

/// Skips the longest run of characters of `class` that starts at `start`.
pub fn skip_run(chars: &[char], start: usize, class: CharClass) -> (end: usize)
    ensures
        end == start + run_len(chars@, start as int, class),
        start <= chars.len() ==> end <= chars.len(),
{
    let mut pos: usize = start;
    while pos < chars.len() && class.contains(chars[pos])
        invariant
            start <= pos,
            start <= chars.len() ==> pos <= chars.len(),
            start + run_len(chars@, start as int, class) == pos + run_len(
                chars@,
                pos as int,
                class,
            ),
        decreases chars.len() - pos,
    {
        pos += 1;
    }
    pos
}

/// Whether the character at `i` is `c`.
pub open spec fn has_char(s: Seq<char>, i: int, c: char) -> bool {
    0 <= i < s.len() && s[i] == c
}

/// Tests whether the character at `i` is `c`.
pub fn char_at(chars: &[char], i: usize, c: char) -> (b: bool)
    ensures
        b == has_char(chars@, i as int, c),
        b ==> i < chars.len(),
{
    i < chars.len() && chars[i] == c
}

/// Whether the text holds the literal `lit` at `i`.
pub open spec fn has_tag(s: Seq<char>, i: int, lit: Seq<char>) -> bool {
    0 <= i && i + lit.len() <= s.len() && s.subrange(i, i + lit.len()) == lit
}

/// Matches the literal `lit` at `i` and returns the position behind it.
pub fn tag_at(chars: &[char], i: usize, lit: &str) -> (end: Option<usize>)
    ensures
        end is Some <==> has_tag(chars@, i as int, lit@),
        end matches Some(e) ==> e == i + lit@.len(),
{
    let n: usize = lit.unicode_len();
    if i > chars.len() || n > chars.len() - i {
        return None;
    }
    let mut k: usize = 0;
    while k < n
        invariant
            k <= n,
            n == lit@.len(),
            i + n <= chars.len(),
            chars@.subrange(i as int, i + k) == lit@.subrange(0, k as int),
        decreases n - k,
    {
        if chars[i + k] != lit.get_char(k) {
            proof {
                let whole = chars@.subrange(i as int, i + n);
                assert(whole[k as int] == chars@[i + k]);
            }
            return None;
        }
        proof {
            assert(chars@.subrange(i as int, i + k + 1) == chars@.subrange(i as int, i + k).push(
                chars@[i + k],
            ));
            assert(lit@.subrange(0, k + 1) == lit@.subrange(0, k as int).push(lit@[k as int]));
        }
        k += 1;
    }
    proof {
        assert(lit@.subrange(0, n as int) == lit@);
    }
    Some(i + n)
}

/// The position behind `c` and the whitespace around it, where the text at `i`
/// is optional whitespace followed by `c`.
pub open spec fn padded_char(s: Seq<char>, i: int, c: char) -> Option<int> {
    let at = i + run_len(s, i, CharClass::Space);
    if has_char(s, at, c) {
        Some(at + 1 + run_len(s, at + 1, CharClass::Space))
    } else {
        None
    }
}

/// A padded character, where it matches, ends behind its start and inside the
/// text.
pub proof fn lemma_padded_char_bounds(s: Seq<char>, i: int, c: char)
    ensures
        padded_char(s, i, c) matches Some(end) ==> 0 <= i < end <= s.len(),
{
    if padded_char(s, i, c) is Some {
        let at = i + run_len(s, i, CharClass::Space);
        lemma_run_is_maximal(s, at + 1, CharClass::Space);
    }
}

/// Matches `c` with optional whitespace before and after it.
pub fn padded_char_at(chars: &[char], i: usize, c: char) -> (end: Option<usize>)
    ensures
        end matches Some(e) ==> i < e <= chars.len(),
        match end {
            Some(e) => padded_char(chars@, i as int, c) == Some(e as int),
            None => padded_char(chars@, i as int, c) is None,
        },
{
    let at = skip_run(chars, i, CharClass::Space);
    if char_at(chars, at, c) {
        Some(skip_run(chars, at + 1, CharClass::Space))
    } else {
        None
    }
}

/// Ordered alternation: the first outcome unless it is a soft failure, in which
/// case the second outcome decides. A hard failure of the first is final.
pub open spec fn or_else<T>(
    first: Result<(int, T), ParseFailure>,
    second: Result<(int, T), ParseFailure>,
) -> Result<(int, T), ParseFailure> {
    match first {
        Err(ParseFailure::Soft) => second,
        _ => first,
    }
}

/// The outcome of a list whose first items are `prefix` and whose remaining
/// items are parsed with the outcome `rest`.
pub open spec fn extend<T>(prefix: Seq<T>, rest: Result<(int, Seq<T>), ParseFailure>) -> Result<
    (int, Seq<T>),
    ParseFailure,
> {
    match rest {
        Ok((end, items)) => Ok((end, prefix + items)),
        Err(failure) => Err(failure),
    }
}

/// The result of a rule that only recognizes text: the matched text, or a soft
/// failure.
pub open spec fn recognized(s: Seq<char>, i: int, end: Option<int>) -> Result<
    (int, Seq<char>),
    ParseFailure,
> {
    match end {
        Some(e) => Ok((e, s.subrange(i, e))),
        None => Err(ParseFailure::Soft),
    }
}

/// Whether an end position is the one that a rule's definition gives.
pub open spec fn same_end(end: Option<usize>, expected: Option<int>) -> bool {
    match expected {
        Some(e) => end == Some(e as usize) && e == e as usize,
        None => end is None,
    }
}

/// Whether the answer `r` of a rule applied at a position is the one that the
/// rule's definition gives: the same end and a value with the expected view, or
/// the same failure.
pub open spec fn answers_at<T: View>(
    r: Result<(usize, T), ParseFailure>,
    expected: Result<(int, T::V), ParseFailure>,
) -> bool {
    match expected {
        Ok((end, value)) => r matches Ok((e, v)) && e == end && v@ == value,
        Err(failure) => r matches Err(f) && f == failure,
    }
}

/// Whether the answer `r` of a rule applied to the whole of `input` is the one
/// that the rule's definition gives at position 0: the text that is left over
/// starts at the expected end, and the value has the expected view.
pub open spec fn answers<T: View>(
    r: Result<(&str, T), ParseFailure>,
    input: Seq<char>,
    expected: Result<(int, T::V), ParseFailure>,
) -> bool {
    match expected {
        Ok((end, value)) => r matches Ok((rest, v)) && rest@ == input.skip(end) && v@ == value,
        Err(failure) => r matches Err(f) && f == failure,
    }
}

/// What `String::push` does: it appends the character.
pub assume_specification[ String::push ](s: &mut String, c: char)
    ensures
        final(s)@ == old(s)@.push(c),
;

/// Collects the characters of `input`.
pub fn to_chars(input: &str) -> (chars: Vec<char>)
    ensures
        chars@ == input@,
{
    let mut chars: Vec<char> = Vec::new();
    for c in it: input.chars()
        invariant
            it.seq() == input@,
            chars@ == it.seq().take(it.index()),
    {
        chars.push(c);
    }
    chars
}

/// Copies the characters from `from` up to `to` into a string.
pub(crate) fn text_between(chars: &[char], from: usize, to: usize) -> (text: String)
    requires
        from <= to <= chars.len(),
    ensures
        text@ == chars@.subrange(from as int, to as int),
{
    let mut text = String::new();
    let mut pos: usize = from;
    while pos < to
        invariant
            from <= pos <= to <= chars.len(),
            text@ == chars@.subrange(from as int, pos as int),
        decreases to - pos,
    {
        text.push(chars[pos]);
        proof {
            assert(chars@.subrange(from as int, pos + 1) == chars@.subrange(
                from as int,
                pos as int,
            ).push(chars@[pos as int]));
        }
        pos += 1;
    }
    text
}

/// Turns an answer at position 0 of the characters of `input` into an answer
/// that hands back the text that is left over.
pub(crate) fn from_start<'a, T>(
    input: &'a str,
    len: usize,
    r: Result<(usize, T), ParseFailure>,
) -> (out: Result<(&'a str, T), ParseFailure>)
    requires
        len == input@.len(),
        r matches Ok((end, _)) ==> end <= len,
    ensures
        match r {
            Ok((end, value)) => out matches Ok((rest, v)) && rest@ == input@.skip(end as int) && v
                == value,
            Err(failure) => out matches Err(f) && f == failure,
        },
{
    match r {
        Ok((end, value)) => Ok((input.substring_char(end, len), value)),
        Err(failure) => Err(failure),
    }
}

/// Turns the end of a match at position 0 of the characters of `input` into the
/// matched text and the text that is left over.
pub(crate) fn matched_from_start<'a>(input: &'a str, len: usize, end: Option<usize>) -> (out:
    Result<(&'a str, &'a str), ParseFailure>)
    requires
        len == input@.len(),
        end matches Some(e) ==> e <= len,
    ensures
        match end {
            Some(e) => out matches Ok((rest, matched)) && rest@ == input@.skip(e as int)
                && matched@ == input@.subrange(0, e as int),
            None => out matches Err(f) && f == ParseFailure::Soft,
        },
{
    match end {
        Some(e) => Ok((input.substring_char(e, len), input.substring_char(0, e))),
        None => Err(ParseFailure::Soft),
    }
}

/// One of the letters that may follow a backslash in a string.
pub open spec fn is_escape_letter(c: char) -> bool {
    c == '"' || c == '\\' || c == '/' || c == 'b' || c == 'f' || c == 'n' || c == 'r' || c == 't'
        || c == 'u'
}

/// The end of the escape code at `i`: a backslash and one escape letter. What
/// follows a `u` is not looked at here.
pub open spec fn spec_escape_code(s: Seq<char>, i: int) -> Option<int> {
    if has_char(s, i, '\\') && 0 <= i + 1 < s.len() && is_escape_letter(s[i + 1]) {
        Some(i + 2)
    } else {
        None
    }
}

/// Tests whether `c` may follow a backslash in a string.
pub fn escape_letter(c: char) -> (b: bool)
    ensures
        b == is_escape_letter(c),
{
    c == '"' || c == '\\' || c == '/' || c == 'b' || c == 'f' || c == 'n' || c == 'r' || c == 't'
        || c == 'u'
}

/// Matches an escape code at `i`.
pub fn escape_code_at(chars: &[char], i: usize) -> (end: Option<usize>)
    ensures
        same_end(end, spec_escape_code(chars@, i as int)),
        end matches Some(e) ==> i < e <= chars.len(),
{
    if char_at(chars, i, '\\') && i + 1 < chars.len() && escape_letter(chars[i + 1]) {
        Some(i + 2)
    } else {
        None
    }
}

/// Matches an escape code at the start of `input` and returns the text that is
/// left over and the matched text.
pub fn escape_code(input: &str) -> (r: Result<(&str, &str), ParseFailure>)
    ensures
        answers(r, input@, recognized(input@, 0, spec_escape_code(input@, 0))),
{
    let chars = to_chars(input);
    matched_from_start(input, chars.len(), escape_code_at(chars.as_slice(), 0))
}

/// The text that is left of `s` behind its leading whitespace.
pub open spec fn trimmed(s: Seq<char>) -> Seq<char> {
    s.skip(run_len(s, 0, CharClass::Space) as int)
}

/// Whether `r` is the answer `found` of a rule with the whitespace skipped that
/// follows what the rule matched.
pub open spec fn then_trimmed<T>(
    r: Result<(&str, T), ParseFailure>,
    found: Result<(&str, T), ParseFailure>,
) -> bool {
    match found {
        Ok((rest, value)) => r matches Ok((left, v)) && left@ == trimmed(rest@) && v == value,
        Err(failure) => r matches Err(f) && f == failure,
    }
}

/// Applies the rule `f` with optional whitespace before and after it: skips the
/// whitespace at the start of `input`, applies `f` to what is left, and skips
/// the whitespace that follows what `f` matched. A failure of `f` is handed on
/// as it is.
pub fn spacey<'a, T, F>(f: F, input: &'a str) -> (r: Result<(&'a str, T), ParseFailure>) where
    F: Fn(&'a str) -> Result<(&'a str, T), ParseFailure>,

    requires
        forall|inner: &'a str| inner@ == trimmed(input@) ==> #[trigger] f.requires((inner,)),
    ensures
        exists|inner: &'a str, found: Result<(&'a str, T), ParseFailure>|
            inner@ == trimmed(input@) && #[trigger] f.ensures((inner,), found) && then_trimmed(
                r,
                found,
            ),
{
    let chars = to_chars(input);
    let start = skip_run(chars.as_slice(), 0, CharClass::Space);
    let inner = input.substring_char(start, chars.len());
    let found = f(inner);
    let r = match found {
        Ok((rest, value)) => {
            let left = to_chars(rest);
            let end = skip_run(left.as_slice(), 0, CharClass::Space);
            Ok((rest.substring_char(end, left.len()), value))
        },
        Err(failure) => Err(failure),
    };
    proof {
        assert(inner@ == trimmed(input@));
        assert(f.ensures((inner,), found) && then_trimmed(r, found));
    }
    r
}

} // verus!
