use strict_json::array_parser::{json_array, json_array_at};
use strict_json::bool_parser::{json_bool, json_bool_at};
use strict_json::float_parser::{exp, exp_at, float_body, float_body_at, frac, frac_at, json_float, json_float_at};
use strict_json::integer_parser::{
    digit1to9, digit1to9_at, integer_body, integer_body_at, json_integer, json_integer_at, uint,
    uint_at,
};
use strict_json::null_parser::{json_null, json_null_at};
use strict_json::object_parser::{json_object, json_object_at, object_member, object_member_at};
use strict_json::string_parser::{
    check_unicode_escapes, finish_string, hex_digit, is_nonescaped_string_char, json_string,
    json_string_at, nonescaped_string, nonescaped_string_at, string_body, string_body_at,
    string_literal, string_literal_at,
};
use strict_json::utils::{
    char_at, escape_code, escape_code_at, escape_letter, padded_char_at, spacey, tag_at,
};
use strict_json::{
    alternatives_at, json_value, json_value_at, skip_run, to_chars, CharClass, JSONParseError,
    Node, ParseFailure,
};

fn chars(text: &str) -> Vec<char> {
    text.chars().collect()
}

const SOFT: ParseFailure = ParseFailure::Soft;

#[test]
fn character_classes() {
    for c in [' ', '\t', '\n', '\r'] {
        assert!(CharClass::Space.contains(c));
    }
    for c in ['a', '\u{c}', '\u{b}', '\u{a0}', '0'] {
        assert!(!CharClass::Space.contains(c));
    }
    for c in '0'..='9' {
        assert!(CharClass::Digit.contains(c));
    }
    for c in ['/', ':', 'a', '٣', ' '] {
        assert!(!CharClass::Digit.contains(c));
    }
    for c in [' ', '!', '#', '[', ']', 'z', '\u{7f}', 'の', '𝄞', '\u{10ffff}'] {
        assert!(CharClass::Plain.contains(c));
        assert!(is_nonescaped_string_char(c));
    }
    for c in ['"', '\\', '\u{0}', '\u{1f}', '\n', '\t'] {
        assert!(!CharClass::Plain.contains(c));
        assert!(!is_nonescaped_string_char(c));
    }
}

#[test]
fn runs_are_greedy() {
    let text = chars("  \t\n12345abc");
    assert_eq!(skip_run(&text, 0, CharClass::Space), 4);
    assert_eq!(skip_run(&text, 2, CharClass::Space), 4);
    assert_eq!(skip_run(&text, 4, CharClass::Space), 4);
    assert_eq!(skip_run(&text, 4, CharClass::Digit), 9);
    assert_eq!(skip_run(&text, 9, CharClass::Digit), 9);
    assert_eq!(skip_run(&text, 0, CharClass::Plain), 2);
    assert_eq!(skip_run(&text, 4, CharClass::Plain), 12);
    assert_eq!(skip_run(&text, 12, CharClass::Plain), 12);
    assert_eq!(skip_run(&text, 40, CharClass::Plain), 40);
    assert_eq!(skip_run(&[], 0, CharClass::Space), 0);
}

#[test]
fn single_characters_and_literals() {
    let text = chars("a[null");
    assert!(char_at(&text, 1, '['));
    assert!(!char_at(&text, 0, '['));
    assert!(!char_at(&text, 6, '['));
    assert_eq!(tag_at(&text, 2, "null"), Some(6));
    assert_eq!(tag_at(&text, 2, "nul"), Some(5));
    assert_eq!(tag_at(&text, 2, "nulls"), None);
    assert_eq!(tag_at(&text, 1, "null"), None);
    assert_eq!(tag_at(&text, 6, ""), Some(6));
    assert_eq!(tag_at(&text, 7, ""), None);
    assert_eq!(tag_at(&text, 3, "null"), None);
}

#[test]
fn padded_characters() {
    let text = chars(" \n , \t x");
    assert_eq!(padded_char_at(&text, 0, ','), Some(7));
    assert_eq!(padded_char_at(&text, 3, ','), Some(7));
    assert_eq!(padded_char_at(&text, 4, ','), None);
    assert_eq!(padded_char_at(&text, 0, 'x'), None);
    assert_eq!(padded_char_at(&text, 4, 'x'), Some(8));
    assert_eq!(padded_char_at(&text, 7, 'x'), Some(8));
    assert_eq!(padded_char_at(&text, 8, 'x'), None);
    assert_eq!(padded_char_at(&text, 9, 'x'), None);
}

#[test]
fn text_to_characters() {
    assert_eq!(to_chars(""), Vec::<char>::new());
    assert_eq!(to_chars("aの𝄞"), vec!['a', 'の', '𝄞']);
}

#[test]
fn unsigned_integer_bodies() {
    assert_eq!(digit1to9("7x"), Ok(("x", '7')));
    assert_eq!(digit1to9("0"), Err(SOFT));
    assert_eq!(digit1to9(""), Err(SOFT));
    assert_eq!(digit1to9_at(&chars("a9"), 1), Some((2, '9')));
    assert_eq!(digit1to9_at(&chars("a9"), 0), None);
    assert_eq!(digit1to9_at(&chars("a9"), 2), None);

    assert_eq!(uint("0"), Ok(("", "0")));
    assert_eq!(uint("01"), Ok(("1", "0")));
    assert_eq!(uint("120x"), Ok(("x", "120")));
    assert_eq!(uint("x"), Err(SOFT));
    assert_eq!(uint("-1"), Err(SOFT));
    assert_eq!(uint(""), Err(SOFT));
    assert_eq!(uint_at(&chars("ab907c"), 2), Some(5));
    assert_eq!(uint_at(&chars("ab907c"), 3), Some(4));
    assert_eq!(uint_at(&chars("ab907c"), 5), None);
    assert_eq!(uint_at(&chars("ab907c"), 9), None);
}

#[test]
fn integer_bodies() {
    assert_eq!(integer_body("-12.5"), Ok((".5", "-12")));
    assert_eq!(integer_body("12"), Ok(("", "12")));
    assert_eq!(integer_body("-0"), Ok(("", "-0")));
    assert_eq!(integer_body("-"), Err(SOFT));
    assert_eq!(integer_body("--1"), Err(SOFT));
    assert_eq!(integer_body("+1"), Err(SOFT));
    assert_eq!(integer_body_at(&chars("[-5]"), 1), Some(3));
    assert_eq!(integer_body_at(&chars("[-5]"), 0), None);
}

#[test]
fn integers() {
    assert_eq!(json_integer("123else"), Ok(("else", Node::Integer(123))));
    assert_eq!(json_integer("-123"), Ok(("", Node::Integer(-123))));
    assert_eq!(json_integer("-0"), Ok(("", Node::Integer(0))));
    assert_eq!(json_integer("1.5"), Ok((".5", Node::Integer(1))));
    assert_eq!(json_integer("x"), Err(SOFT));
    assert_eq!(json_integer(" 1"), Err(SOFT));
    assert_eq!(
        json_integer("9223372036854775808"),
        Err(ParseFailure::Hard(JSONParseError::BadInt))
    );
    assert_eq!(
        json_integer("-9223372036854775808"),
        Ok(("", Node::Integer(i64::MIN)))
    );
    assert_eq!(
        json_integer("92233720368547758070"),
        Err(ParseFailure::Hard(JSONParseError::BadInt))
    );
    assert_eq!(json_integer_at(&chars("[42]"), 1), Ok((3, Node::Integer(42))));
    assert_eq!(json_integer_at(&chars("[42]"), 3), Err(SOFT));
    assert_eq!(json_integer_at(&chars("[42]"), 4), Err(SOFT));
    assert_eq!(json_integer_at(&chars("[42]"), 50), Err(SOFT));
}

#[test]
fn fraction_and_exponent_parts() {
    assert_eq!(frac(".5"), Ok(("", ".5")));
    assert_eq!(frac(".50e1"), Ok(("e1", ".50")));
    assert_eq!(frac("."), Err(SOFT));
    assert_eq!(frac(".x"), Err(SOFT));
    assert_eq!(frac("5"), Err(SOFT));
    assert_eq!(frac_at(&chars("1.25"), 1), Some(4));
    assert_eq!(frac_at(&chars("1.25"), 0), None);

    assert_eq!(exp("e5"), Ok(("", "e5")));
    assert_eq!(exp("E5"), Ok(("", "E5")));
    assert_eq!(exp("e+5x"), Ok(("x", "e+5")));
    assert_eq!(exp("e-05"), Ok(("", "e-05")));
    assert_eq!(exp("e"), Err(SOFT));
    assert_eq!(exp("e+"), Err(SOFT));
    assert_eq!(exp("e+-1"), Err(SOFT));
    assert_eq!(exp("5"), Err(SOFT));
    assert_eq!(exp_at(&chars("1e10"), 1), Some(4));
    assert_eq!(exp_at(&chars("1e10"), 2), None);
}

#[test]
fn float_bodies() {
    assert_eq!(float_body("1.5"), Ok(("", "1.5")));
    assert_eq!(float_body("-1.5e3,"), Ok((",", "-1.5e3")));
    assert_eq!(float_body("1e3"), Ok(("", "1e3")));
    assert_eq!(float_body("1.5e"), Ok(("e", "1.5")));
    assert_eq!(float_body("1e5.5"), Ok((".5", "1e5")));
    assert_eq!(float_body("0.5"), Ok(("", "0.5")));
    assert_eq!(float_body("00.5"), Err(SOFT));
    assert_eq!(float_body("42"), Err(SOFT));
    assert_eq!(float_body("1."), Err(SOFT));
    assert_eq!(float_body(".5"), Err(SOFT));
    assert_eq!(float_body("-.5"), Err(SOFT));
    assert_eq!(float_body_at(&chars("[1.5]"), 1), Some(4));
    assert_eq!(float_body_at(&chars("[1.5]"), 2), None);
}

#[test]
fn floats_keep_their_text() {
    assert_eq!(json_float("1.5x"), Ok(("x", Node::Float("1.5".into()))));
    assert_eq!(json_float("-0.0"), Ok(("", Node::Float("-0.0".into()))));
    assert_eq!(json_float("1E+2 "), Ok((" ", Node::Float("1E+2".into()))));
    assert_eq!(json_float("42"), Err(SOFT));
    assert_eq!(json_float("123"), Err(SOFT));
    assert_eq!(json_float("1000000"), Err(SOFT));
    assert_eq!(json_float_at(&chars("[1.5]"), 1), Ok((4, Node::Float("1.5".into()))));
    assert_eq!(json_float_at(&chars("[1.5]"), 0), Err(SOFT));
}

#[test]
fn escape_codes() {
    for letter in ['"', '\\', '/', 'b', 'f', 'n', 'r', 't', 'u'] {
        assert!(escape_letter(letter));
    }
    for letter in ['x', 'a', 'U', 'N', '0', ' ', '\''] {
        assert!(!escape_letter(letter));
    }
    assert_eq!(escape_code(r#"\nabc"#), Ok(("abc", r#"\n"#)));
    assert_eq!(escape_code(r#"\u0041"#), Ok(("0041", r#"\u"#)));
    assert_eq!(escape_code(r#"\""#), Ok(("", r#"\""#)));
    assert_eq!(escape_code(r#"\x"#), Err(SOFT));
    assert_eq!(escape_code(r#"\"#), Err(SOFT));
    assert_eq!(escape_code("n"), Err(SOFT));
    assert_eq!(escape_code(""), Err(SOFT));
    assert_eq!(escape_code_at(&chars(r#"a\tb"#), 1), Some(3));
    assert_eq!(escape_code_at(&chars(r#"a\tb"#), 0), None);
    assert_eq!(escape_code_at(&chars(r#"a\"#), 1), None);
}

#[test]
fn string_bodies() {
    assert_eq!(nonescaped_string("abc\"d"), Ok(("\"d", "abc")));
    assert_eq!(nonescaped_string("の\\n"), Ok(("\\n", "の")));
    assert_eq!(nonescaped_string("\"abc"), Err(SOFT));
    assert_eq!(nonescaped_string(""), Err(SOFT));
    assert_eq!(nonescaped_string("\nabc"), Err(SOFT));
    assert_eq!(nonescaped_string_at(&chars("\"ab\""), 1), Some(3));
    assert_eq!(nonescaped_string_at(&chars("\"ab\""), 3), None);

    assert_eq!(string_body(r#"ab\ncd" rest"#), Ok((r#"" rest"#, r#"ab\ncd"#)));
    assert_eq!(string_body(r#"\"\\"#), Ok(("", r#"\"\\"#)));
    assert_eq!(string_body(r#"a\xb"#), Ok((r#"\xb"#, "a")));
    assert_eq!(string_body(r#"a\"#), Ok((r#"\"#, "a")));
    assert_eq!(string_body("\"x"), Ok(("\"x", "")));
    assert_eq!(string_body(""), Ok(("", "")));
    assert_eq!(string_body("a\nb"), Ok(("\nb", "a")));
    assert_eq!(string_body(r#"\u12"#), Ok(("", r#"\u12"#)));
    assert_eq!(string_body_at(&chars(r#""a\tb"x"#), 1), 5);
    assert_eq!(string_body_at(&chars(r#""a\tb"x"#), 5), 5);
    assert_eq!(string_body_at(&chars(r#""a\tb"x"#), 6), 7);
    assert_eq!(string_body_at(&chars("ab"), 9), 9);
}

#[test]
fn hex_digits_of_unicode_escapes() {
    for c in "0123456789abcdefABCDEF".chars() {
        assert!(hex_digit(c));
    }
    for c in ['g', 'G', '+', '-', ' ', '/', ':', '@', '`', '٣'] {
        assert!(!hex_digit(c));
    }
    assert!(check_unicode_escapes(&chars("")));
    assert!(check_unicode_escapes(&chars("plain")));
    assert!(check_unicode_escapes(&chars(r#"\n\t\\"#)));
    assert!(check_unicode_escapes(&chars(r#"\u0041"#)));
    assert!(check_unicode_escapes(&chars(r#"a\uD834\uDD1Eb"#)));
    assert!(check_unicode_escapes(&chars(r#"\\u00"#)));
    assert!(check_unicode_escapes(&chars(r#"\\\u00ff"#)));
    assert!(!check_unicode_escapes(&chars(r#"\u"#)));
    assert!(!check_unicode_escapes(&chars(r#"\u004"#)));
    assert!(!check_unicode_escapes(&chars(r#"\u+041"#)));
    assert!(!check_unicode_escapes(&chars(r#"\u00g0"#)));
    assert!(!check_unicode_escapes(&chars(r#"\u0041\u12"#)));
    assert!(!check_unicode_escapes(&chars(r#"\\\u00"#)));
}

#[test]
fn finishing_a_string() {
    let bad = Err(ParseFailure::Hard(JSONParseError::BadEscape));
    assert_eq!(
        finish_string(7, &chars("abc"), Some("abc".to_string())),
        Ok((7, "abc".to_string()))
    );
    assert_eq!(
        finish_string(9, &chars(r#"\u0041"#), Some("A".to_string())),
        Ok((9, "A".to_string()))
    );
    assert_eq!(finish_string(9, &chars(r#"\u+041"#), Some("A".to_string())), bad);
    assert_eq!(finish_string(9, &chars(r#"\ud800"#), None), bad);
    assert_eq!(finish_string(9, &chars(r#"\u12"#), None), bad);
}

#[test]
fn string_literals() {
    assert_eq!(string_literal(r#""key": 1"#), Ok((": 1", "key".to_string())));
    assert_eq!(string_literal(r#""a\nb""#), Ok(("", "a\nb".to_string())));
    assert_eq!(string_literal(r#""\u0041\u0042""#), Ok(("", "AB".to_string())));
    assert_eq!(string_literal(r#""""#), Ok(("", String::new())));
    assert_eq!(string_literal(r#" "a""#), Err(SOFT));
    assert_eq!(string_literal(r#""a"#), Err(SOFT));
    assert_eq!(
        string_literal(r#""a\x""#),
        Err(ParseFailure::Hard(JSONParseError::BadEscape))
    );
    assert_eq!(
        string_literal(r#""\x""#),
        Err(ParseFailure::Hard(JSONParseError::BadEscape))
    );
    assert_eq!(
        string_literal(r#""a\x"#),
        Err(ParseFailure::Hard(JSONParseError::BadEscape))
    );
    assert_eq!(string_literal("\"a\\"), Err(SOFT));
    assert_eq!(string_literal(r#""a\""#), Err(SOFT));
    assert_eq!(string_literal("\"a\nb\""), Err(SOFT));
    assert_eq!(string_literal(r#""\u12"#), Err(SOFT));
    assert_eq!(
        string_literal(r#""\u12""#),
        Err(ParseFailure::Hard(JSONParseError::BadEscape))
    );
    assert_eq!(
        string_literal(r#""\udd1e\ud834""#),
        Err(ParseFailure::Hard(JSONParseError::BadEscape))
    );
    assert_eq!(string_literal_at(&chars(r#"["a\tb"]"#), 1), Ok((7, "a\tb".to_string())));
    assert_eq!(string_literal_at(&chars(r#"["a\tb"]"#), 0), Err(SOFT));
    assert_eq!(json_string(r#""a"b"#), Ok(("b", Node::Str("a".into()))));
    assert_eq!(json_string_at(&chars(r#"["a"]"#), 1), Ok((4, Node::Str("a".into()))));
}

#[test]
fn literals_enforce_no_boundary() {
    assert_eq!(json_bool("truefoo"), Ok(("foo", Node::Bool(true))));
    assert_eq!(json_bool("falsetto"), Ok(("tto", Node::Bool(false))));
    assert_eq!(json_bool("tru"), Err(SOFT));
    assert_eq!(json_bool(" true"), Err(SOFT));
    assert_eq!(json_bool("True"), Err(SOFT));
    assert_eq!(json_bool(""), Err(SOFT));
    assert_eq!(json_null("nullx"), Ok(("x", Node::Null)));
    assert_eq!(json_null("nul"), Err(SOFT));
    assert_eq!(json_null("NULL"), Err(SOFT));
    assert_eq!(json_bool_at(&chars("[true]"), 1), Ok((5, Node::Bool(true))));
    assert_eq!(json_bool_at(&chars("[false]"), 1), Ok((6, Node::Bool(false))));
    assert_eq!(json_bool_at(&chars("[true]"), 2), Err(SOFT));
    assert_eq!(json_null_at(&chars("[null]"), 1), Ok((5, Node::Null)));
    assert_eq!(json_null_at(&chars("[null]"), 3), Err(SOFT));
}

#[test]
fn arrays() {
    assert_eq!(json_array("[1]x"), Ok(("x", Node::Array(vec![Node::Integer(1)]))));
    assert_eq!(json_array("[1] x"), Ok(("x", Node::Array(vec![Node::Integer(1)]))));
    assert_eq!(
        json_array("[ 1 , [ 2 ] ]"),
        Ok(("", Node::Array(vec![Node::Integer(1), Node::Array(vec![Node::Integer(2)])])))
    );
    assert_eq!(json_array("[1,]"), Err(SOFT));
    assert_eq!(json_array("[1"), Err(SOFT));
    assert_eq!(json_array("1]"), Err(SOFT));
    assert_eq!(json_array("{}"), Err(SOFT));
    assert_eq!(json_array(""), Err(SOFT));
    assert_eq!(
        json_array("[1, 9999999999999999999"),
        Err(ParseFailure::Hard(JSONParseError::BadInt))
    );
    assert_eq!(
        json_array_at(&chars("x [ true ] y"), 1),
        Ok((11, Node::Array(vec![Node::Bool(true)])))
    );
    assert_eq!(json_array_at(&chars("x [ true ] y"), 0), Err(SOFT));
}

#[test]
fn objects_and_members() {
    assert_eq!(
        object_member(r#""k" : 1 , x"#),
        Ok((", x", ("k".to_string(), Node::Integer(1))))
    );
    assert_eq!(object_member(r#""k" 1"#), Err(SOFT));
    assert_eq!(object_member(r#""k" :"#), Err(SOFT));
    assert_eq!(object_member(r#" "k":1"#), Err(SOFT));
    assert_eq!(object_member(r#"k:1"#), Err(SOFT));
    assert_eq!(
        object_member(r#""\ud800":1"#),
        Err(ParseFailure::Hard(JSONParseError::BadEscape))
    );
    assert_eq!(
        object_member(r#""k":9999999999999999999"#),
        Err(ParseFailure::Hard(JSONParseError::BadInt))
    );
    assert_eq!(
        object_member_at(&chars(r#"{"k":null}"#), 1),
        Ok((9, ("k".to_string(), Node::Null)))
    );
    assert_eq!(
        json_object(r#"{"a":1,"b":"c"} rest"#),
        Ok((
            "rest",
            Node::Object(vec![
                ("a".to_string(), Node::Integer(1)),
                ("b".to_string(), Node::Str("c".into())),
            ])
        ))
    );
    assert_eq!(json_object(r#"{"a":1,}"#), Err(SOFT));
    assert_eq!(json_object(r#"{"a":1"#), Err(SOFT));
    assert_eq!(json_object("[]"), Err(SOFT));
    assert_eq!(
        json_object_at(&chars(r#"[{"a":[]}]"#), 1),
        Ok((9, Node::Object(vec![("a".to_string(), Node::Array(vec![]))])))
    );
}

#[test]
fn values() {
    assert_eq!(json_value(" 1 , 2"), Ok((", 2", Node::Integer(1))));
    assert_eq!(json_value("1.5]"), Ok(("]", Node::Float("1.5".into()))));
    assert_eq!(json_value("  null"), Ok(("", Node::Null)));
    assert_eq!(json_value("  "), Err(SOFT));
    assert_eq!(json_value("x"), Err(SOFT));
    assert_eq!(json_value_at(&chars("[ 7 ]"), 1), Ok((4, Node::Integer(7))));
    assert_eq!(alternatives_at(&chars("[ 7 ]"), 2), Ok((3, Node::Integer(7))));
    assert_eq!(alternatives_at(&chars("[ 7 ]"), 1), Err(SOFT));
    assert_eq!(json_value_at(&chars("[ 7 ]"), 4), Err(SOFT));
    assert_eq!(json_value_at(&chars("[ 7 ]"), 99), Err(SOFT));
}

#[test]
fn whitespace_wrapping() {
    assert_eq!(spacey(json_bool, "  true  x"), Ok(("x", Node::Bool(true))));
    assert_eq!(spacey(json_bool, "true"), Ok(("", Node::Bool(true))));
    assert_eq!(spacey(json_null, "\n null \t "), Ok(("", Node::Null)));
    assert_eq!(spacey(json_integer, " 12 34"), Ok(("34", Node::Integer(12))));
    assert_eq!(spacey(uint, " 12 34"), Ok(("34", "12")));
    assert_eq!(spacey(json_bool, "  x"), Err(SOFT));
    assert_eq!(
        spacey(json_integer, " 9999999999999999999 "),
        Err(ParseFailure::Hard(JSONParseError::BadInt))
    );
}

#[test]
fn failures_become_errors() {
    assert_eq!(ParseFailure::Soft.error(), JSONParseError::Unparseable);
    assert_eq!(ParseFailure::Hard(JSONParseError::BadInt).error(), JSONParseError::BadInt);
    assert_eq!(ParseFailure::Hard(JSONParseError::BadEscape).error(), JSONParseError::BadEscape);
    assert_eq!(ParseFailure::Hard(JSONParseError::BadFloat).error(), JSONParseError::BadFloat);
}
