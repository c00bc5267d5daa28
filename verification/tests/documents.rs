use strict_json::{parse_json, JSONParseError, Node};

fn double(node: &Node) -> f64 {
    match node {
        Node::Float(text) => text.parse::<f64>().unwrap(),
        other => panic!("not a float: {:?}", other),
    }
}

fn member(key: &str, value: Node) -> (String, Node) {
    (key.to_string(), value)
}

#[test]
fn reading_twice_gives_the_same_result() {
    let texts = [
        r#" { "a" : [ 1 , 2.5 , "x\n" , true , false , null ] , "b" : { } } "#,
        "123else",
        "9999999999999999999",
        r#""\ud800""#,
        "",
    ];
    for text in texts {
        assert_eq!(parse_json(text), parse_json(text));
    }
    let tree = parse_json(texts[0]).unwrap();
    assert_eq!(
        tree,
        Node::Object(vec![
            member(
                "a",
                Node::Array(vec![
                    Node::Integer(1),
                    Node::Float("2.5".into()),
                    Node::Str("x\n".into()),
                    Node::Bool(true),
                    Node::Bool(false),
                    Node::Null,
                ])
            ),
            member("b", Node::Object(vec![])),
        ])
    );
}

#[test]
fn empty_text_is_unparseable() {
    assert_eq!(parse_json(""), Err(JSONParseError::Unparseable));
    assert_eq!(parse_json("   "), Err(JSONParseError::Unparseable));
    assert_eq!(parse_json("\n"), Err(JSONParseError::Unparseable));
}

#[test]
fn whitespace_around_a_number() {
    assert_eq!(parse_json(" 56 "), Ok(Node::Integer(56)));
    let float = parse_json(" 78.0 ").unwrap();
    assert_eq!(float, Node::Float("78.0".into()));
    assert_eq!(double(&float), 78.0);
    assert_eq!(parse_json("\t\r\n true \n"), Ok(Node::Bool(true)));
}

#[test]
fn other_blank_characters_are_no_whitespace() {
    assert_eq!(parse_json("\u{a0}1"), Err(JSONParseError::Unparseable));
    assert_eq!(parse_json("\u{c}1"), Err(JSONParseError::Unparseable));
    assert_eq!(parse_json("1\u{2003}"), Err(JSONParseError::Unparseable));
}

#[test]
fn numbers_are_classified_by_their_shape() {
    assert_eq!(parse_json("123"), Ok(Node::Integer(123)));
    let a = parse_json("123.0").unwrap();
    assert_eq!(a, Node::Float("123.0".into()));
    assert_eq!(double(&a), 123.0);
    let b = parse_json("123e2").unwrap();
    assert_eq!(b, Node::Float("123e2".into()));
    assert_eq!(double(&b), 12300.0);
}

#[test]
fn exponent_forms() {
    assert_eq!(double(&parse_json("1E5").unwrap()), 100000.0);
    assert_eq!(double(&parse_json("1e+5").unwrap()), 100000.0);
    assert_eq!(double(&parse_json("1.5e-3").unwrap()), 0.0015);
    assert_eq!(double(&parse_json("-2.5E+2").unwrap()), -250.0);
    assert_eq!(double(&parse_json("0e0").unwrap()), 0.0);
    assert_eq!(parse_json("-0.0"), Ok(Node::Float("-0.0".into())));
    assert_eq!(double(&parse_json("1e9999").unwrap()), f64::INFINITY);
    assert_eq!(double(&parse_json("-1e9999").unwrap()), f64::NEG_INFINITY);
}

#[test]
fn malformed_numbers_are_unparseable() {
    for text in ["01", "-", "+1", "1.", ".5", "1e", "1e+", "1.e5", "00.5", "--1", "1.5.5", "0x10"] {
        assert_eq!(parse_json(text), Err(JSONParseError::Unparseable), "{}", text);
    }
}

#[test]
fn trailing_text_is_rejected() {
    assert_eq!(parse_json("123else"), Err(JSONParseError::Unparseable));
    assert_eq!(parse_json("1 2"), Err(JSONParseError::Unparseable));
    assert_eq!(parse_json("null null"), Err(JSONParseError::Unparseable));
    assert_eq!(parse_json("truefoo"), Err(JSONParseError::Unparseable));
    assert_eq!(parse_json("[] ]"), Err(JSONParseError::Unparseable));
}

#[test]
fn integers_at_the_edge_of_the_range() {
    assert_eq!(parse_json("9223372036854775807"), Ok(Node::Integer(i64::MAX)));
    assert_eq!(parse_json("-9223372036854775808"), Ok(Node::Integer(i64::MIN)));
    assert_eq!(parse_json("9223372036854775808"), Err(JSONParseError::BadInt));
    assert_eq!(parse_json("-9223372036854775809"), Err(JSONParseError::BadInt));
    assert_eq!(parse_json("9999999999999999999"), Err(JSONParseError::BadInt));
    assert_eq!(parse_json("-0"), Ok(Node::Integer(0)));
    assert_eq!(parse_json("0"), Ok(Node::Integer(0)));
    assert_eq!(parse_json("-17"), Ok(Node::Integer(-17)));
}

#[test]
fn an_integer_out_of_range_ends_the_whole_parse() {
    assert_eq!(parse_json("[1, 9999999999999999999]"), Err(JSONParseError::BadInt));
    assert_eq!(parse_json(r#"{"a": {"b": 9999999999999999999}}"#), Err(JSONParseError::BadInt));
    assert_eq!(parse_json("9999999999999999999 x"), Err(JSONParseError::BadInt));
    assert_eq!(parse_json("[9999999999999999999"), Err(JSONParseError::BadInt));
    // With a fraction part the same digits are a float.
    assert_eq!(double(&parse_json("9999999999999999999.0").unwrap()), 1e19);
}

#[test]
fn escapes_are_decoded() {
    assert_eq!(parse_json(r#""\u0041""#), Ok(Node::Str("A".into())));
    assert_eq!(parse_json(r#""\u00e9""#), Ok(Node::Str("é".into())));
    assert_eq!(parse_json(r#""\ud83e\udd80""#), Ok(Node::Str("🦀".into())));
    assert_eq!(parse_json(r#""\uD834\uDD1E""#), Ok(Node::Str("𝄞".into())));
    assert_eq!(parse_json(r#""a\u0000b""#), Ok(Node::Str("a\0b".into())));
    assert_eq!(parse_json(r#""\b\f\n\r\t""#), Ok(Node::Str("\u{8}\u{c}\n\r\t".into())));
    assert_eq!(parse_json(r#""\"\\\/""#), Ok(Node::Str("\"\\/".into())));
    assert_eq!(parse_json(r#""abc""#), Ok(Node::Str("abc".into())));
    // An escaped backslash starts no escape.
    assert_eq!(parse_json(r#""\\u0041""#), Ok(Node::Str("\\u0041".into())));
    assert_eq!(parse_json(r#""\\u""#), Ok(Node::Str("\\u".into())));
}

#[test]
fn escapes_that_cannot_be_decoded() {
    for text in [
        r#""\ud800""#,
        r#""\udc00""#,
        r#""\ud800\u0041""#,
        r#""\ud800a""#,
        r#""\ud800\n""#,
        r#""\u""#,
        r#""\u001""#,
        r#""\u00g1""#,
        r#""\u+041""#,
        r#""\u 041""#,
        r#""x\u12""#,
    ] {
        assert_eq!(parse_json(text), Err(JSONParseError::BadEscape), "{}", text);
    }
    assert_eq!(parse_json(r#"["\ud800"]"#), Err(JSONParseError::BadEscape));
    assert_eq!(parse_json(r#"{"a": ["\ud800"]}"#), Err(JSONParseError::BadEscape));
    assert_eq!(parse_json(r#"{"\ud800": 1}"#), Err(JSONParseError::BadEscape));
}

#[test]
fn text_that_is_no_string() {
    for text in [
        r#""abc"#,
        r#""\""#,
        "\"\n\"",
        "\"\u{1f}\"",
        "'abc'",
        "abc",
        r#""\u12"#,
    ] {
        assert_eq!(parse_json(text), Err(JSONParseError::Unparseable), "{}", text);
    }
}

#[test]
fn an_unknown_escape_letter_ends_the_whole_parse() {
    for text in [
        r#""\x""#,
        r#""\a""#,
        r#""\U0041""#,
        r#""abc\x"#,
        r#""a\nb\q""#,
        r#""\ ""#,
        r#"["\x"]"#,
        r#"{"\x": 1}"#,
        r#"{"a": "\x"}"#,
        "\"\\\n\"",
    ] {
        assert_eq!(parse_json(text), Err(JSONParseError::BadEscape), "{}", text);
    }
    // A backslash that is the last character of the text closes nothing.
    assert_eq!(parse_json("\"\\"), Err(JSONParseError::Unparseable));
    assert_eq!(parse_json("\"abc\\"), Err(JSONParseError::Unparseable));
    // An unclosed string whose last escape code is a known one.
    assert_eq!(parse_json(r#""abc\""#), Err(JSONParseError::Unparseable));
    assert_eq!(parse_json(r#""abc\n"#), Err(JSONParseError::Unparseable));
}

#[test]
fn raw_characters_in_strings() {
    assert_eq!(parse_json("\"の𝄞\u{7f}\""), Ok(Node::Str("の𝄞\u{7f}".into())));
    assert_eq!(parse_json("\" \""), Ok(Node::Str(" ".into())));
    assert_eq!(parse_json("\"\""), Ok(Node::Str("".into())));
}

#[test]
fn empty_containers_and_whitespace() {
    assert_eq!(parse_json("[ ]"), Ok(Node::Array(vec![])));
    assert_eq!(parse_json("[]"), Ok(Node::Array(vec![])));
    assert_eq!(parse_json("{ }"), Ok(Node::Object(vec![])));
    assert_eq!(parse_json("{}"), Ok(Node::Object(vec![])));
    assert_eq!(
        parse_json(r#" { "1" : 2 } "#),
        Ok(Node::Object(vec![member("1", Node::Integer(2))]))
    );
    assert_eq!(
        parse_json("\n[\n\t1\r\n,\n2 ]\n"),
        Ok(Node::Array(vec![Node::Integer(1), Node::Integer(2)]))
    );
}

#[test]
fn duplicate_keys_are_kept_in_order() {
    assert_eq!(
        parse_json(r#"{"a":1,"a":2}"#),
        Ok(Node::Object(vec![member("a", Node::Integer(1)), member("a", Node::Integer(2))]))
    );
    assert_eq!(
        parse_json(r#"{"b":1,"a":2,"b":3}"#),
        Ok(Node::Object(vec![
            member("b", Node::Integer(1)),
            member("a", Node::Integer(2)),
            member("b", Node::Integer(3)),
        ]))
    );
}

#[test]
fn nested_containers() {
    assert_eq!(
        parse_json("[[],[[]],{}]"),
        Ok(Node::Array(vec![
            Node::Array(vec![]),
            Node::Array(vec![Node::Array(vec![])]),
            Node::Object(vec![]),
        ]))
    );
    assert_eq!(
        parse_json(r#"{"a":{"b":{"c":[null]}}}"#),
        Ok(Node::Object(vec![member(
            "a",
            Node::Object(vec![member(
                "b",
                Node::Object(vec![member("c", Node::Array(vec![Node::Null]))])
            )])
        )]))
    );
}

#[test]
fn malformed_containers_are_unparseable() {
    for text in [
        "[1,]",
        "[,1]",
        "[,]",
        "[1 2]",
        "[",
        "]",
        "[1",
        "[1,",
        "[1}",
        "{",
        "}",
        r#"{"a":1,}"#,
        r#"{,}"#,
        r#"{a:1}"#,
        r#"{'a':1}"#,
        r#"{"a" 1}"#,
        r#"{"a":}"#,
        r#"{"a"}"#,
        r#"{1:2}"#,
        r#"{"a":1 "b":2}"#,
        r#"{"a":1]"#,
        "// comment\n1",
        "1 // comment",
    ] {
        assert_eq!(parse_json(text), Err(JSONParseError::Unparseable), "{}", text);
    }
}

#[test]
fn literals_are_case_sensitive() {
    assert_eq!(parse_json("true"), Ok(Node::Bool(true)));
    assert_eq!(parse_json("false"), Ok(Node::Bool(false)));
    assert_eq!(parse_json("null"), Ok(Node::Null));
    for text in ["True", "FALSE", "Null", "nul", "tru", "fals", "nulll"] {
        assert_eq!(parse_json(text), Err(JSONParseError::Unparseable), "{}", text);
    }
}

#[test]
fn error_messages() {
    assert_eq!(JSONParseError::BadInt.message(), "bad integer");
    assert_eq!(JSONParseError::BadFloat.message(), "bad float");
    assert_eq!(JSONParseError::BadEscape.message(), "bad escape sequence");
    assert_eq!(JSONParseError::Unparseable.message(), "unknown parser error");
}

#[test]
fn a_copy_of_a_tree_equals_the_tree() {
    let tree = parse_json(r#"{"a":[1,2.5,"x",true,null,{"b":[]}]}"#).unwrap();
    assert_eq!(tree.clone(), tree);
}

#[test]
fn every_json_text_is_read() {
    for text in [
        "null",
        " true ",
        "\tfalse\n",
        "0",
        "-0",
        "12",
        "-9223372036854775808",
        "1.5",
        "-0.25e+10",
        "3E2",
        r#""""#,
        r#""plain text""#,
        r#""tab\tquote\"slash\/""#,
        "[]",
        "[ ]",
        "{}",
        "{ }",
        "[1]",
        "[1 ,7] ",
        " [ 1 , [ 2 , [ ] ] , { } ] ",
        r#"{"a":1}"#,
        r#" { "a" : 1 , "b" : [ true , null ] , "a" : { "c" : "d" } } "#,
        r#"[[[[[[[["deep"]]]]]]]]"#,
    ] {
        assert!(parse_json(text).is_ok(), "{}", text);
    }
}
