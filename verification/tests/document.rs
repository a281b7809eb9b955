use mini_json::{is_no_match, json, json_value, ErrorKind, Expected, Json, ParseError};

fn failure(kind: ErrorKind, expected: Expected, at: &str) -> ParseError<'_> {
    ParseError { kind, expected, at }
}

#[test]
fn empty_array_and_empty_object() {
    assert_eq!(json("[]"), Ok(("", Json::Array(vec![]))));
    assert_eq!(json("{}"), Ok(("", Json::Object(vec![]))));
}

#[test]
fn nested_construction_keeps_order() {
    assert_eq!(
        json("[null, true, 1, \"a\"]"),
        Ok((
            "",
            Json::Array(vec![
                Json::Null,
                Json::Bool(true),
                Json::Number(1),
                Json::String("a".into())
            ])
        ))
    );
}

#[test]
fn duplicate_keys_are_not_merged() {
    assert_eq!(
        json("{\"a\": 1, \"a\": 2}"),
        Ok((
            "",
            Json::Object(vec![
                ("a".into(), Json::Number(1)),
                ("a".into(), Json::Number(2))
            ])
        ))
    );
}

#[test]
fn nested_objects() {
    assert_eq!(
        json("{\"outer\": {\"inner\": \"value\"}}"),
        Ok((
            "",
            Json::Object(vec![(
                "outer".into(),
                Json::Object(vec![("inner".into(), Json::String("value".into()))])
            )])
        ))
    );
}

#[test]
fn document_of_every_kind() {
    assert_eq!(json("null"), Ok(("", Json::Null)));
    assert_eq!(json("true"), Ok(("", Json::Bool(true))));
    assert_eq!(json("false"), Ok(("", Json::Bool(false))));
    assert_eq!(json("0"), Ok(("", Json::Number(0))));
    assert_eq!(json("\"\""), Ok(("", Json::String("".into()))));
    assert_eq!(
        json("\n{\n  \"a\": [1, {\"b\": null}],\n  \"c\": \"\"\n}\n"),
        Ok((
            "",
            Json::Object(vec![
                (
                    "a".into(),
                    Json::Array(vec![
                        Json::Number(1),
                        Json::Object(vec![("b".into(), Json::Null)])
                    ])
                ),
                ("c".into(), Json::String("".into())),
            ])
        ))
    );
}

#[test]
fn trailing_data_fails_the_document_only() {
    assert_eq!(json_value("null x"), Ok((" x", Json::Null)));
    assert_eq!(json("null x"), Err(failure(ErrorKind::TrailingData, Expected::End, " x")));
    assert_eq!(json_value("[1] x"), Ok(("x", Json::Array(vec![Json::Number(1)]))));
    assert_eq!(json("[1] x"), Err(failure(ErrorKind::TrailingData, Expected::End, "x")));
    assert_eq!(json("{}{}"), Err(failure(ErrorKind::TrailingData, Expected::End, "{}")));
    assert_eq!(json("truefalse"), Err(failure(ErrorKind::TrailingData, Expected::End, "false")));
    assert_eq!(json("\"a\"\"b\""), Err(failure(ErrorKind::TrailingData, Expected::End, "\"b\"")));
    assert_eq!(json("1,2"), Err(failure(ErrorKind::TrailingData, Expected::End, ",2")));
    assert_eq!(json("12a"), Err(failure(ErrorKind::TrailingData, Expected::End, "a")));
    assert_eq!(json("[]]"), Err(failure(ErrorKind::TrailingData, Expected::End, "]")));
}

#[test]
fn whitespace_behind_a_bare_value_is_trailing_data() {
    assert_eq!(json("1 "), Err(failure(ErrorKind::TrailingData, Expected::End, " ")));
    assert_eq!(json("null\n"), Err(failure(ErrorKind::TrailingData, Expected::End, "\n")));
    assert_eq!(json("\"a\" "), Err(failure(ErrorKind::TrailingData, Expected::End, " ")));
    assert_eq!(json("[1] \n"), Ok(("", Json::Array(vec![Json::Number(1)]))));
    assert_eq!(json(" {} "), Ok(("", Json::Object(vec![]))));
}

#[test]
fn parsing_twice_gives_equal_trees() {
    let text = "{\"a\": [1, 2, {\"b\": [true, false, null]}], \"a\": \"x\"}";
    assert_eq!(json(text), json(text));
    assert!(json(text).is_ok());
    let copy = String::from(text);
    assert_eq!(json(text).unwrap().1, json(&copy).unwrap().1);
    assert_eq!(json("[1,2"), json("[1,2"));
}

#[test]
fn malformed_documents_fail() {
    assert_eq!(json("\"abc"), Err(failure(ErrorKind::Malformed, Expected::ClosingQuote, "")));
    assert_eq!(json("[1,2"), Err(failure(ErrorKind::Malformed, Expected::ClosingBracket, "")));
    assert_eq!(json("[1,2,]"), Err(failure(ErrorKind::Malformed, Expected::ClosingBracket, ",]")));
    assert_eq!(
        json("18446744073709551616"),
        Err(failure(ErrorKind::Malformed, Expected::Number, "18446744073709551616"))
    );
    assert_eq!(
        json("{\"n\": 18446744073709551616}"),
        Err(failure(ErrorKind::Malformed, Expected::Number, "18446744073709551616}"))
    );
    assert_eq!(
        json("{\"a\": [1, 2}"),
        Err(failure(ErrorKind::Malformed, Expected::ClosingBracket, "}"))
    );
}

#[test]
fn documents_that_do_not_begin() {
    assert_eq!(json(""), Err(failure(ErrorKind::NoMatch, Expected::Value, "")));
    assert_eq!(json("   "), Err(failure(ErrorKind::NoMatch, Expected::Value, "   ")));
    assert_eq!(json("nul"), Err(failure(ErrorKind::NoMatch, Expected::Value, "nul")));
    assert_eq!(json("-5"), Err(failure(ErrorKind::NoMatch, Expected::Value, "-5")));
    assert_eq!(json(" 5"), Err(failure(ErrorKind::NoMatch, Expected::Value, " 5")));
    assert_eq!(json("1.5"), Err(failure(ErrorKind::TrailingData, Expected::End, ".5")));
    assert_eq!(json("1e5"), Err(failure(ErrorKind::TrailingData, Expected::End, "e5")));
}

#[test]
fn is_no_match_tells_the_kinds_apart() {
    assert!(is_no_match(&json("x")));
    assert!(!is_no_match(&json("1")));
    assert!(!is_no_match(&json("[1")));
    assert!(!is_no_match(&json("1 1")));
}

#[test]
fn deep_nesting() {
    let depth = 200;
    let mut text = String::new();
    for _ in 0..depth {
        text.push('[');
    }
    for _ in 0..depth {
        text.push(']');
    }
    let mut expected = Json::Array(vec![]);
    for _ in 1..depth {
        expected = Json::Array(vec![expected]);
    }
    assert_eq!(json(&text), Ok(("", expected)));
}

#[test]
fn a_character_behind_a_document_is_trailing_data() {
    let documents = [
        "null",
        "true",
        "false",
        "0",
        "123",
        "\"\"",
        "\"a b\"",
        "[]",
        "[1, 2]",
        "{}",
        "{\"a\": [null]}",
        " [ ] ",
    ];
    let characters = ['x', ',', ']', '}', '[', '{', '"', ':', 'n', '-', '.', 'é'];
    for document in documents {
        let (_, value) = json(document).unwrap();
        for c in characters {
            let text = format!("{}{}", document, c);
            let tail = c.to_string();
            assert_eq!(json_value(&text), Ok((tail.as_str(), json(document).unwrap().1)));
            assert_eq!(json(&text), Err(failure(ErrorKind::TrailingData, Expected::End, &tail)));
        }
        assert_eq!(json(document).unwrap().1, value);
    }
}

#[test]
fn a_digit_behind_a_number_makes_a_longer_number() {
    assert_eq!(json("12"), Ok(("", Json::Number(12))));
    assert_eq!(json("123"), Ok(("", Json::Number(123))));
    assert_eq!(json("[1]2"), Err(failure(ErrorKind::TrailingData, Expected::End, "2")));
    assert_eq!(json("null2"), Err(failure(ErrorKind::TrailingData, Expected::End, "2")));
}

#[test]
fn numbers_written_in_decimal_parse_to_themselves() {
    let numbers = [
        0u64,
        1,
        9,
        10,
        11,
        99,
        100,
        12345,
        4294967295,
        4294967296,
        9999999999999999999,
        10000000000000000000,
        u64::MAX - 1,
        u64::MAX,
    ];
    for n in numbers {
        let text = n.to_string();
        assert_eq!(json(&text), Ok(("", Json::Number(n))));
        let padded = format!("000{}", text);
        assert_eq!(json(&padded), Ok(("", Json::Number(n))));
        let in_array = format!("[{}]", text);
        assert_eq!(json(&in_array), Ok(("", Json::Array(vec![Json::Number(n)]))));
    }
}

#[test]
fn strings_without_quotes_parse_to_themselves() {
    let texts = ["", " ", "a", "null", "[1, 2]", "{\\}", "tab\there", "line\nbreak", "ümlaut ✓"];
    for text in texts {
        let quoted = format!("\"{}\"", text);
        assert_eq!(json(&quoted), Ok(("", Json::String(text.into()))));
        let followed = format!("\"{}\"rest", text);
        assert_eq!(json_value(&followed), Ok(("rest", Json::String(text.into()))));
    }
}

#[test]
fn failures_stand_at_a_tail_of_the_text() {
    let texts = [
        "", "x", "[1, 2", "[1,,2]", "{\"a\": }", "{\"a\" 1}", "\"abc", "[\"abc", "1 2",
        "[1] [2]", "{\"a\": 99999999999999999999}", "[[[[1, 2]]], [3, [4, x]]]",
    ];
    for text in texts {
        let e = json(text).unwrap_err();
        assert!(text.ends_with(e.at));
    }
}
