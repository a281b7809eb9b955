use mini_json::{
    json_array, json_bool, json_member, json_null, json_number, json_object, json_string,
    json_value, literal, padded, skip_spaces, string_literal, ws, ErrorKind, Expected, Json,
    ParseError,
};

fn no_match(expected: Expected, at: &str) -> ParseError<'_> {
    ParseError { kind: ErrorKind::NoMatch, expected, at }
}

fn malformed(expected: Expected, at: &str) -> ParseError<'_> {
    ParseError { kind: ErrorKind::Malformed, expected, at }
}

#[test]
fn test_json_null() {
    assert_eq!(json_null("null").unwrap().1, Json::Null);
}

#[test]
fn test_json_bool() {
    assert_eq!(json_bool("true").unwrap().1, Json::Bool(true));
    assert_eq!(json_bool("false").unwrap().1, Json::Bool(false));
}

#[test]
fn test_json_number() {
    assert_eq!(json_number("1").unwrap().1, Json::Number(1));
    assert_eq!(json_number("123").unwrap().1, Json::Number(123));
}

#[test]
fn test_json_string() {
    assert_eq!(json_string("\"\"").unwrap().1, Json::String("".into()));
    assert_eq!(json_string("\"a\"").unwrap().1, Json::String("a".into()));
}

#[test]
fn test_json_array() {
    assert_eq!(json_array("[]").unwrap().1, Json::Array(vec![]));
    assert_eq!(
        json_array("[null]").unwrap().1,
        Json::Array(vec![Json::Null])
    );
    assert_eq!(
        json_array("[null, true, 1, \"a\"]").unwrap().1,
        Json::Array(vec![
            Json::Null,
            Json::Bool(true),
            Json::Number(1),
            Json::String("a".into())
        ])
    );
}

#[test]
fn test_json_object() {
    assert_eq!(json_object("{}").unwrap().1, Json::Object(vec![]));
    assert_eq!(
        json_object("{\"key\": \"value\"}").unwrap().1,
        Json::Object(vec![("key".into(), Json::String("value".into()))])
    );
    assert_eq!(
        json_object("{\"outer\": {\"inner\": \"value\"}}")
            .unwrap()
            .1,
        Json::Object(vec![(
            "outer".into(),
            Json::Object(vec![("inner".into(), Json::String("value".into()))])
        )])
    );
}

#[test]
fn literals_consume_exactly_their_length() {
    assert_eq!(json_null("null"), Ok(("", Json::Null)));
    assert_eq!(json_null("nullx"), Ok(("x", Json::Null)));
    assert_eq!(json_null("null null"), Ok((" null", Json::Null)));
    assert_eq!(json_bool("true"), Ok(("", Json::Bool(true))));
    assert_eq!(json_bool("truely"), Ok(("ly", Json::Bool(true))));
    assert_eq!(json_bool("false"), Ok(("", Json::Bool(false))));
    assert_eq!(json_bool("false,1"), Ok((",1", Json::Bool(false))));
}

#[test]
fn literals_do_not_match_elsewhere() {
    assert_eq!(json_null(""), Err(no_match(Expected::Null, "")));
    assert_eq!(json_null("nul"), Err(no_match(Expected::Null, "nul")));
    assert_eq!(json_null(" null"), Err(no_match(Expected::Null, " null")));
    assert_eq!(json_null("Null"), Err(no_match(Expected::Null, "Null")));
    assert_eq!(json_bool("tru"), Err(no_match(Expected::Bool, "tru")));
    assert_eq!(json_bool("fals"), Err(no_match(Expected::Bool, "fals")));
    assert_eq!(json_bool("null"), Err(no_match(Expected::Bool, "null")));
}

#[test]
fn literal_matches_a_prefix() {
    assert_eq!(literal("ab", "abc"), Ok(("c", ())));
    assert_eq!(literal("", "abc"), Ok(("abc", ())));
    assert_eq!(literal("abc", "ab"), Err(no_match(Expected::Literal, "ab")));
    assert_eq!(literal("é", "été"), Ok(("té", ())));
    assert_eq!(literal("b", "abc"), Err(no_match(Expected::Literal, "abc")));
}

#[test]
fn number_takes_the_whole_digit_run() {
    assert_eq!(json_number("0"), Ok(("", Json::Number(0))));
    assert_eq!(json_number("12ab"), Ok(("ab", Json::Number(12))));
    assert_eq!(json_number("12 34"), Ok((" 34", Json::Number(12))));
    assert_eq!(json_number("1.5"), Ok((".5", Json::Number(1))));
    assert_eq!(json_number("42,"), Ok((",", Json::Number(42))));
}

#[test]
fn number_ignores_leading_zeros() {
    assert_eq!(json_number("007"), Ok(("", Json::Number(7))));
    assert_eq!(json_number("0000"), Ok(("", Json::Number(0))));
    assert_eq!(
        json_number("00000000000000000000000000000000000000001"),
        Ok(("", Json::Number(1)))
    );
}

#[test]
fn number_needs_a_digit() {
    assert_eq!(json_number(""), Err(no_match(Expected::Number, "")));
    assert_eq!(json_number("-1"), Err(no_match(Expected::Number, "-1")));
    assert_eq!(json_number("+1"), Err(no_match(Expected::Number, "+1")));
    assert_eq!(json_number(" 1"), Err(no_match(Expected::Number, " 1")));
    assert_eq!(json_number("a1"), Err(no_match(Expected::Number, "a1")));
    assert_eq!(json_number("١٢"), Err(no_match(Expected::Number, "١٢")));
}

#[test]
fn number_at_the_limit_of_64_bits() {
    assert_eq!(
        json_number("18446744073709551615"),
        Ok(("", Json::Number(u64::MAX)))
    );
    assert_eq!(
        json_number("18446744073709551614]"),
        Ok(("]", Json::Number(u64::MAX - 1)))
    );
    assert_eq!(
        json_number("018446744073709551615"),
        Ok(("", Json::Number(u64::MAX)))
    );
}

#[test]
fn oversized_number_is_malformed() {
    assert_eq!(
        json_number("18446744073709551616"),
        Err(malformed(Expected::Number, "18446744073709551616"))
    );
    assert_eq!(
        json_number("18446744073709551620"),
        Err(malformed(Expected::Number, "18446744073709551620"))
    );
    assert_eq!(
        json_number("99999999999999999999999999 "),
        Err(malformed(Expected::Number, "99999999999999999999999999 "))
    );
    assert_eq!(
        json_value("184467440737095516150"),
        Err(malformed(Expected::Number, "184467440737095516150"))
    );
}

#[test]
fn string_holds_what_stands_between_the_quotes() {
    assert_eq!(string_literal("\"abc\""), Ok(("", String::from("abc"))));
    assert_eq!(
        string_literal("\"abc\"def"),
        Ok(("def", String::from("abc")))
    );
    assert_eq!(
        string_literal("\"  a b\t\n \" "),
        Ok((" ", String::from("  a b\t\n ")))
    );
    assert_eq!(
        json_string("\"héllo wörld ✓\"]"),
        Ok(("]", Json::String("héllo wörld ✓".into())))
    );
    assert_eq!(
        json_string("\"[1, 2] {} null\""),
        Ok(("", Json::String("[1, 2] {} null".into())))
    );
}

#[test]
fn string_decodes_no_escape() {
    assert_eq!(
        json_string("\"a\\nb\""),
        Ok(("", Json::String("a\\nb".into())))
    );
    assert_eq!(
        json_string("\"a\\\"b\""),
        Ok(("b\"", Json::String("a\\".into())))
    );
}

#[test]
fn string_needs_both_quotes() {
    assert_eq!(string_literal(""), Err(no_match(Expected::String, "")));
    assert_eq!(string_literal("abc\""), Err(no_match(Expected::String, "abc\"")));
    assert_eq!(string_literal(" \"abc\""), Err(no_match(Expected::String, " \"abc\"")));
    assert_eq!(string_literal("\"abc"), Err(malformed(Expected::ClosingQuote, "")));
    assert_eq!(string_literal("\""), Err(malformed(Expected::ClosingQuote, "")));
    assert_eq!(json_string("\"abc"), Err(malformed(Expected::ClosingQuote, "")));
    assert_eq!(json_string("'abc'"), Err(no_match(Expected::String, "'abc'")));
}

#[test]
fn skip_spaces_skips_the_four_whitespace_characters() {
    assert_eq!(skip_spaces(" \t\r\n x y "), "x y ");
    assert_eq!(skip_spaces("x "), "x ");
    assert_eq!(skip_spaces(""), "");
    assert_eq!(skip_spaces("   "), "");
    assert_eq!(skip_spaces("\u{a0}x"), "\u{a0}x");
    assert_eq!(skip_spaces("\u{b}x"), "\u{b}x");
}

#[test]
fn padded_takes_whitespace_on_both_sides() {
    assert_eq!(padded(",", " , x"), Ok(("x", ())));
    assert_eq!(padded(",", ",x "), Ok(("x ", ())));
    assert_eq!(padded("[", "\n\t[\r\n"), Ok(("", ())));
    assert_eq!(padded(",", "  x"), Err(no_match(Expected::Literal, "x")));
    assert_eq!(padded(",", "   "), Err(no_match(Expected::Literal, "")));
}

#[test]
fn ws_wraps_any_recognizer() {
    assert_eq!(ws(json_number, "  12  x"), Ok(("x", Json::Number(12))));
    assert_eq!(ws(json_null, "null"), Ok(("", Json::Null)));
    assert_eq!(
        ws(string_literal, "\t\" a \"\n"),
        Ok(("", String::from(" a ")))
    );
    assert_eq!(ws(json_number, "  x"), Err(no_match(Expected::Number, "x")));
    assert_eq!(ws(json_string, "  \"x"), Err(malformed(Expected::ClosingQuote, "")));
}

#[test]
fn array_keeps_the_order_of_the_text() {
    assert_eq!(
        json_array("[3,1,2]"),
        Ok((
            "",
            Json::Array(vec![Json::Number(3), Json::Number(1), Json::Number(2)])
        ))
    );
    assert_eq!(
        json_array("[[], [[]], [1, [2, [3]]]]"),
        Ok((
            "",
            Json::Array(vec![
                Json::Array(vec![]),
                Json::Array(vec![Json::Array(vec![])]),
                Json::Array(vec![
                    Json::Number(1),
                    Json::Array(vec![Json::Number(2), Json::Array(vec![Json::Number(3)])])
                ]),
            ])
        ))
    );
}

#[test]
fn array_allows_whitespace_around_its_marks() {
    assert_eq!(
        json_array(" \n[ 1 ,\t2\r\n, 3 ] \n rest"),
        Ok((
            "rest",
            Json::Array(vec![Json::Number(1), Json::Number(2), Json::Number(3)])
        ))
    );
    assert_eq!(json_array("  [   ]  "), Ok(("", Json::Array(vec![]))));
    assert_eq!(
        json_array("[\" a \"]"),
        Ok(("", Json::Array(vec![Json::String(" a ".into())])))
    );
}

#[test]
fn array_that_does_not_begin() {
    assert_eq!(json_array(""), Err(no_match(Expected::Array, "")));
    assert_eq!(json_array("1]"), Err(no_match(Expected::Array, "1]")));
    assert_eq!(json_array("  {}"), Err(no_match(Expected::Array, "  {}")));
}

#[test]
fn array_left_open_is_malformed() {
    assert_eq!(json_array("[1,2"), Err(malformed(Expected::ClosingBracket, "")));
    assert_eq!(json_array("["), Err(malformed(Expected::ClosingBracket, "")));
    assert_eq!(json_array("[1 2]"), Err(malformed(Expected::ClosingBracket, "2]")));
    assert_eq!(json_array("[1, 2 }"), Err(malformed(Expected::ClosingBracket, "}")));
    assert_eq!(json_array("[x]"), Err(malformed(Expected::ClosingBracket, "x]")));
}

#[test]
fn array_takes_no_trailing_comma() {
    assert_eq!(json_array("[1,2,]"), Err(malformed(Expected::ClosingBracket, ",]")));
    assert_eq!(json_array("[1 , ]"), Err(malformed(Expected::ClosingBracket, ", ]")));
    assert_eq!(json_array("[,]"), Err(malformed(Expected::ClosingBracket, ",]")));
    assert_eq!(json_array("[,1]"), Err(malformed(Expected::ClosingBracket, ",1]")));
    assert_eq!(json_array("[1,,2]"), Err(malformed(Expected::ClosingBracket, ",,2]")));
}

#[test]
fn array_with_a_malformed_element_is_malformed() {
    assert_eq!(json_array("[\"abc]"), Err(malformed(Expected::ClosingQuote, "")));
    assert_eq!(json_array("[1, \"abc]"), Err(malformed(Expected::ClosingQuote, "")));
    assert_eq!(json_array("[1, [2, 3"), Err(malformed(Expected::ClosingBracket, "")));
    assert_eq!(
        json_array("[99999999999999999999999]"),
        Err(malformed(Expected::Number, "99999999999999999999999]"))
    );
    assert_eq!(json_array("[{\"a\" 1}]"), Err(malformed(Expected::Colon, "1}]")));
}

#[test]
fn member_is_key_colon_value() {
    assert_eq!(
        json_member("\"a\":1,"),
        Ok((",", (String::from("a"), Json::Number(1))))
    );
    assert_eq!(
        json_member("\"a\" \n:\t [] }"),
        Ok(("}", (String::from("a"), Json::Array(vec![]))))
    );
    assert_eq!(json_member("a:1"), Err(no_match(Expected::String, "a:1")));
    assert_eq!(json_member("\"a:1"), Err(malformed(Expected::ClosingQuote, "")));
    assert_eq!(json_member("\"a\" 1"), Err(malformed(Expected::Colon, "1")));
    assert_eq!(json_member("\"a\": x"), Err(malformed(Expected::Value, "x")));
    assert_eq!(json_member("\"a\":"), Err(malformed(Expected::Value, "")));
    assert_eq!(json_member("\"a\": \"b"), Err(malformed(Expected::ClosingQuote, "")));
}

#[test]
fn object_keeps_duplicate_keys() {
    assert_eq!(
        json_object("{\"a\": 1, \"a\": 2}"),
        Ok((
            "",
            Json::Object(vec![
                ("a".into(), Json::Number(1)),
                ("a".into(), Json::Number(2))
            ])
        ))
    );
}

#[test]
fn object_keeps_the_order_of_the_text() {
    assert_eq!(
        json_object("{ \"z\" : null , \"a\" : [true] , \"\" : {} } tail"),
        Ok((
            "tail",
            Json::Object(vec![
                ("z".into(), Json::Null),
                ("a".into(), Json::Array(vec![Json::Bool(true)])),
                ("".into(), Json::Object(vec![])),
            ])
        ))
    );
    assert_eq!(
        json_object("{\" k \": \" v \"}"),
        Ok((
            "",
            Json::Object(vec![(" k ".into(), Json::String(" v ".into()))])
        ))
    );
}

#[test]
fn object_that_does_not_begin() {
    assert_eq!(json_object(""), Err(no_match(Expected::Object, "")));
    assert_eq!(json_object("[]"), Err(no_match(Expected::Object, "[]")));
    assert_eq!(json_object(" x{}"), Err(no_match(Expected::Object, " x{}")));
}

#[test]
fn object_that_is_malformed() {
    assert_eq!(json_object("{"), Err(malformed(Expected::ClosingBrace, "")));
    assert_eq!(json_object("{\"a\": 1"), Err(malformed(Expected::ClosingBrace, "")));
    assert_eq!(json_object("{\"a\": 1,}"), Err(malformed(Expected::ClosingBrace, ",}")));
    assert_eq!(json_object("{\"a\" 1}"), Err(malformed(Expected::Colon, "1}")));
    assert_eq!(json_object("{\"a\": }"), Err(malformed(Expected::Value, "}")));
    assert_eq!(json_object("{a: 1}"), Err(malformed(Expected::ClosingBrace, "a: 1}")));
    assert_eq!(json_object("{1: 1}"), Err(malformed(Expected::ClosingBrace, "1: 1}")));
    assert_eq!(
        json_object("{\"a\": 1 \"b\": 2}"),
        Err(malformed(Expected::ClosingBrace, "\"b\": 2}"))
    );
    assert_eq!(json_object("{\"a\": 1]"), Err(malformed(Expected::ClosingBrace, "]")));
    assert_eq!(json_object("{\"a"), Err(malformed(Expected::ClosingQuote, "")));
}

#[test]
fn value_takes_the_first_alternative_that_matches() {
    assert_eq!(json_value("null"), Ok(("", Json::Null)));
    assert_eq!(json_value("true"), Ok(("", Json::Bool(true))));
    assert_eq!(json_value("false"), Ok(("", Json::Bool(false))));
    assert_eq!(json_value("17"), Ok(("", Json::Number(17))));
    assert_eq!(json_value("\"s\""), Ok(("", Json::String("s".into()))));
    assert_eq!(json_value("[]"), Ok(("", Json::Array(vec![]))));
    assert_eq!(json_value("{}"), Ok(("", Json::Object(vec![]))));
    assert_eq!(json_value("  {}"), Ok(("", Json::Object(vec![]))));
    assert_eq!(json_value("  []"), Ok(("", Json::Array(vec![]))));
}

#[test]
fn value_takes_whitespace_only_around_marks() {
    assert_eq!(json_value(" null"), Err(no_match(Expected::Value, " null")));
    assert_eq!(json_value(" 1"), Err(no_match(Expected::Value, " 1")));
    assert_eq!(json_value(" \"a\""), Err(no_match(Expected::Value, " \"a\"")));
    assert_eq!(json_value("1 "), Ok((" ", Json::Number(1))));
    assert_eq!(json_value("null\n"), Ok(("\n", Json::Null)));
    assert_eq!(json_value("[1] "), Ok(("", Json::Array(vec![Json::Number(1)]))));
}

#[test]
fn value_that_does_not_begin() {
    assert_eq!(json_value(""), Err(no_match(Expected::Value, "")));
    assert_eq!(json_value("x"), Err(no_match(Expected::Value, "x")));
    assert_eq!(json_value("-1"), Err(no_match(Expected::Value, "-1")));
    assert_eq!(json_value("]"), Err(no_match(Expected::Value, "]")));
    assert_eq!(json_value("   "), Err(no_match(Expected::Value, "   ")));
}

#[test]
fn failures_are_built_by_their_kind() {
    assert_eq!(
        ParseError::no_match(Expected::Null, "x"),
        no_match(Expected::Null, "x")
    );
    assert_eq!(
        ParseError::malformed(Expected::Colon, "y"),
        malformed(Expected::Colon, "y")
    );
    assert_eq!(
        ParseError::trailing_data("z"),
        ParseError { kind: ErrorKind::TrailingData, expected: Expected::End, at: "z" }
    );
}
