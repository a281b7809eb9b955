//! What holds of the grammar and of the recognizers for every text.

use crate::chars::{
    after_run, all_in, decimal, digits_value, lemma_decimal_of_digits, lemma_digits_of_decimal,
    lemma_run_is_maximal, lemma_run_is_unique, lemma_without_leading_zeros,
    without_leading_zeros, CharClass,
};
use crate::error::{ErrorKind, Expected, Failure, ParseError};
use crate::extension::{ends_value, lemma_value_extends};
use crate::grammar::{
    array_at, bool_at, document_at, failed, failure_of, found, null_at, number_at, object_at,
    padded_at, string_at, string_literal_at, value_at, value_of,
};
use crate::parser::{json, outcome};
use crate::tails::{
    lemma_array_consumes, lemma_elements_consume, lemma_members_consume, lemma_object_consumes,
    lemma_value_consumes,
};
use crate::value::{Json, JsonView};
use vstd::prelude::*;

verus! {

/// The three literals parse to their values and leave exactly what follows
/// them, whatever that is.
pub proof fn law_literals(rest: Seq<char>)
    ensures
        null_at("null"@ + rest) == found(rest, JsonView::Null),
        bool_at("true"@ + rest) == found(rest, JsonView::Bool(true)),
        bool_at("false"@ + rest) == found(rest, JsonView::Bool(false)),
        value_at("null"@ + rest) == null_at("null"@ + rest),
        value_at("true"@ + rest) == bool_at("true"@ + rest),
        value_at("false"@ + rest) == bool_at("false"@ + rest),
        "null"@.len() == 4,
        "true"@.len() == 4,
        "false"@.len() == 5,
{
    reveal_strlit("null");
    reveal_strlit("true");
    reveal_strlit("false");
    let n = "null"@ + rest;
    let t = "true"@ + rest;
    let f = "false"@ + rest;
    assert(n.subrange(0, 4) =~= "null"@);
    assert(n.skip(4) =~= rest);
    assert(t.subrange(0, 4) =~= "true"@);
    assert(t.skip(4) =~= rest);
    assert(f.subrange(0, 5) =~= "false"@);
    assert(f.skip(5) =~= rest);
    assert(t[0] == 't' && f[0] == 'f');
    assert("null"@[0] == 'n' && "true"@[0] == 't');
}

/// A text of decimal digits whose number fits in 64 bits parses to that
/// number, and nothing of it is left.  Followed by `rest`, which does not go
/// on with a digit, it leaves `rest`.  The number, written in decimal, is
/// the text again without its leading zeros.
pub proof fn law_number_round_trip(digits: Seq<char>, rest: Seq<char>)
    requires
        digits.len() > 0,
        all_in(digits, CharClass::Digit),
        digits_value(digits) <= u64::MAX,
        rest.len() > 0 ==> !CharClass::Digit.has(rest[0]),
    ensures
        number_at(digits) == found(Seq::<char>::empty(), JsonView::Number(digits_value(digits))),
        number_at(digits + rest) == found(rest, JsonView::Number(digits_value(digits))),
        value_at(digits + rest) == number_at(digits + rest),
        decimal(digits_value(digits)) == without_leading_zeros(digits),
{
    reveal_strlit("null");
    reveal_strlit("true");
    reveal_strlit("false");
    lemma_without_leading_zeros(digits);
    lemma_decimal_of_digits(without_leading_zeros(digits));
    assert(digits + Seq::<char>::empty() =~= digits);
    lemma_run_is_unique(digits, digits, Seq::empty(), CharClass::Digit);
    lemma_run_is_unique(digits + rest, digits, rest, CharClass::Digit);
    assert((digits + rest)[0] == digits[0]);
}

/// Every number of 64 bits, written in decimal, parses to itself.
pub proof fn law_decimal_parses(n: u64)
    ensures
        number_at(decimal(n as nat)) == found(Seq::<char>::empty(), JsonView::Number(n as nat)),
        document_at(decimal(n as nat)) == number_at(decimal(n as nat)),
{
    lemma_digits_of_decimal(n as nat);
    law_number_round_trip(decimal(n as nat), Seq::empty());
    assert(decimal(n as nat) + Seq::<char>::empty() =~= decimal(n as nat));
}

/// A text of decimal digits whose number does not fit in 64 bits is
/// malformed, as a number, as a value and as a document.
pub proof fn law_oversized_number(digits: Seq<char>, rest: Seq<char>)
    requires
        all_in(digits, CharClass::Digit),
        digits_value(digits) > u64::MAX,
        rest.len() > 0 ==> !CharClass::Digit.has(rest[0]),
    ensures
        number_at(digits + rest) == failed::<JsonView>(
            Failure::malformed(Expected::Number, digits + rest),
        ),
        value_at(digits + rest) == number_at(digits + rest),
        document_at(digits + rest) == number_at(digits + rest),
{
    reveal_strlit("null");
    reveal_strlit("true");
    reveal_strlit("false");
    assert(digits.len() > 0);
    lemma_run_is_unique(digits + rest, digits, rest, CharClass::Digit);
    assert((digits + rest)[0] == digits[0]);
}

/// The characters `text`, none of them a `"`, between two `"` parse to
/// `text` exactly and leave what follows the second `"`.
pub proof fn law_string_round_trip(text: Seq<char>, rest: Seq<char>)
    requires
        all_in(text, CharClass::Unquoted),
    ensures
        string_literal_at(seq!['"'] + text + seq!['"'] + rest) == found(rest, text),
        string_at(seq!['"'] + text + seq!['"'] + rest) == found(rest, JsonView::String(text)),
        value_at(seq!['"'] + text + seq!['"'] + rest) == string_at(
            seq!['"'] + text + seq!['"'] + rest,
        ),
{
    reveal_strlit("null");
    reveal_strlit("true");
    reveal_strlit("false");
    let s = seq!['"'] + text + seq!['"'] + rest;
    let body = s.drop_first();
    let closing = seq!['"'] + rest;
    assert(body =~= text + closing);
    lemma_run_is_unique(body, text, closing, CharClass::Unquoted);
    assert(body.skip(text.len() as int + 1) =~= rest);
    law_lead_characters(s);
}

/// A string that is opened and never closed is malformed, as a string, as a
/// value and as a document.
pub proof fn law_unterminated_string(text: Seq<char>)
    requires
        all_in(text, CharClass::Unquoted),
    ensures
        string_literal_at(seq!['"'] + text) == failed::<Seq<char>>(
            Failure::malformed(Expected::ClosingQuote, Seq::empty()),
        ),
        value_at(seq!['"'] + text) == string_at(seq!['"'] + text),
        document_at(seq!['"'] + text) == string_at(seq!['"'] + text),
        document_at(seq!['"'] + text) is Err,
{
    reveal_strlit("null");
    reveal_strlit("true");
    reveal_strlit("false");
    let s = seq!['"'] + text;
    let body = s.drop_first();
    assert(body =~= text);
    assert(text + Seq::<char>::empty() =~= text);
    lemma_run_is_unique(body, text, Seq::empty(), CharClass::Unquoted);
    assert(body.skip(text.len() as int) =~= Seq::<char>::empty());
    law_lead_characters(s);
}

/// The text behind its leading whitespace.
pub open spec fn lead(s: Seq<char>) -> Seq<char> {
    after_run(s, CharClass::Space)
}

/// Which recognizers can match is decided by the first character of the
/// text, for an array and an object by the first one behind the leading
/// whitespace: `n`; `t` or `f`; a digit; `"`; `[`; `{`.  So at most one of
/// them does not fail with `NoMatch`.
pub proof fn law_lead_characters(s: Seq<char>)
    ensures
        s.len() == 0 || s[0] != 'n' ==> null_at(s) == failed::<JsonView>(
            Failure::no_match(Expected::Null, s),
        ),
        s.len() == 0 || (s[0] != 't' && s[0] != 'f') ==> bool_at(s) == failed::<JsonView>(
            Failure::no_match(Expected::Bool, s),
        ),
        s.len() == 0 || !CharClass::Digit.has(s[0]) ==> number_at(s) == failed::<JsonView>(
            Failure::no_match(Expected::Number, s),
        ),
        s.len() == 0 || s[0] != '"' ==> string_at(s) == failed::<JsonView>(
            Failure::no_match(Expected::String, s),
        ),
        lead(s).len() == 0 || lead(s)[0] != '[' ==> array_at(s) == failed::<JsonView>(
            Failure::no_match(Expected::Array, s),
        ),
        lead(s).len() == 0 || lead(s)[0] != '{' ==> object_at(s) == failed::<JsonView>(
            Failure::no_match(Expected::Object, s),
        ),
        s.len() == 0 || CharClass::Space.has(s[0]) || s == lead(s),
        s.len() > 0 && CharClass::Space.has(s[0]) ==> {
            &&& null_at(s) is Err
            &&& bool_at(s) is Err
            &&& number_at(s) is Err
            &&& string_at(s) is Err
        },
        value_at(s) is Err ==> value_at(s) == failed::<JsonView>(
            Failure::no_match(Expected::Value, s),
        ) || failure_of(value_at(s)).kind == ErrorKind::Malformed,
{
    reveal_strlit("null");
    reveal_strlit("true");
    reveal_strlit("false");
    reveal_strlit("[");
    reveal_strlit("{");
    if "null"@.is_prefix_of(s) {
        assert(s.subrange(0, 4)[0] == 'n');
    }
    if "true"@.is_prefix_of(s) {
        assert(s.subrange(0, 4)[0] == 't');
    }
    if "false"@.is_prefix_of(s) {
        assert(s.subrange(0, 5)[0] == 'f');
    }
    let start = after_run(s, CharClass::Space);
    if "["@.is_prefix_of(start) {
        assert(start.subrange(0, 1)[0] == '[');
    }
    if "{"@.is_prefix_of(start) {
        assert(start.subrange(0, 1)[0] == '{');
    }
    if s.len() > 0 && !CharClass::Space.has(s[0]) {
        assert(s.skip(0) =~= s);
    }
    lemma_value_consumes(s);
}

/// Once its opening bracket is read, an array is found whole or the text is
/// malformed: no other kind of value is tried in its place.
pub proof fn law_opened_array(s: Seq<char>)
    requires
        padded_at(s, "["@) is Ok,
    ensures
        array_at(s) matches Err(e) ==> e.kind == ErrorKind::Malformed,
        value_at(s) == array_at(s),
{
    reveal_strlit("[");
    law_lead_characters(s);
    lemma_run_is_maximal(s, CharClass::Space);
    lemma_array_consumes(s);
    if let Ok((inside, _)) = padded_at(s, "["@) {
        lemma_elements_consume(inside, true);
    }
}

/// Once its opening brace is read, an object is found whole or the text is
/// malformed.
pub proof fn law_opened_object(s: Seq<char>)
    requires
        padded_at(s, "{"@) is Ok,
    ensures
        object_at(s) matches Err(e) ==> e.kind == ErrorKind::Malformed,
        value_at(s) == object_at(s),
{
    reveal_strlit("{");
    law_lead_characters(s);
    lemma_run_is_maximal(s, CharClass::Space);
    lemma_object_consumes(s);
    if let Ok((inside, _)) = padded_at(s, "{"@) {
        lemma_members_consume(inside, true);
    }
}

/// A value with anything left behind it is no document: where the value
/// alone is found, the document fails with what is left.
pub proof fn law_trailing_data(s: Seq<char>)
    ensures
        match value_at(s) {
            Ok((rest, value)) => document_at(s) == if rest.len() == 0 {
                value_at(s)
            } else {
                Err(Failure::trailing_data(rest))
            },
            Err(e) => document_at(s) == value_at(s),
        },
        document_at(s) matches Ok((rest, _)) ==> rest.len() == 0,
        document_at(s) matches Err(e) ==> (e.kind == ErrorKind::TrailingData <==> value_at(s)
            is Ok),
{
    lemma_value_consumes(s);
}

/// A document with a text after it is a value and trailing data: the value
/// is found as before and the text is left, as long as the text does not
/// go on with a digit behind a number, or with whitespace behind an array or
/// an object.
pub proof fn law_trailing_text(s: Seq<char>, t: Seq<char>)
    requires
        document_at(s) is Ok,
        t.len() > 0,
        ends_value(value_of(document_at(s)), Seq::empty(), t),
    ensures
        value_at(s + t) == found(t, value_of(document_at(s))),
        document_at(s + t) == failed::<JsonView>(Failure::trailing_data(t)),
{
    lemma_value_extends(s, t);
    assert(Seq::<char>::empty() + t =~= t);
}

/// A document with one more character that is no whitespace is no
/// document, though the value is still found in it; unless the document is
/// a number and the character a digit, which make a longer number.
pub proof fn law_trailing_character(s: Seq<char>, c: char)
    requires
        document_at(s) is Ok,
        !CharClass::Space.has(c),
        !(value_of(document_at(s)) is Number && CharClass::Digit.has(c)),
    ensures
        value_at(s.push(c)) == found(seq![c], value_of(document_at(s))),
        document_at(s.push(c)) == failed::<JsonView>(Failure::trailing_data(seq![c])),
{
    law_trailing_text(s, seq![c]);
    assert(s + seq![c] =~= s.push(c));
}

/// Parsing is a function of the characters of the text: whatever `json`
/// returns for two texts with the same characters has the same model.
pub proof fn law_json_is_deterministic<'a, 'b>(
    a: &'a str,
    b: &'b str,
    ra: Result<(&'a str, Json), ParseError<'a>>,
    rb: Result<(&'b str, Json), ParseError<'b>>,
)
    requires
        a@ == b@,
        call_ensures(json, (a,), ra),
        call_ensures(json, (b,), rb),
    ensures
        outcome(ra) == outcome(rb),
{
}

} // verus!
