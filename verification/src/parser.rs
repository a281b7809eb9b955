//! The recognizers.  Each one computes the function of the grammar that its
//! contract names.

use crate::chars::{
    after_run, digit_value, digits_value, lemma_digits_value_grows, lemma_run_is_unique, CharClass,
};
use crate::error::{ErrorKind, Expected, ParseError};
use crate::grammar::{
    array_at, bool_at, document_at, elements_at, lemma_with_front, literal_at, member_at,
    members_at, null_at, number_at, object_at, padded_at, string_at, string_literal_at, value_at,
    with_front, Parse,
};
use crate::scan::{digit1, eof, multispace0, tag, take_till_quote};
use crate::tails::{
    lemma_document_consumes, lemma_member_consumes, lemma_padded_consumes,
    lemma_string_literal_consumes, lemma_value_consumes,
};
use crate::value::{Json, JsonView};
use vstd::pervasive::unreached;
use vstd::prelude::*;
use vstd::string::StrSliceExecFns;

verus! {

/// The model of what a recognizer returns.
pub open spec fn outcome<'a, T: View>(r: Result<(&'a str, T), ParseError<'a>>) -> Parse<T::V> {
    match r {
        Ok((rest, value)) => Ok((rest@, value@)),
        Err(e) => Err(e@),
    }
}

/// Recognizes the characters of `text` at the front of `input`.
pub fn literal<'a>(text: &str, input: &'a str) -> (r: Result<(&'a str, ()), ParseError<'a>>)
    ensures
        outcome(r) == literal_at(input@, text@),
{
    match tag(text, input) {
        Some(rest) => {
            assert(text@.is_prefix_of(input@)) by {
                assert(input@.subrange(0, text@.len() as int) =~= text@);
            }
            assert(rest@ =~= input@.skip(text@.len() as int));
            Ok((rest, ()))
        },
        None => Err(ParseError::no_match(Expected::Literal, input)),
    }
}

/// Recognizes `null`.
pub fn json_null<'a>(input: &'a str) -> (r: Result<(&'a str, Json), ParseError<'a>>)
    ensures
        outcome(r) == null_at(input@),
        r matches Ok((rest, value)) ==> value@ == JsonView::Null && rest@.len() + 4
            == input@.len(),
{
    proof {
        reveal_strlit("null");
    }
    match literal("null", input) {
        Ok((rest, _)) => Ok((rest, Json::Null)),
        Err(_) => Err(ParseError::no_match(Expected::Null, input)),
    }
}

/// Recognizes `true` or `false`.
pub fn json_bool<'a>(input: &'a str) -> (r: Result<(&'a str, Json), ParseError<'a>>)
    ensures
        outcome(r) == bool_at(input@),
        r matches Ok((rest, value)) ==> {
            ||| value@ == JsonView::Bool(true) && rest@.len() + 4 == input@.len()
            ||| value@ == JsonView::Bool(false) && rest@.len() + 5 == input@.len()
        },
{
    proof {
        reveal_strlit("true");
        reveal_strlit("false");
    }
    match literal("true", input) {
        Ok((rest, _)) => Ok((rest, Json::Bool(true))),
        Err(_) => match literal("false", input) {
            Ok((rest, _)) => Ok((rest, Json::Bool(false))),
            Err(_) => Err(ParseError::no_match(Expected::Bool, input)),
        },
    }
}

/// The number that the decimal digits `digits` denote, if it fits in 64
/// bits.
fn digits_to_u64(digits: &str) -> (r: Option<u64>)
    requires
        forall|i: int| 0 <= i < digits@.len() ==> CharClass::Digit.has(#[trigger] digits@[i]),
    ensures
        match r {
            Some(n) => n == digits_value(digits@),
            None => digits_value(digits@) > u64::MAX,
        },
{
    let len: usize = digits.unicode_len();
    let mut value: u64 = 0;
    let mut i: usize = 0;
    while i < len
        invariant
            len == digits@.len(),
            i <= len,
            value == digits_value(digits@.take(i as int)),
            forall|k: int| 0 <= k < digits@.len() ==> CharClass::Digit.has(#[trigger] digits@[k]),
        decreases len - i,
    {
        let d: u8 = digits.get_ascii(i) - 48u8;
        proof {
            assert(digits@.take(i + 1).drop_last() =~= digits@.take(i as int));
            assert(d == digit_value(digits@[i as int]));
            lemma_digits_value_grows(digits@, i + 1);
        }
        match value.checked_mul(10) {
            None => {
                return None;
            },
            Some(tenfold) => match tenfold.checked_add(d as u64) {
                None => {
                    return None;
                },
                Some(next) => {
                    value = next;
                },
            },
        }
        i += 1;
    }
    assert(digits@.take(i as int) =~= digits@);
    Some(value)
}

/// Recognizes an unsigned decimal number.
pub fn json_number<'a>(input: &'a str) -> (r: Result<(&'a str, Json), ParseError<'a>>)
    ensures
        outcome(r) == number_at(input@),
{
    match digit1(input) {
        None => Err(ParseError::no_match(Expected::Number, input)),
        Some((rest, digits)) => {
            proof {
                lemma_run_is_unique(input@, digits@, rest@, CharClass::Digit);
            }
            match digits_to_u64(digits) {
                Some(n) => Ok((rest, Json::Number(n))),
                None => Err(ParseError::malformed(Expected::Number, input)),
            }
        },
    }
}

/// Recognizes a string and gives the characters between its quotes.
pub fn string_literal<'a>(input: &'a str) -> (r: Result<(&'a str, String), ParseError<'a>>)
    ensures
        outcome(r) == string_literal_at(input@),
{
    proof {
        reveal_strlit("\"");
    }
    match tag("\"", input) {
        None => Err(ParseError::no_match(Expected::String, input)),
        Some(body) => {
            assert(body@ =~= input@.drop_first());
            match take_till_quote(body) {
                None => unreached(),
                Some((closing, text)) => {
                    proof {
                        lemma_run_is_unique(body@, text@, closing@, CharClass::Unquoted);
                    }
                    match tag("\"", closing) {
                        None => Err(ParseError::malformed(Expected::ClosingQuote, closing)),
                        Some(rest) => {
                            assert(rest@ =~= body@.skip(text@.len() as int + 1));
                            Ok((rest, text.to_owned()))
                        },
                    }
                },
            }
        },
    }
}

/// Recognizes a string.
pub fn json_string<'a>(input: &'a str) -> (r: Result<(&'a str, Json), ParseError<'a>>)
    ensures
        outcome(r) == string_at(input@),
{
    match string_literal(input) {
        Ok((rest, text)) => Ok((rest, Json::String(text))),
        Err(e) => Err(e),
    }
}

/// Skips the whitespace at the front of `input`.
pub fn skip_spaces<'a>(input: &'a str) -> (rest: &'a str)
    ensures
        rest@ == after_run(input@, CharClass::Space),
{
    match multispace0(input) {
        Some((rest, spaces)) => {
            proof {
                lemma_run_is_unique(input@, spaces@, rest@, CharClass::Space);
            }
            rest
        },
        None => unreached(),
    }
}

/// Whether `r` is what `inner` returns at `start`, but for the whitespace
/// that is skipped behind what it recognized.
pub open spec fn padded_result<'a, T, F: Fn(&'a str) -> Result<(&'a str, T), ParseError<'a>>>(
    inner: F,
    start: &'a str,
    r: Result<(&'a str, T), ParseError<'a>>,
) -> bool {
    match r {
        Ok((rest, value)) => exists|behind: &'a str| #[trigger]
            inner.ensures((start,), Ok((behind, value))) && rest@ == after_run(
                behind@,
                CharClass::Space,
            ),
        Err(e) => inner.ensures((start,), Err(e)),
    }
}

/// Applies `inner` behind the whitespace at the front of `input`, and skips
/// the whitespace behind what it recognized.  A failure of `inner` is
/// returned as it is.
pub fn ws<'a, T, F: Fn(&'a str) -> Result<(&'a str, T), ParseError<'a>>>(
    inner: F,
    input: &'a str,
) -> (r: Result<(&'a str, T), ParseError<'a>>)
    requires
        forall|start: &'a str|
            start@ == after_run(input@, CharClass::Space) ==> #[trigger] inner.requires((start,)),
    ensures
        exists|start: &'a str|
            start@ == after_run(input@, CharClass::Space) && #[trigger] padded_result(
                inner,
                start,
                r,
            ),
{
    let start = skip_spaces(input);
    match inner(start) {
        Ok((behind, value)) => {
            let rest = skip_spaces(behind);
            assert(exists|b: &'a str| #[trigger]
                inner.ensures((start,), Ok((b, value))) && rest@ == after_run(
                    b@,
                    CharClass::Space,
                )) by {
                assert(inner.ensures((start,), Ok((behind, value))));
            }
            let r: Result<(&'a str, T), ParseError<'a>> = Ok((rest, value));
            assert(r matches Ok((x, y)) && x == rest && y == value);
            assert(padded_result(inner, start, r));
            r
        },
        Err(e) => {
            assert(padded_result(inner, start, Err(e)));
            Err(e)
        },
    }
}

/// Recognizes the characters of `text` with any whitespace around them.
pub fn padded<'a>(text: &str, input: &'a str) -> (r: Result<(&'a str, ()), ParseError<'a>>)
    ensures
        outcome(r) == padded_at(input@, text@),
{
    let inner = |s: &'a str| -> (got: Result<(&'a str, ()), ParseError<'a>>)
        ensures
            outcome(got) == literal_at(s@, text@),
        { literal(text, s) };
    ws(inner, input)
}

/// Whether `r` is a failure of the kind `NoMatch`.
pub fn is_no_match<'a, T>(r: &Result<(&'a str, T), ParseError<'a>>) -> (b: bool)
    ensures
        b == (r matches Err(e) && e.kind == ErrorKind::NoMatch),
{
    match r {
        Err(e) => match e.kind {
            ErrorKind::NoMatch => true,
            _ => false,
        },
        Ok(_) => false,
    }
}

/// Recognizes an array.
pub fn json_array<'a>(input: &'a str) -> (r: Result<(&'a str, Json), ParseError<'a>>)
    ensures
        outcome(r) == array_at(input@),
    decreases input@.len(), 1nat,
{
    proof {
        reveal_strlit("[");
        reveal_strlit(",");
        lemma_padded_consumes(input@, "["@);
    }
    let inside = match padded("[", input) {
        Ok((inside, _)) => inside,
        Err(_) => {
            return Err(ParseError::no_match(Expected::Array, input));
        },
    };
    let mut items: Vec<Json> = Vec::new();
    let ghost mut views: Seq<JsonView> = Seq::empty();
    let mut cur = inside;
    let mut first = true;
    proof {
        lemma_with_front(views, JsonView::Null, elements_at(cur@, first));
    }
    loop
        invariant
            cur@.len() < input@.len(),
            views.len() == items.len(),
            forall|i: int| 0 <= i < items.len() ==> views[i] == (#[trigger] items[i])@,
            padded_at(input@, "["@) matches Ok((behind_open, _)) && behind_open == inside@,
            elements_at(inside@, true) == with_front(views, elements_at(cur@, first)),
        ensures
            elements_at(inside@, true) matches Ok((rest, found)) && rest == cur@ && found == views,
        decreases cur@.len(),
    {
        let mut start = cur;
        if !first {
            match padded(",", cur) {
                Ok((behind_comma, _)) => {
                    start = behind_comma;
                },
                Err(_) => {
                    assert(views + Seq::<JsonView>::empty() =~= views);
                    break ;
                },
            }
        }
        proof {
            lemma_padded_consumes(cur@, ","@);
            lemma_value_consumes(start@);
        }
        let r = json_value(start);
        if is_no_match(&r) {
            assert(views + Seq::<JsonView>::empty() =~= views);
            break ;
        }
        match r {
            Err(e) => {
                return Err(e);
            },
            Ok((behind, item)) => {
                proof {
                    lemma_with_front(views, item@, elements_at(behind@, false));
                    views = views.push(item@);
                }
                items.push(item);
                cur = behind;
                first = false;
            },
        }
    }
    match padded("]", cur) {
        Err(e) => Err(ParseError::malformed(Expected::ClosingBracket, e.at)),
        Ok((rest, _)) => {
            let value = Json::Array(items);
            assert(value@ is Array);
            assert(value@->Array_0 =~= views);
            Ok((rest, value))
        },
    }
}

/// Recognizes a member of an object: its key, a colon and its value.
pub fn json_member<'a>(input: &'a str) -> (r: Result<(&'a str, (String, Json)), ParseError<'a>>)
    ensures
        outcome(r) == member_at(input@),
    decreases input@.len(), 3nat,
{
    proof {
        reveal_strlit(":");
        lemma_string_literal_consumes(input@);
    }
    match string_literal(input) {
        Err(e) => Err(e),
        Ok((behind_key, key)) => {
            proof {
                lemma_padded_consumes(behind_key@, ":"@);
            }
            match padded(":", behind_key) {
                Err(e) => Err(ParseError::malformed(Expected::Colon, e.at)),
                Ok((start, _)) => match json_value(start) {
                    Err(e) => Err(ParseError::malformed(e.expected, e.at)),
                    Ok((rest, value)) => Ok((rest, (key, value))),
                },
            }
        },
    }
}

/// Recognizes an object.
pub fn json_object<'a>(input: &'a str) -> (r: Result<(&'a str, Json), ParseError<'a>>)
    ensures
        outcome(r) == object_at(input@),
    decreases input@.len(), 1nat,
{
    proof {
        reveal_strlit("{");
        reveal_strlit(",");
        lemma_padded_consumes(input@, "{"@);
    }
    let inside = match padded("{", input) {
        Ok((inside, _)) => inside,
        Err(_) => {
            return Err(ParseError::no_match(Expected::Object, input));
        },
    };
    let mut members: Vec<(String, Json)> = Vec::new();
    let ghost mut views: Seq<(Seq<char>, JsonView)> = Seq::empty();
    let mut cur = inside;
    let mut first = true;
    proof {
        lemma_with_front(views, (Seq::empty(), JsonView::Null), members_at(cur@, first));
    }
    loop
        invariant
            cur@.len() < input@.len(),
            views.len() == members.len(),
            forall|i: int| 0 <= i < members.len() ==> views[i] == (#[trigger] members[i])@,
            padded_at(input@, "{"@) matches Ok((behind_open, _)) && behind_open == inside@,
            members_at(inside@, true) == with_front(views, members_at(cur@, first)),
        ensures
            members_at(inside@, true) matches Ok((rest, found)) && rest == cur@ && found == views,
        decreases cur@.len(),
    {
        let mut start = cur;
        if !first {
            match padded(",", cur) {
                Ok((behind_comma, _)) => {
                    start = behind_comma;
                },
                Err(_) => {
                    assert(views + Seq::<(Seq<char>, JsonView)>::empty() =~= views);
                    break ;
                },
            }
        }
        proof {
            lemma_padded_consumes(cur@, ","@);
            lemma_member_consumes(start@);
        }
        let r = json_member(start);
        if is_no_match(&r) {
            assert(views + Seq::<(Seq<char>, JsonView)>::empty() =~= views);
            break ;
        }
        match r {
            Err(e) => {
                return Err(e);
            },
            Ok((behind, member)) => {
                proof {
                    lemma_with_front(views, member@, members_at(behind@, false));
                    views = views.push(member@);
                }
                members.push(member);
                cur = behind;
                first = false;
            },
        }
    }
    match padded("}", cur) {
        Err(e) => Err(ParseError::malformed(Expected::ClosingBrace, e.at)),
        Ok((rest, _)) => {
            let value = Json::Object(members);
            assert(value@ is Object);
            assert(value@->Object_0 =~= views);
            Ok((rest, value))
        },
    }
}

/// Recognizes a value: the first of `null`, a boolean, a number, a string,
/// an array and an object that does not fail with `NoMatch`.
pub fn json_value<'a>(input: &'a str) -> (r: Result<(&'a str, Json), ParseError<'a>>)
    ensures
        outcome(r) == value_at(input@),
    decreases input@.len(), 2nat,
{
    let r = json_null(input);
    if !is_no_match(&r) {
        return r;
    }
    let r = json_bool(input);
    if !is_no_match(&r) {
        return r;
    }
    let r = json_number(input);
    if !is_no_match(&r) {
        return r;
    }
    let r = json_string(input);
    if !is_no_match(&r) {
        return r;
    }
    let r = json_array(input);
    if !is_no_match(&r) {
        return r;
    }
    let r = json_object(input);
    if !is_no_match(&r) {
        return r;
    }
    Err(ParseError::no_match(Expected::Value, input))
}

/// Parses a whole document: one value, and nothing behind it.  A failure
/// tells where in `input` it was found.
pub fn json<'a>(input: &'a str) -> (r: Result<(&'a str, Json), ParseError<'a>>)
    ensures
        outcome(r) == document_at(input@),
        r matches Ok((rest, _)) ==> rest@.len() == 0,
        r matches Err(e) ==> e.at@.is_suffix_of(input@),
{
    proof {
        lemma_document_consumes(input@);
    }
    match json_value(input) {
        Err(e) => Err(e),
        Ok((rest, value)) => {
            if eof(rest) {
                Ok((rest, value))
            } else {
                Err(ParseError::trailing_data(rest))
            }
        },
    }
}

} // verus!
