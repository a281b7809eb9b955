//! The grammar, as mathematical functions from a text to what stands at its
//! front.
//!
//! Each function takes the characters that are still to be read and gives
//! either what it recognized together with the characters that follow it,
//! or a [`Failure`].  A failure of kind `NoMatch` consumed nothing and is
//! found at the text itself.

use crate::chars::{after_run, digits_value, run, CharClass};
use crate::error::{ErrorKind, Expected, Failure};
use crate::tails::{lemma_padded_consumes, lemma_string_literal_consumes};
use crate::value::JsonView;
use vstd::prelude::*;

verus! {

/// What a recognizer makes of a text: the characters left over and the
/// thing recognized, or a failure.
pub type Parse<T> = Result<(Seq<char>, T), Failure>;

/// The outcome in which `value` was recognized and `rest` is left.
pub open spec fn found<T>(rest: Seq<char>, value: T) -> Parse<T> {
    Ok((rest, value))
}

/// The outcome that is the failure `e`.
pub open spec fn failed<T>(e: Failure) -> Parse<T> {
    Err(e)
}

/// What is left behind what was recognized.
pub open spec fn rest_of<T>(outcome: Parse<T>) -> Seq<char>
    recommends
        outcome is Ok,
{
    outcome->Ok_0.0
}

/// What was recognized.
pub open spec fn value_of<T>(outcome: Parse<T>) -> T
    recommends
        outcome is Ok,
{
    outcome->Ok_0.1
}

/// The failure of an outcome.
pub open spec fn failure_of<T>(outcome: Parse<T>) -> Failure
    recommends
        outcome is Err,
{
    outcome->Err_0
}

/// The first of two outcomes, unless it is `NoMatch`: then the second.
pub open spec fn or_else<T>(first: Parse<T>, second: Parse<T>) -> Parse<T> {
    if first matches Err(e) && e.kind == ErrorKind::NoMatch {
        second
    } else {
        first
    }
}

/// The list that was recognized, with `front` put before it.
pub open spec fn with_front<T>(front: Seq<T>, list: Parse<Seq<T>>) -> Parse<Seq<T>> {
    match list {
        Ok((rest, items)) => Ok((rest, front + items)),
        Err(e) => Err(e),
    }
}

/// The characters `lit` at the front of `s`.
pub open spec fn literal_at(s: Seq<char>, lit: Seq<char>) -> Parse<()> {
    if lit.is_prefix_of(s) {
        Ok((s.skip(lit.len() as int), ()))
    } else {
        Err(Failure::no_match(Expected::Literal, s))
    }
}

/// The characters `lit` with any whitespace before and after them.  A
/// failure is found behind the leading whitespace.
pub open spec fn padded_at(s: Seq<char>, lit: Seq<char>) -> Parse<()> {
    match literal_at(after_run(s, CharClass::Space), lit) {
        Ok((rest, _)) => Ok((after_run(rest, CharClass::Space), ())),
        Err(e) => Err(e),
    }
}

/// The literal `null`.
pub open spec fn null_at(s: Seq<char>) -> Parse<JsonView> {
    match literal_at(s, "null"@) {
        Ok((rest, _)) => Ok((rest, JsonView::Null)),
        Err(_) => Err(Failure::no_match(Expected::Null, s)),
    }
}

/// The literal `true` or the literal `false`.
pub open spec fn bool_at(s: Seq<char>) -> Parse<JsonView> {
    if let Ok((rest, _)) = literal_at(s, "true"@) {
        Ok((rest, JsonView::Bool(true)))
    } else if let Ok((rest, _)) = literal_at(s, "false"@) {
        Ok((rest, JsonView::Bool(false)))
    } else {
        Err(Failure::no_match(Expected::Bool, s))
    }
}

/// One or more decimal digits, as long as they go.  The number they denote
/// has to fit in 64 bits.
pub open spec fn number_at(s: Seq<char>) -> Parse<JsonView> {
    let n = run(s, CharClass::Digit) as int;
    if n == 0 {
        Err(Failure::no_match(Expected::Number, s))
    } else if digits_value(s.take(n)) > u64::MAX {
        Err(Failure::malformed(Expected::Number, s))
    } else {
        Ok((s.skip(n), JsonView::Number(digits_value(s.take(n)))))
    }
}

/// A `"`, the characters up to the next `"`, and that `"`.  Where the text
/// ends before a second `"`, the failure is found at its end.
pub open spec fn string_literal_at(s: Seq<char>) -> Parse<Seq<char>> {
    if s.len() > 0 && s[0] == '"' {
        let body = s.drop_first();
        let n = run(body, CharClass::Unquoted) as int;
        if n < body.len() {
            Ok((body.skip(n + 1), body.take(n)))
        } else {
            Err(Failure::malformed(Expected::ClosingQuote, body.skip(n)))
        }
    } else {
        Err(Failure::no_match(Expected::String, s))
    }
}

/// A string as a value.
pub open spec fn string_at(s: Seq<char>) -> Parse<JsonView> {
    match string_literal_at(s) {
        Ok((rest, text)) => Ok((rest, JsonView::String(text))),
        Err(e) => Err(e),
    }
}

/// A value: the first of `null`, a boolean, a number, a string, an array
/// and an object that does not fail with `NoMatch`.  Where all of them do,
/// no value begins here.
pub open spec fn value_at(s: Seq<char>) -> Parse<JsonView>
    decreases s.len(), 2nat,
{
    let first = or_else(
        null_at(s),
        or_else(
            bool_at(s),
            or_else(number_at(s), or_else(string_at(s), or_else(array_at(s), object_at(s)))),
        ),
    );
    if first matches Err(e) && e.kind == ErrorKind::NoMatch {
        Err(Failure::no_match(Expected::Value, s))
    } else {
        first
    }
}

/// `[`, values separated by `,`, and `]`, each of the three marks with any
/// whitespace around it.
pub open spec fn array_at(s: Seq<char>) -> Parse<JsonView>
    decreases s.len(), 1nat,
    via array_at_decreases
{
    match padded_at(s, "["@) {
        Err(_) => Err(Failure::no_match(Expected::Array, s)),
        Ok((inside, _)) => match elements_at(inside, true) {
            Err(e) => Err(e),
            Ok((behind, items)) => match padded_at(behind, "]"@) {
                Err(e) => Err(Failure::malformed(Expected::ClosingBracket, e.at)),
                Ok((rest, _)) => Ok((rest, JsonView::Array(items))),
            },
        },
    }
}

/// The values of an array from `s` on.  The first one stands at `s`
/// itself; each later one stands behind a `,`.  The list ends before the
/// place where no value begins, or, for a later one, before the `,` that no
/// value follows.
///
/// The comparison of lengths serves the termination of this definition;
/// by `lemma_value_consumes` it always holds.
pub open spec fn elements_at(s: Seq<char>, first: bool) -> Parse<Seq<JsonView>>
    decreases s.len(), 4nat,
    via elements_at_decreases
{
    match (if first { Ok((s, ())) } else { padded_at(s, ","@) }) {
        Err(_) => Ok((s, Seq::empty())),
        Ok((start, _)) => match value_at(start) {
            Err(e) => if e.kind == ErrorKind::NoMatch {
                Ok((s, Seq::empty()))
            } else {
                Err(e)
            },
            Ok((behind, item)) => if behind.len() < start.len() {
                with_front(seq![item], elements_at(behind, false))
            } else {
                Err(Failure::malformed(Expected::Value, behind))
            },
        },
    }
}

/// `{`, members separated by `,`, and `}`, each of the three marks with
/// any whitespace around it.
pub open spec fn object_at(s: Seq<char>) -> Parse<JsonView>
    decreases s.len(), 1nat,
    via object_at_decreases
{
    match padded_at(s, "{"@) {
        Err(_) => Err(Failure::no_match(Expected::Object, s)),
        Ok((inside, _)) => match members_at(inside, true) {
            Err(e) => Err(e),
            Ok((behind, members)) => match padded_at(behind, "}"@) {
                Err(e) => Err(Failure::malformed(Expected::ClosingBrace, e.at)),
                Ok((rest, _)) => Ok((rest, JsonView::Object(members))),
            },
        },
    }
}

/// A member of an object: a string, a `:` with any whitespace around it,
/// and a value.  Behind the key, whatever fails makes the member malformed.
pub open spec fn member_at(s: Seq<char>) -> Parse<(Seq<char>, JsonView)>
    decreases s.len(), 3nat,
    via member_at_decreases
{
    match string_literal_at(s) {
        Err(e) => Err(e),
        Ok((behind_key, key)) => match padded_at(behind_key, ":"@) {
            Err(e) => Err(Failure::malformed(Expected::Colon, e.at)),
            Ok((start, _)) => match value_at(start) {
                Err(e) => Err(Failure::malformed(e.expected, e.at)),
                Ok((rest, value)) => Ok((rest, (key, value))),
            },
        },
    }
}

/// The members of an object from `s` on, as [`elements_at`] gives the
/// values of an array.
///
/// The comparison of lengths serves the termination of this definition;
/// by `lemma_member_consumes` it always holds.
pub open spec fn members_at(s: Seq<char>, first: bool) -> Parse<Seq<(Seq<char>, JsonView)>>
    decreases s.len(), 4nat,
    via members_at_decreases
{
    match (if first { Ok((s, ())) } else { padded_at(s, ","@) }) {
        Err(_) => Ok((s, Seq::empty())),
        Ok((start, _)) => match member_at(start) {
            Err(e) => if e.kind == ErrorKind::NoMatch {
                Ok((s, Seq::empty()))
            } else {
                Err(e)
            },
            Ok((behind, member)) => if behind.len() < start.len() {
                with_front(seq![member], members_at(behind, false))
            } else {
                Err(Failure::malformed(Expected::Value, behind))
            },
        },
    }
}

/// A whole document: one value and then the end of the text.
pub open spec fn document_at(s: Seq<char>) -> Parse<JsonView> {
    match value_at(s) {
        Err(e) => Err(e),
        Ok((rest, value)) => if rest.len() == 0 {
            Ok((rest, value))
        } else {
            Err(Failure::trailing_data(rest))
        },
    }
}

/// Nothing put in front changes nothing, and an item may be put in front
/// by itself or as the last of those before it.
pub proof fn lemma_with_front<T>(front: Seq<T>, item: T, list: Parse<Seq<T>>)
    ensures
        with_front(Seq::empty(), list) == list,
        with_front(front, with_front(seq![item], list)) == with_front(front.push(item), list),
{
    if let Ok((rest, items)) = list {
        assert(Seq::<T>::empty() + items =~= items);
        assert(front + (seq![item] + items) =~= front.push(item) + items);
    }
}

#[via_fn]
proof fn array_at_decreases(s: Seq<char>) {
    reveal_strlit("[");
    lemma_padded_consumes(s, "["@);
}

#[via_fn]
proof fn object_at_decreases(s: Seq<char>) {
    reveal_strlit("{");
    lemma_padded_consumes(s, "{"@);
}

#[via_fn]
proof fn elements_at_decreases(s: Seq<char>, first: bool) {
    reveal_strlit(",");
    lemma_padded_consumes(s, ","@);
}

#[via_fn]
proof fn members_at_decreases(s: Seq<char>, first: bool) {
    reveal_strlit(",");
    lemma_padded_consumes(s, ","@);
}

#[via_fn]
proof fn member_at_decreases(s: Seq<char>) {
    reveal_strlit(":");
    lemma_string_literal_consumes(s);
    if let Ok((behind_key, _)) = string_literal_at(s) {
        lemma_padded_consumes(behind_key, ":"@);
    }
}

} // verus!
