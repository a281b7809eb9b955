//! What a recognizer leaves is a tail of the text it was given.
//!
//! The lemmas of this file follow the grammar through a text and show, of
//! every outcome, that what is left and the place of a failure are tails of
//! the text, that a value consumes at least one character, and which kinds
//! of failure can occur.

use crate::chars::{after_run, lemma_run_is_maximal, run, CharClass};
use crate::error::{ErrorKind, Expected, Failure};
use crate::grammar::{
    array_at, bool_at, document_at, elements_at, literal_at, member_at, members_at, null_at,
    number_at, object_at, padded_at, string_at, string_literal_at, value_at, Parse,
};
use vstd::prelude::*;

verus! {

/// What holds of every failure `e` of a recognizer of values on the text
/// `s`: it is found at a tail of `s`, a `NoMatch` at `s` itself, and it is
/// not of the kind that only a whole document fails with.
pub open spec fn fails_within(e: Failure, s: Seq<char>) -> bool {
    &&& e.at.is_suffix_of(s)
    &&& e.kind == ErrorKind::NoMatch ==> e.at == s
    &&& e.kind != ErrorKind::TrailingData
}

/// What holds of every outcome of a recognizer on the text `s`: what it
/// leaves is a tail of `s`, and a failure is one within `s`.
pub open spec fn stays_within<T>(outcome: Parse<T>, s: Seq<char>) -> bool {
    match outcome {
        Ok((rest, _)) => rest.is_suffix_of(s),
        Err(e) => fails_within(e, s),
    }
}

/// A text is a tail of itself, and so is what is left when some of its
/// first characters are dropped.
pub proof fn lemma_skip_is_tail(s: Seq<char>, n: int)
    requires
        0 <= n <= s.len(),
    ensures
        s.skip(n).is_suffix_of(s),
        s.is_suffix_of(s),
{
    assert(s =~= s.subrange(0, s.len() as int));
}

/// A tail of a tail is a tail.
pub proof fn lemma_tail_of_tail(a: Seq<char>, b: Seq<char>, c: Seq<char>)
    requires
        a.is_suffix_of(b),
        b.is_suffix_of(c),
    ensures
        a.is_suffix_of(c),
{
    assert(a =~= c.subrange(c.len() - a.len(), c.len() as int));
}

/// A literal that is found is what the text begins with; what follows it
/// is left.
pub proof fn lemma_literal_consumes(s: Seq<char>, lit: Seq<char>)
    ensures
        match literal_at(s, lit) {
            Ok((rest, _)) => s == lit + rest && rest.is_suffix_of(s),
            Err(e) => e == Failure::no_match(Expected::Literal, s),
        },
{
    if let Ok((rest, _)) = literal_at(s, lit) {
        assert(s =~= lit + rest);
        lemma_skip_is_tail(s, lit.len() as int);
    }
}

/// A padded literal consumes at least the literal and leaves a tail of the
/// text; where it is not found, the failure stands at a tail of the text.
pub proof fn lemma_padded_consumes(s: Seq<char>, lit: Seq<char>)
    ensures
        match padded_at(s, lit) {
            Ok((rest, _)) => rest.len() + lit.len() <= s.len() && rest.is_suffix_of(s),
            Err(e) => e.kind == ErrorKind::NoMatch && e.at.is_suffix_of(s),
        },
{
    lemma_run_is_maximal(s, CharClass::Space);
    let start = after_run(s, CharClass::Space);
    lemma_skip_is_tail(s, run(s, CharClass::Space) as int);
    lemma_literal_consumes(start, lit);
    if let Ok((behind, _)) = literal_at(start, lit) {
        lemma_run_is_maximal(behind, CharClass::Space);
        lemma_skip_is_tail(behind, run(behind, CharClass::Space) as int);
        lemma_tail_of_tail(behind, start, s);
        lemma_tail_of_tail(after_run(behind, CharClass::Space), behind, s);
    }
}

/// A string consumes its two quotes and what stands between them, and
/// leaves a tail of the text.
pub proof fn lemma_string_literal_consumes(s: Seq<char>)
    ensures
        stays_within(string_literal_at(s), s),
        string_literal_at(s) matches Ok((rest, text)) ==> rest.len() + text.len() + 2 == s.len(),
{
    lemma_skip_is_tail(s, 0);
    if s.len() > 0 && s[0] == '"' {
        let body = s.drop_first();
        let n = run(body, CharClass::Unquoted) as int;
        lemma_run_is_maximal(body, CharClass::Unquoted);
        lemma_skip_is_tail(s, 1);
        lemma_skip_is_tail(body, n);
        lemma_tail_of_tail(body.skip(n), body, s);
        if n < body.len() {
            lemma_skip_is_tail(body, n + 1);
            lemma_tail_of_tail(body.skip(n + 1), body, s);
        }
    }
}

/// A primitive value that is found consumes at least one character, and
/// every outcome stays within the text.
pub proof fn lemma_primitive_consumes(s: Seq<char>)
    ensures
        stays_within(null_at(s), s),
        stays_within(bool_at(s), s),
        stays_within(number_at(s), s),
        stays_within(string_at(s), s),
        null_at(s) matches Ok((rest, _)) ==> rest.len() < s.len(),
        bool_at(s) matches Ok((rest, _)) ==> rest.len() < s.len(),
        number_at(s) matches Ok((rest, _)) ==> rest.len() < s.len(),
        string_at(s) matches Ok((rest, _)) ==> rest.len() < s.len(),
{
    reveal_strlit("null");
    reveal_strlit("true");
    reveal_strlit("false");
    lemma_literal_consumes(s, "null"@);
    lemma_literal_consumes(s, "true"@);
    lemma_literal_consumes(s, "false"@);
    lemma_run_is_maximal(s, CharClass::Digit);
    lemma_skip_is_tail(s, run(s, CharClass::Digit) as int);
    lemma_string_literal_consumes(s);
}

/// A value that is found consumes at least one character, and every
/// outcome stays within the text.
pub proof fn lemma_value_consumes(s: Seq<char>)
    ensures
        stays_within(value_at(s), s),
        value_at(s) matches Ok((rest, _)) ==> rest.len() < s.len(),
    decreases s.len(), 2nat,
{
    lemma_primitive_consumes(s);
    lemma_array_consumes(s);
    lemma_object_consumes(s);
}

/// An array that is found consumes at least one character, and every
/// outcome stays within the text.
pub proof fn lemma_array_consumes(s: Seq<char>)
    ensures
        stays_within(array_at(s), s),
        array_at(s) matches Ok((rest, _)) ==> rest.len() < s.len(),
    decreases s.len(), 1nat,
{
    reveal_strlit("[");
    lemma_skip_is_tail(s, 0);
    lemma_padded_consumes(s, "["@);
    if let Ok((inside, _)) = padded_at(s, "["@) {
        lemma_elements_consume(inside, true);
        match elements_at(inside, true) {
            Ok((behind, _)) => {
                lemma_tail_of_tail(behind, inside, s);
                lemma_padded_consumes(behind, "]"@);
                match padded_at(behind, "]"@) {
                    Ok((rest, _)) => lemma_tail_of_tail(rest, behind, s),
                    Err(e) => lemma_tail_of_tail(e.at, behind, s),
                }
            },
            Err(e) => lemma_tail_of_tail(e.at, inside, s),
        }
    }
}

/// The values of an array leave a tail of the text, and they fail only
/// where one of them is malformed.
pub proof fn lemma_elements_consume(s: Seq<char>, first: bool)
    ensures
        stays_within(elements_at(s, first), s),
        elements_at(s, first) matches Err(e) ==> e.kind == ErrorKind::Malformed,
    decreases s.len(), 4nat,
{
    reveal_strlit(",");
    lemma_skip_is_tail(s, 0);
    lemma_padded_consumes(s, ","@);
    if let Ok((start, _)) = (if first {
        Ok((s, ()))
    } else {
        padded_at(s, ","@)
    }) {
        lemma_value_consumes(start);
        match value_at(start) {
            Ok((behind, _)) => {
                lemma_tail_of_tail(behind, start, s);
                lemma_elements_consume(behind, false);
                match elements_at(behind, false) {
                    Ok((rest, _)) => lemma_tail_of_tail(rest, behind, s),
                    Err(e) => lemma_tail_of_tail(e.at, behind, s),
                }
            },
            Err(e) => lemma_tail_of_tail(e.at, start, s),
        }
    }
}

/// An object that is found consumes at least one character, and every
/// outcome stays within the text.
pub proof fn lemma_object_consumes(s: Seq<char>)
    ensures
        stays_within(object_at(s), s),
        object_at(s) matches Ok((rest, _)) ==> rest.len() < s.len(),
    decreases s.len(), 1nat,
{
    reveal_strlit("{");
    lemma_skip_is_tail(s, 0);
    lemma_padded_consumes(s, "{"@);
    if let Ok((inside, _)) = padded_at(s, "{"@) {
        lemma_members_consume(inside, true);
        match members_at(inside, true) {
            Ok((behind, _)) => {
                lemma_tail_of_tail(behind, inside, s);
                lemma_padded_consumes(behind, "}"@);
                match padded_at(behind, "}"@) {
                    Ok((rest, _)) => lemma_tail_of_tail(rest, behind, s),
                    Err(e) => lemma_tail_of_tail(e.at, behind, s),
                }
            },
            Err(e) => lemma_tail_of_tail(e.at, inside, s),
        }
    }
}

/// A member that is found consumes at least one character, and every
/// outcome stays within the text.
pub proof fn lemma_member_consumes(s: Seq<char>)
    ensures
        stays_within(member_at(s), s),
        member_at(s) matches Ok((rest, _)) ==> rest.len() < s.len(),
    decreases s.len(), 3nat,
{
    reveal_strlit(":");
    lemma_string_literal_consumes(s);
    if let Ok((behind_key, _)) = string_literal_at(s) {
        lemma_padded_consumes(behind_key, ":"@);
        match padded_at(behind_key, ":"@) {
            Ok((start, _)) => {
                lemma_tail_of_tail(start, behind_key, s);
                lemma_value_consumes(start);
                match value_at(start) {
                    Ok((rest, _)) => lemma_tail_of_tail(rest, start, s),
                    Err(e) => lemma_tail_of_tail(e.at, start, s),
                }
            },
            Err(e) => lemma_tail_of_tail(e.at, behind_key, s),
        }
    }
}

/// The members of an object leave a tail of the text, and they fail only
/// where one of them is malformed.
pub proof fn lemma_members_consume(s: Seq<char>, first: bool)
    ensures
        stays_within(members_at(s, first), s),
        members_at(s, first) matches Err(e) ==> e.kind == ErrorKind::Malformed,
    decreases s.len(), 4nat,
{
    reveal_strlit(",");
    lemma_skip_is_tail(s, 0);
    lemma_padded_consumes(s, ","@);
    if let Ok((start, _)) = (if first {
        Ok((s, ()))
    } else {
        padded_at(s, ","@)
    }) {
        lemma_member_consumes(start);
        match member_at(start) {
            Ok((behind, _)) => {
                lemma_tail_of_tail(behind, start, s);
                lemma_members_consume(behind, false);
                match members_at(behind, false) {
                    Ok((rest, _)) => lemma_tail_of_tail(rest, behind, s),
                    Err(e) => lemma_tail_of_tail(e.at, behind, s),
                }
            },
            Err(e) => lemma_tail_of_tail(e.at, start, s),
        }
    }
}

/// Every outcome of a document stays within the text, but that its failure
/// may be of the kind `TrailingData`.
pub proof fn lemma_document_consumes(s: Seq<char>)
    ensures
        match document_at(s) {
            Ok((rest, _)) => rest.len() == 0,
            Err(e) => e.at.is_suffix_of(s) && (e.kind == ErrorKind::NoMatch ==> e.at == s),
        },
{
    lemma_value_consumes(s);
}

} // verus!
