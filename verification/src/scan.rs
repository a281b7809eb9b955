//! The scanners of the `nom` crate that the recognizers are built on.
//!
//! Nothing in this file is proved.  Each function calls one parser of `nom`
//! on a `&str`, and its contract says what that parser does there.

use crate::chars::{cuts_run, is_quote, CharClass};
use vstd::prelude::*;

verus! {

/// Calls `nom::bytes::complete::tag`.
///
/// Claimed: where `input` begins with `literal`, the result is the rest of
/// `input` behind it; where it does not, there is no result.
#[verifier::external_body]
pub(crate) fn tag<'a>(literal: &str, input: &'a str) -> (r: Option<&'a str>)
    ensures
        match r {
            Some(rest) => input@ == literal@ + rest@,
            None => !literal@.is_prefix_of(input@),
        },
{
    match nom::bytes::complete::tag::<&str, &'a str, nom::error::Error<&'a str>>(literal)(input) {
        Ok((rest, _)) => Some(rest),
        Err(_) => None,
    }
}

/// Calls `nom::character::complete::digit1`.
///
/// Claimed: where `input` begins with an ASCII decimal digit, the result is
/// the rest of `input` behind its leading digits, and those digits; where
/// it is empty or begins with another character, there is no result.
#[verifier::external_body]
pub(crate) fn digit1<'a>(input: &'a str) -> (r: Option<(&'a str, &'a str)>)
    ensures
        match r {
            Some((rest, digits)) => digits@.len() > 0 && cuts_run(
                input@,
                digits@,
                rest@,
                CharClass::Digit,
            ),
            None => input@.len() == 0 || !CharClass::Digit.has(input@[0]),
        },
{
    nom::character::complete::digit1::<&'a str, nom::error::Error<&'a str>>(input).ok()
}

/// Calls `nom::character::complete::multispace0`.
///
/// Claimed: there always is a result, the rest of `input` behind its
/// leading spaces, tabs, carriage returns and line feeds, and those
/// characters.
#[verifier::external_body]
pub(crate) fn multispace0<'a>(input: &'a str) -> (r: Option<(&'a str, &'a str)>)
    ensures
        r is Some,
        cuts_run(input@, r.unwrap().1@, r.unwrap().0@, CharClass::Space),
{
    nom::character::complete::multispace0::<&'a str, nom::error::Error<&'a str>>(input).ok()
}

/// Calls `nom::bytes::complete::take_till` with the test for a `"`.
///
/// Claimed: there always is a result, the rest of `input` from its first
/// `"` on (empty where it has none), and the characters before that.
#[verifier::external_body]
pub(crate) fn take_till_quote<'a>(input: &'a str) -> (r: Option<(&'a str, &'a str)>)
    ensures
        r is Some,
        cuts_run(input@, r.unwrap().1@, r.unwrap().0@, CharClass::Unquoted),
{
    nom::bytes::complete::take_till::<_, &'a str, nom::error::Error<&'a str>>(
        |c: char| is_quote(c),
    )(input).ok()
}

/// Calls `nom::combinator::eof`.
///
/// Claimed: the result tells whether `input` is empty.
#[verifier::external_body]
pub(crate) fn eof(input: &str) -> (r: bool)
    ensures
        r == (input@.len() == 0),
{
    nom::combinator::eof::<&str, nom::error::Error<&str>>(input).is_ok()
}

} // verus!
