//! How a recognizer fails.

use vstd::prelude::*;

verus! {

/// The ways in which a text can fail to parse.
#[derive(PartialEq, Eq, Debug, Clone, Copy, Structural)]
pub enum ErrorKind {
    /// What the recognizer looks for does not begin at this place.  Nothing
    /// was consumed, and another recognizer may be tried here.
    NoMatch,
    /// A construct began and did not end well: a number too large, a string
    /// or a bracket left open, a separator or a colon missing.
    Malformed,
    /// A value was read and the text goes on after it.
    TrailingData,
}

/// What a recognizer looked for at the place where it failed.
#[derive(PartialEq, Eq, Debug, Clone, Copy, Structural)]
pub enum Expected {
    /// The characters that were asked for.
    Literal,
    /// `null`.
    Null,
    /// `true` or `false`.
    Bool,
    /// Decimal digits, of a number that fits in 64 bits.
    Number,
    /// The `"` that opens a string.
    String,
    /// The `[` that opens an array.
    Array,
    /// The `{` that opens an object.
    Object,
    /// A value of any kind.
    Value,
    /// The `:` between a key and its value.
    Colon,
    /// The `"` that closes a string.
    ClosingQuote,
    /// The `]` that closes an array.
    ClosingBracket,
    /// The `}` that closes an object.
    ClosingBrace,
    /// The end of the text.
    End,
}

/// A failure: its kind, what was looked for, and the part of the input at
/// which it was found.
#[derive(PartialEq, Eq, Debug, Clone, Copy)]
pub struct ParseError<'a> {
    pub kind: ErrorKind,
    pub expected: Expected,
    /// The input from the place of the failure on.
    pub at: &'a str,
}

/// The model of a [`ParseError`].
pub struct Failure {
    pub kind: ErrorKind,
    pub expected: Expected,
    pub at: Seq<char>,
}

impl<'a> View for ParseError<'a> {
    type V = Failure;

    open spec fn view(&self) -> Failure {
        Failure { kind: self.kind, expected: self.expected, at: self.at@ }
    }
}

impl Failure {
    /// `expected` does not begin at `at`.
    pub open spec fn no_match(expected: Expected, at: Seq<char>) -> Failure {
        Failure { kind: ErrorKind::NoMatch, expected, at }
    }

    /// A construct that has begun lacks `expected` at `at`.
    pub open spec fn malformed(expected: Expected, at: Seq<char>) -> Failure {
        Failure { kind: ErrorKind::Malformed, expected, at }
    }

    /// The text goes on at `at`, where a document ends.
    pub open spec fn trailing_data(at: Seq<char>) -> Failure {
        Failure { kind: ErrorKind::TrailingData, expected: Expected::End, at }
    }
}

impl<'a> ParseError<'a> {
    /// `expected` does not begin at `at`.
    pub fn no_match(expected: Expected, at: &'a str) -> (e: Self)
        ensures
            e@ == Failure::no_match(expected, at@),
    {
        ParseError { kind: ErrorKind::NoMatch, expected, at }
    }

    /// A construct that has begun lacks `expected` at `at`.
    pub fn malformed(expected: Expected, at: &'a str) -> (e: Self)
        ensures
            e@ == Failure::malformed(expected, at@),
    {
        ParseError { kind: ErrorKind::Malformed, expected, at }
    }

    /// The text goes on at `at`, where a document ends.
    pub fn trailing_data(at: &'a str) -> (e: Self)
        ensures
            e@ == Failure::trailing_data(at@),
    {
        ParseError { kind: ErrorKind::TrailingData, expected: Expected::End, at }
    }
}

} // verus!
