//! Classes of characters, the runs they form at the front of a text, and
//! the number that a run of decimal digits denotes.

use vstd::prelude::*;

verus! {

/// The three classes of characters that the grammar scans for.
pub enum CharClass {
    /// Space, tab, carriage return and line feed.
    Space,
    /// The ASCII decimal digits.
    Digit,
    /// Every character but `"`.
    Unquoted,
}

impl CharClass {
    /// Whether `c` belongs to the class.
    pub open spec fn has(self, c: char) -> bool {
        match self {
            CharClass::Space => c == ' ' || c == '\t' || c == '\r' || c == '\n',
            CharClass::Digit => '0' <= c && c <= '9',
            CharClass::Unquoted => c != '"',
        }
    }
}

/// Whether every character of `s` belongs to `class`.
pub open spec fn all_in(s: Seq<char>, class: CharClass) -> bool {
    forall|i: int| 0 <= i < s.len() ==> class.has(#[trigger] s[i])
}

/// The length of the longest prefix of `s` made of characters of `class`.
pub open spec fn run(s: Seq<char>, class: CharClass) -> nat
    decreases s.len(),
{
    if s.len() > 0 && class.has(s[0]) {
        1 + run(s.drop_first(), class)
    } else {
        0
    }
}

/// `s` without its leading run of `class`.
pub open spec fn after_run(s: Seq<char>, class: CharClass) -> Seq<char> {
    s.skip(run(s, class) as int)
}

/// Whether `taken` is the leading run of `class` in `input` and `rest` is
/// what follows it: the cut lies before the first character outside the
/// class, or at the end where there is none.
pub open spec fn cuts_run(
    input: Seq<char>,
    taken: Seq<char>,
    rest: Seq<char>,
    class: CharClass,
) -> bool {
    &&& input == taken + rest
    &&& all_in(taken, class)
    &&& rest.len() > 0 ==> !class.has(rest[0])
}

/// The run is a prefix, its characters belong to the class, and the
/// character behind it, if there is one, does not.
pub proof fn lemma_run_is_maximal(s: Seq<char>, class: CharClass)
    ensures
        run(s, class) <= s.len(),
        cuts_run(s, s.take(run(s, class) as int), after_run(s, class), class),
    decreases s.len(),
{
    if s.len() > 0 && class.has(s[0]) {
        let t = s.drop_first();
        lemma_run_is_maximal(t, class);
        let n = run(s, class) as int;
        assert(s.take(n) =~= seq![s[0]] + t.take(n - 1));
        assert(s.skip(n) =~= t.skip(n - 1));
    }
    assert(s =~= s.take(run(s, class) as int) + after_run(s, class));
}

/// Only one cut of a text has a run of the class before it and none of the
/// class right behind it.
pub proof fn lemma_run_is_unique(
    input: Seq<char>,
    taken: Seq<char>,
    rest: Seq<char>,
    class: CharClass,
)
    requires
        cuts_run(input, taken, rest, class),
    ensures
        run(input, class) == taken.len(),
        taken == input.take(run(input, class) as int),
        rest == after_run(input, class),
    decreases taken.len(),
{
    if taken.len() > 0 {
        assert(input[0] == taken[0]);
        let shorter = taken.drop_first();
        assert(input.drop_first() =~= shorter + rest);
        assert forall|i: int| 0 <= i < shorter.len() implies class.has(#[trigger] shorter[i]) by {
            assert(shorter[i] == taken[i + 1]);
        }
        lemma_run_is_unique(input.drop_first(), shorter, rest, class);
    } else {
        assert(input =~= rest);
    }
    assert(taken =~= input.take(taken.len() as int));
    assert(rest =~= input.skip(taken.len() as int));
}

/// The number that the decimal digit `c` stands for.
pub open spec fn digit_value(c: char) -> nat {
    (c as nat - '0' as nat) as nat
}

/// The number that a sequence of decimal digits denotes, the most
/// significant digit first.  Leading zeros do not count, and the empty
/// sequence denotes zero.
pub open spec fn digits_value(s: Seq<char>) -> nat
    decreases s.len(),
{
    if s.len() == 0 {
        0
    } else {
        10 * digits_value(s.drop_last()) + digit_value(s.last())
    }
}

/// A number never shrinks when digits are appended to it.
pub proof fn lemma_digits_value_grows(s: Seq<char>, n: int)
    requires
        0 <= n <= s.len(),
    ensures
        digits_value(s.take(n)) <= digits_value(s),
    decreases s.len() - n,
{
    if n < s.len() {
        lemma_digits_value_grows(s, n + 1);
        assert(s.take(n + 1).drop_last() =~= s.take(n));
    } else {
        assert(s.take(n) =~= s);
    }
}

/// The character that writes the number `d`, which is less than ten.
pub open spec fn digit_char(d: nat) -> char {
    (d + 48) as u8 as char
}

/// The decimal digits that write `n`, with no leading zero unless `n` is
/// zero.
pub open spec fn decimal(n: nat) -> Seq<char>
    decreases n,
{
    if n < 10 {
        seq![digit_char(n)]
    } else {
        decimal(n / 10).push(digit_char(n % 10))
    }
}

/// `s` without its leading zeros, but for the last character.
pub open spec fn without_leading_zeros(s: Seq<char>) -> Seq<char>
    decreases s.len(),
{
    if s.len() > 1 && s[0] == '0' {
        without_leading_zeros(s.drop_first())
    } else {
        s
    }
}

/// A zero in front of digits does not change the number they denote.
pub proof fn lemma_zero_in_front(s: Seq<char>)
    ensures
        digits_value(seq!['0'] + s) == digits_value(s),
    decreases s.len(),
{
    let z = seq!['0'] + s;
    if s.len() == 0 {
        assert(z.drop_last() =~= Seq::<char>::empty());
        assert(digits_value(z.drop_last()) == 0);
    } else {
        lemma_zero_in_front(s.drop_last());
        assert(z.drop_last() =~= seq!['0'] + s.drop_last());
    }
}

/// Digits without their leading zeros are still digits, denote the same
/// number, and begin with a zero only where they are the one digit `0`.
pub proof fn lemma_without_leading_zeros(s: Seq<char>)
    requires
        s.len() > 0,
        all_in(s, CharClass::Digit),
    ensures
        without_leading_zeros(s).len() > 0,
        all_in(without_leading_zeros(s), CharClass::Digit),
        digits_value(without_leading_zeros(s)) == digits_value(s),
        without_leading_zeros(s).len() > 1 ==> without_leading_zeros(s)[0] != '0',
    decreases s.len(),
{
    if s.len() > 1 && s[0] == '0' {
        let t = s.drop_first();
        assert forall|i: int| 0 <= i < t.len() implies CharClass::Digit.has(#[trigger] t[i]) by {
            assert(t[i] == s[i + 1]);
        }
        lemma_without_leading_zeros(t);
        lemma_zero_in_front(t);
        assert(seq!['0'] + t =~= s);
    }
}

/// Digits that begin with no needless zero are the decimal writing of the
/// number they denote.
pub proof fn lemma_decimal_of_digits(s: Seq<char>)
    requires
        s.len() > 0,
        all_in(s, CharClass::Digit),
        s.len() > 1 ==> s[0] != '0',
    ensures
        decimal(digits_value(s)) == s,
        s[0] != '0' ==> digits_value(s) >= 1,
    decreases s.len(),
{
    let t = s.drop_last();
    let d = digit_value(s.last());
    assert(CharClass::Digit.has(s.last()));
    assert(digit_char(d) == s.last());
    if s.len() == 1 {
        assert(digits_value(t) == 0);
        assert(decimal(d) =~= s);
    } else {
        assert forall|i: int| 0 <= i < t.len() implies CharClass::Digit.has(#[trigger] t[i]) by {
            assert(t[i] == s[i]);
        }
        assert(t[0] == s[0]);
        lemma_decimal_of_digits(t);
        let v = digits_value(t);
        assert((10 * v + d) / 10 == v && (10 * v + d) % 10 == d);
        assert(t.push(s.last()) =~= s);
    }
}

/// The decimal writing of a number is made of digits and denotes it.
pub proof fn lemma_digits_of_decimal(n: nat)
    ensures
        decimal(n).len() > 0,
        all_in(decimal(n), CharClass::Digit),
        digits_value(decimal(n)) == n,
    decreases n,
{
    let d = if n < 10 {
        n
    } else {
        n % 10
    };
    assert(CharClass::Digit.has(digit_char(d)) && digit_value(digit_char(d)) == d);
    if n < 10 {
        assert(decimal(n).drop_last() =~= Seq::<char>::empty());
        assert(digits_value(decimal(n).drop_last()) == 0);
    } else {
        lemma_digits_of_decimal(n / 10);
        assert(decimal(n).drop_last() =~= decimal(n / 10));
    }
}

/// Whether `c` is the character that opens and closes a string.
pub fn is_quote(c: char) -> (b: bool)
    ensures
        b == !CharClass::Unquoted.has(c),
{
    c == '"'
}

} // verus!
