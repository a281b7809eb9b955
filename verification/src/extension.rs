//! What a recognizer finds does not depend on the text that follows it.
//!
//! The lemmas of this file append a text `t` to a text `s` on which a
//! recognizer succeeds, and show that it succeeds on `s + t` with the same
//! result and with `t` appended to what it leaves.  Where the recognizer
//! left nothing of `s`, `t` must not go on with a character that the last
//! run of the result would have taken.

use crate::chars::{after_run, lemma_run_is_maximal, lemma_run_is_unique, run, CharClass};
use crate::error::ErrorKind;
use crate::grammar::{
    array_at, bool_at, elements_at, found, literal_at, member_at, members_at, null_at, number_at,
    object_at, padded_at, rest_of, string_at, string_literal_at, value_at, value_of,
};
use crate::laws::law_lead_characters;
use crate::tails::{
    lemma_elements_consume, lemma_member_consumes, lemma_members_consume, lemma_padded_consumes,
    lemma_string_literal_consumes, lemma_value_consumes,
};
use crate::value::JsonView;
use vstd::prelude::*;

verus! {

/// Whether a run of `class` that leaves `rest` stays as it is when `t` is
/// appended: the run ended before a character of the text, or `t` does not
/// begin with a character of the class.
pub open spec fn ends_run(rest: Seq<char>, t: Seq<char>, class: CharClass) -> bool {
    rest.len() > 0 || t.len() == 0 || !class.has(t[0])
}

/// Whether the value `v`, which leaves `rest`, stays as it is when `t` is
/// appended.  Only a number, which ends with a run of digits, and an array
/// or an object, which end with a run of whitespace, can go on.
pub open spec fn ends_value(v: JsonView, rest: Seq<char>, t: Seq<char>) -> bool {
    match v {
        JsonView::Number(_) => ends_run(rest, t, CharClass::Digit),
        JsonView::Array(_) => ends_run(rest, t, CharClass::Space),
        JsonView::Object(_) => ends_run(rest, t, CharClass::Space),
        _ => true,
    }
}

/// A run that has ended stays as it is when a text is appended.
pub proof fn lemma_run_extends(s: Seq<char>, t: Seq<char>, class: CharClass)
    requires
        ends_run(after_run(s, class), t, class),
    ensures
        run(s + t, class) == run(s, class),
        after_run(s + t, class) == after_run(s, class) + t,
        (s + t).take(run(s, class) as int) == s.take(run(s, class) as int),
{
    lemma_run_is_maximal(s, class);
    let taken = s.take(run(s, class) as int);
    let rest = after_run(s, class);
    assert(s + t =~= taken + (rest + t));
    lemma_run_is_unique(s + t, taken, rest + t, class);
}

/// A literal that is found is found when a text is appended.
pub proof fn lemma_literal_extends(s: Seq<char>, lit: Seq<char>, t: Seq<char>)
    requires
        literal_at(s, lit) is Ok,
    ensures
        literal_at(s + t, lit) == found(rest_of(literal_at(s, lit)) + t, ()),
{
    assert((s + t).subrange(0, lit.len() as int) =~= s.subrange(0, lit.len() as int));
    assert((s + t).skip(lit.len() as int) =~= s.skip(lit.len() as int) + t);
}

/// The first character behind the leading whitespace, where there is one,
/// stays the first when a text is appended.
pub proof fn lemma_lead_extends(s: Seq<char>, t: Seq<char>)
    requires
        after_run(s, CharClass::Space).len() > 0,
    ensures
        s.len() > 0,
        (s + t)[0] == s[0],
        after_run(s + t, CharClass::Space) == after_run(s, CharClass::Space) + t,
        after_run(s + t, CharClass::Space)[0] == after_run(s, CharClass::Space)[0],
        s[0] == after_run(s, CharClass::Space)[0] || CharClass::Space.has(s[0]),
{
    lemma_run_is_maximal(s, CharClass::Space);
    lemma_run_extends(s, t, CharClass::Space);
    if run(s, CharClass::Space) > 0 {
        assert(s.take(run(s, CharClass::Space) as int)[0] == s[0]);
    } else {
        assert(after_run(s, CharClass::Space) =~= s);
    }
}

/// A padded mark of one character that is found begins the text behind its
/// leading whitespace; one that is not found does not.
pub proof fn lemma_padded_mark(s: Seq<char>, lit: Seq<char>)
    requires
        lit.len() == 1,
    ensures
        padded_at(s, lit) is Ok <==> after_run(s, CharClass::Space).len() > 0 && after_run(
            s,
            CharClass::Space,
        )[0] == lit[0],
{
    let start = after_run(s, CharClass::Space);
    if lit.is_prefix_of(start) {
        assert(start.subrange(0, 1)[0] == lit[0]);
    }
    if start.len() > 0 && start[0] == lit[0] {
        assert(start.subrange(0, 1) =~= lit);
    }
}

/// A padded literal that is found is found when a text is appended, as
/// long as the whitespace behind it has ended.
pub proof fn lemma_padded_extends(s: Seq<char>, lit: Seq<char>, t: Seq<char>)
    requires
        lit.len() > 0,
        padded_at(s, lit) is Ok,
        ends_run(rest_of(padded_at(s, lit)), t, CharClass::Space),
    ensures
        padded_at(s + t, lit) == found(rest_of(padded_at(s, lit)) + t, ()),
{
    let start = after_run(s, CharClass::Space);
    assert(start.len() > 0);
    lemma_run_extends(s, t, CharClass::Space);
    lemma_literal_extends(start, lit, t);
    let behind = rest_of(literal_at(start, lit));
    lemma_run_extends(behind, t, CharClass::Space);
}

/// A string that is found is found when a text is appended.
pub proof fn lemma_string_literal_extends(s: Seq<char>, t: Seq<char>)
    requires
        string_literal_at(s) is Ok,
    ensures
        string_literal_at(s + t) == found(
            rest_of(string_literal_at(s)) + t,
            value_of(string_literal_at(s)),
        ),
{
    let body = s.drop_first();
    let n = run(body, CharClass::Unquoted) as int;
    lemma_run_is_maximal(body, CharClass::Unquoted);
    assert((s + t).drop_first() =~= body + t);
    lemma_run_extends(body, t, CharClass::Unquoted);
    assert((body + t).skip(n + 1) =~= body.skip(n + 1) + t);
}

/// A value that is found is found when a text is appended, as long as the
/// text does not go on with what the value ended with.
pub proof fn lemma_value_extends(s: Seq<char>, t: Seq<char>)
    requires
        value_at(s) is Ok,
        ends_value(value_of(value_at(s)), rest_of(value_at(s)), t),
    ensures
        value_at(s + t) == found(rest_of(value_at(s)) + t, value_of(value_at(s))),
    decreases s.len(), 2nat,
{
    reveal_strlit("null");
    reveal_strlit("true");
    reveal_strlit("false");
    reveal_strlit("[");
    reveal_strlit("{");
    lemma_value_consumes(s);
    law_lead_characters(s);
    law_lead_characters(s + t);
    assert((s + t)[0] == s[0]);
    if !(null_at(s) matches Err(e) && e.kind == ErrorKind::NoMatch) {
        lemma_literal_extends(s, "null"@, t);
    } else if !(bool_at(s) matches Err(e) && e.kind == ErrorKind::NoMatch) {
        if literal_at(s, "true"@) is Ok {
            lemma_literal_extends(s, "true"@, t);
        } else {
            lemma_literal_extends(s, "false"@, t);
        }
    } else if !(number_at(s) matches Err(e) && e.kind == ErrorKind::NoMatch) {
        lemma_run_extends(s, t, CharClass::Digit);
        let n = run(s, CharClass::Digit) as int;
        lemma_run_is_maximal(s, CharClass::Digit);
        assert((s + t).skip(n) =~= s.skip(n) + t);
    } else if !(string_at(s) matches Err(e) && e.kind == ErrorKind::NoMatch) {
        lemma_string_literal_extends(s, t);
    } else if !(array_at(s) matches Err(e) && e.kind == ErrorKind::NoMatch) {
        lemma_padded_mark(s, "["@);
        lemma_lead_extends(s, t);
        lemma_array_extends(s, t);
    } else {
        lemma_padded_mark(s, "{"@);
        lemma_lead_extends(s, t);
        lemma_object_extends(s, t);
    }
}

/// An array that is found is found when a text is appended, as long as the
/// whitespace behind it has ended.
pub proof fn lemma_array_extends(s: Seq<char>, t: Seq<char>)
    requires
        array_at(s) is Ok,
        ends_run(rest_of(array_at(s)), t, CharClass::Space),
    ensures
        array_at(s + t) == found(rest_of(array_at(s)) + t, value_of(array_at(s))),
    decreases s.len(), 1nat,
{
    reveal_strlit("[");
    reveal_strlit("]");
    let inside = rest_of(padded_at(s, "["@));
    let behind = rest_of(elements_at(inside, true));
    lemma_padded_consumes(s, "["@);
    lemma_elements_consume(inside, true);
    lemma_padded_consumes(behind, "]"@);
    lemma_padded_extends(s, "["@, t);
    lemma_elements_extend(inside, true, t);
    lemma_padded_extends(behind, "]"@, t);
}

/// The values of an array, where they are followed by its closing bracket,
/// are found when a text is appended.
pub proof fn lemma_elements_extend(s: Seq<char>, first: bool, t: Seq<char>)
    requires
        elements_at(s, first) is Ok,
        padded_at(rest_of(elements_at(s, first)), "]"@) is Ok,
    ensures
        elements_at(s + t, first) == found(
            rest_of(elements_at(s, first)) + t,
            value_of(elements_at(s, first)),
        ),
    decreases s.len(), 4nat,
{
    reveal_strlit(",");
    reveal_strlit("]");
    let rest = rest_of(elements_at(s, first));
    lemma_padded_mark(rest, "]"@);
    lemma_padded_mark(s, ","@);
    lemma_padded_mark(s + t, ","@);
    lemma_padded_consumes(s, ","@);
    lemma_elements_consume(s, first);
    if !first && padded_at(s, ","@) is Err {
        lemma_lead_extends(s, t);
    } else {
        let start = if first {
            s
        } else {
            rest_of(padded_at(s, ","@))
        };
        lemma_value_consumes(start);
        match value_at(start) {
            Ok((behind, item)) => {
                lemma_elements_consume(behind, false);
                assert(rest == rest_of(elements_at(behind, false)));
                assert(behind.len() > 0);
                if !first {
                    lemma_padded_extends(s, ","@, t);
                }
                lemma_value_extends(start, t);
                lemma_elements_extend(behind, false, t);
            },
            Err(e) => {
                assert(first);
                lemma_lead_extends(s, t);
                law_lead_characters(s + t);
            },
        }
    }
}

/// An object that is found is found when a text is appended, as long as
/// the whitespace behind it has ended.
pub proof fn lemma_object_extends(s: Seq<char>, t: Seq<char>)
    requires
        object_at(s) is Ok,
        ends_run(rest_of(object_at(s)), t, CharClass::Space),
    ensures
        object_at(s + t) == found(rest_of(object_at(s)) + t, value_of(object_at(s))),
    decreases s.len(), 1nat,
{
    reveal_strlit("{");
    reveal_strlit("}");
    let inside = rest_of(padded_at(s, "{"@));
    let behind = rest_of(members_at(inside, true));
    lemma_padded_consumes(s, "{"@);
    lemma_members_consume(inside, true);
    lemma_padded_consumes(behind, "}"@);
    lemma_padded_extends(s, "{"@, t);
    lemma_members_extend(inside, true, t);
    lemma_padded_extends(behind, "}"@, t);
}

/// A member that is found is found when a text is appended, as long as the
/// text does not go on with what the member's value ended with.
pub proof fn lemma_member_extends(s: Seq<char>, t: Seq<char>)
    requires
        member_at(s) is Ok,
        ends_value(value_of(member_at(s)).1, rest_of(member_at(s)), t),
    ensures
        member_at(s + t) == found(rest_of(member_at(s)) + t, value_of(member_at(s))),
    decreases s.len(), 3nat,
{
    reveal_strlit(":");
    let behind_key = rest_of(string_literal_at(s));
    let start = rest_of(padded_at(behind_key, ":"@));
    lemma_string_literal_consumes(s);
    lemma_padded_consumes(behind_key, ":"@);
    lemma_value_consumes(start);
    lemma_string_literal_extends(s, t);
    lemma_padded_extends(behind_key, ":"@, t);
    lemma_value_extends(start, t);
}

/// The members of an object, where they are followed by its closing brace,
/// are found when a text is appended.
pub proof fn lemma_members_extend(s: Seq<char>, first: bool, t: Seq<char>)
    requires
        members_at(s, first) is Ok,
        padded_at(rest_of(members_at(s, first)), "}"@) is Ok,
    ensures
        members_at(s + t, first) == found(
            rest_of(members_at(s, first)) + t,
            value_of(members_at(s, first)),
        ),
    decreases s.len(), 4nat,
{
    reveal_strlit(",");
    reveal_strlit("}");
    let rest = rest_of(members_at(s, first));
    lemma_padded_mark(rest, "}"@);
    lemma_padded_mark(s, ","@);
    lemma_padded_mark(s + t, ","@);
    lemma_padded_consumes(s, ","@);
    lemma_members_consume(s, first);
    if !first && padded_at(s, ","@) is Err {
        lemma_lead_extends(s, t);
    } else {
        let start = if first {
            s
        } else {
            rest_of(padded_at(s, ","@))
        };
        lemma_member_consumes(start);
        match member_at(start) {
            Ok((behind, member)) => {
                lemma_members_consume(behind, false);
                assert(rest == rest_of(members_at(behind, false)));
                assert(behind.len() > 0);
                if !first {
                    lemma_padded_extends(s, ","@, t);
                }
                lemma_member_extends(start, t);
                lemma_members_extend(behind, false, t);
            },
            Err(e) => {
                assert(first);
                lemma_lead_extends(s, t);
            },
        }
    }
}

} // verus!
