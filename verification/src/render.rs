//! The plainest text of a tree, and the proof that it parses to the tree.

use crate::chars::{all_in, decimal, lemma_digits_of_decimal, lemma_run_is_maximal, CharClass};
use crate::error::{Expected, Failure};
use crate::extension::lemma_value_extends;
use crate::grammar::{
    document_at, elements_at, failed, found, member_at, members_at, padded_at, string_literal_at,
    value_at,
};
use crate::laws::{
    law_lead_characters, law_literals, law_number_round_trip, law_opened_array,
    law_opened_object, law_string_round_trip,
};
use crate::tails::{
    lemma_member_consumes, lemma_padded_consumes, lemma_string_literal_consumes,
    lemma_value_consumes,
};
use crate::value::JsonView;
use vstd::prelude::*;

verus! {

/// Whether a text can parse to `v`: its numbers fit in 64 bits, and its
/// strings and keys hold no `"`.
pub open spec fn representable(v: JsonView) -> bool
    decreases v,
{
    match v {
        JsonView::Null => true,
        JsonView::Bool(_) => true,
        JsonView::Number(n) => n <= u64::MAX,
        JsonView::String(text) => all_in(text, CharClass::Unquoted),
        JsonView::Array(items) => forall|i: int|
            0 <= i < items.len() ==> representable(#[trigger] items[i]),
        JsonView::Object(members) => forall|i: int|
            0 <= i < members.len() ==> all_in((#[trigger] members[i]).0, CharClass::Unquoted)
                && representable(members[i].1),
    }
}

/// `text` between two `"`.
pub open spec fn quoted(text: Seq<char>) -> Seq<char> {
    seq!['"'] + text + seq!['"']
}

/// The text of `v` without any whitespace: numbers in decimal, the
/// elements of an array and the members of an object separated by `,`, a
/// key and its value by `:`.
pub open spec fn render(v: JsonView) -> Seq<char>
    decreases v, 0nat,
{
    match v {
        JsonView::Null => "null"@,
        JsonView::Bool(b) => if b {
            "true"@
        } else {
            "false"@
        },
        JsonView::Number(n) => decimal(n),
        JsonView::String(text) => quoted(text),
        JsonView::Array(items) => "["@ + render_items(items) + "]"@,
        JsonView::Object(members) => "{"@ + render_members(members) + "}"@,
    }
}

/// The text of the elements of an array, with a `,` between them.
pub open spec fn render_items(items: Seq<JsonView>) -> Seq<char>
    decreases items, items.len() + 1,
{
    if items.len() == 0 {
        Seq::empty()
    } else {
        render(items[0]) + render_more_items(items, 1)
    }
}

/// The text of the elements of an array from the one at `from` on, each
/// with a `,` before it.
pub open spec fn render_more_items(items: Seq<JsonView>, from: nat) -> Seq<char>
    decreases items, items.len() - from,
{
    if from >= items.len() {
        Seq::empty()
    } else {
        ","@ + render(items[from as int]) + render_more_items(items, from + 1)
    }
}

/// The text of a member: its key in quotes, `:`, and the text of its value.
pub open spec fn member_text(key: Seq<char>, value_text: Seq<char>) -> Seq<char> {
    quoted(key) + ":"@ + value_text
}

/// The text of the members of an object, with a `,` between them.
pub open spec fn render_members(members: Seq<(Seq<char>, JsonView)>) -> Seq<char>
    decreases members, members.len() + 1,
{
    if members.len() == 0 {
        Seq::empty()
    } else {
        member_text(members[0].0, render(members[0].1)) + render_more_members(members, 1)
    }
}

/// The text of the members of an object from the one at `from` on, each
/// with a `,` before it.
pub open spec fn render_more_members(members: Seq<(Seq<char>, JsonView)>, from: nat) -> Seq<
    char,
>
    decreases members, members.len() - from,
{
    if from >= members.len() {
        Seq::empty()
    } else {
        ","@ + member_text(members[from as int].0, render(members[from as int].1))
            + render_more_members(members, from + 1)
    }
}

/// Whether `c` can stand behind a value of any kind without being taken
/// for a part of it: it is no whitespace and no digit.
pub open spec fn is_mark(c: char) -> bool {
    !CharClass::Space.has(c) && !CharClass::Digit.has(c)
}

/// Whether the elements of `items` are representable.
pub open spec fn items_representable(items: Seq<JsonView>) -> bool {
    forall|i: int| 0 <= i < items.len() ==> representable(#[trigger] items[i])
}

/// Whether the keys and the values of `members` are representable.
pub open spec fn members_representable(members: Seq<(Seq<char>, JsonView)>) -> bool {
    forall|i: int|
        0 <= i < members.len() ==> all_in((#[trigger] members[i]).0, CharClass::Unquoted)
            && representable(members[i].1)
}

/// `value_at(s)` finds `v` and leaves `rest`.
#[verifier::opaque]
spec fn finds_value(s: Seq<char>, rest: Seq<char>, v: JsonView) -> bool {
    value_at(s) == found(rest, v)
}

/// `padded_at(s, mark)` finds the mark and leaves `rest`.
#[verifier::opaque]
spec fn finds_mark(s: Seq<char>, mark: Seq<char>, rest: Seq<char>) -> bool {
    padded_at(s, mark) == found(rest, ())
}

/// `elements_at(s, first)` finds `items` and leaves `rest`.
#[verifier::opaque]
spec fn finds_elements(s: Seq<char>, first: bool, rest: Seq<char>, items: Seq<JsonView>) -> bool {
    elements_at(s, first) == found(rest, items)
}

/// `member_at(s)` finds `member` and leaves `rest`.
#[verifier::opaque]
spec fn finds_member(s: Seq<char>, rest: Seq<char>, member: (Seq<char>, JsonView)) -> bool {
    member_at(s) == found(rest, member)
}

/// `members_at(s, first)` finds `members` and leaves `rest`.
#[verifier::opaque]
spec fn finds_members(
    s: Seq<char>,
    first: bool,
    rest: Seq<char>,
    members: Seq<(Seq<char>, JsonView)>,
) -> bool {
    members_at(s, first) == found(rest, members)
}

/// A mark of one character at the very front of a text, with no whitespace
/// behind it, is found and leaves what follows it.
proof fn lemma_mark_at_front(mark: Seq<char>, rest: Seq<char>)
    requires
        mark.len() == 1,
        !CharClass::Space.has(mark[0]),
        rest.len() == 0 || !CharClass::Space.has(rest[0]),
    ensures
        finds_mark(mark + rest, mark, rest),
{
    reveal(finds_mark);
    let s = mark + rest;
    assert(s.skip(0) =~= s);
    assert(rest.skip(0) =~= rest);
    assert(s.subrange(0, 1) =~= mark);
    assert(s.skip(1) =~= rest);
}

/// A text that begins with a closing bracket or brace holds no element and
/// no member, neither at its front nor behind a `,`.
proof fn lemma_closing_ends_list(t: Seq<char>)
    requires
        t.len() > 0 && (t[0] == ']' || t[0] == '}'),
    ensures
        finds_elements(t, true, t, Seq::empty()),
        finds_elements(t, false, t, Seq::empty()),
        finds_members(t, true, t, Seq::empty()),
        finds_members(t, false, t, Seq::empty()),
{
    reveal(finds_elements);
    reveal(finds_members);
    reveal_strlit(",");
    law_lead_characters(t);
    if ","@.is_prefix_of(t) {
        assert(t.subrange(0, 1)[0] == ',');
    }
    assert(padded_at(t, ","@) is Err);
    assert(value_at(t) == failed::<JsonView>(Failure::no_match(Expected::Value, t)));
    assert(member_at(t) == failed::<(Seq<char>, JsonView)>(
        Failure::no_match(Expected::String, t),
    ));
}

/// Where a value stands at the place of the next element and the later
/// elements follow it, the elements are that value and the later ones.
proof fn lemma_elements_step(
    s: Seq<char>,
    first: bool,
    start: Seq<char>,
    behind: Seq<char>,
    item: JsonView,
    rest: Seq<char>,
    others: Seq<JsonView>,
)
    requires
        first ==> start == s,
        !first ==> finds_mark(s, ","@, start),
        finds_value(start, behind, item),
        behind.len() < start.len(),
        finds_elements(behind, false, rest, others),
    ensures
        finds_elements(s, first, rest, seq![item] + others),
{
    reveal(finds_mark);
    reveal(finds_value);
    reveal(finds_elements);
}

/// Where a key, a `:` and a value follow one another, they are a member.
proof fn lemma_member_step(
    s: Seq<char>,
    behind_key: Seq<char>,
    key: Seq<char>,
    start: Seq<char>,
    rest: Seq<char>,
    value: JsonView,
)
    requires
        string_literal_at(s) == found(behind_key, key),
        finds_mark(behind_key, ":"@, start),
        finds_value(start, rest, value),
    ensures
        finds_member(s, rest, (key, value)),
{
    reveal(finds_mark);
    reveal(finds_value);
    reveal(finds_member);
}

/// Where a member stands at the place of the next member and the later
/// members follow it, the members are that member and the later ones.
proof fn lemma_members_step(
    s: Seq<char>,
    first: bool,
    start: Seq<char>,
    behind: Seq<char>,
    member: (Seq<char>, JsonView),
    rest: Seq<char>,
    others: Seq<(Seq<char>, JsonView)>,
)
    requires
        first ==> start == s,
        !first ==> finds_mark(s, ","@, start),
        finds_member(start, behind, member),
        behind.len() < start.len(),
        finds_members(behind, false, rest, others),
    ensures
        finds_members(s, first, rest, seq![member] + others),
{
    reveal(finds_mark);
    reveal(finds_member);
    reveal(finds_members);
}

/// Where `[`, elements and `]` follow one another, they are an array.
proof fn lemma_array_step(
    s: Seq<char>,
    inside: Seq<char>,
    behind: Seq<char>,
    rest: Seq<char>,
    items: Seq<JsonView>,
)
    requires
        finds_mark(s, "["@, inside),
        finds_elements(inside, true, behind, items),
        finds_mark(behind, "]"@, rest),
    ensures
        finds_value(s, rest, JsonView::Array(items)),
{
    reveal(finds_mark);
    reveal(finds_value);
    reveal(finds_elements);
    law_opened_array(s);
}

/// Where `{`, members and `}` follow one another, they are an object.
proof fn lemma_object_step(
    s: Seq<char>,
    inside: Seq<char>,
    behind: Seq<char>,
    rest: Seq<char>,
    members: Seq<(Seq<char>, JsonView)>,
)
    requires
        finds_mark(s, "{"@, inside),
        finds_members(inside, true, behind, members),
        finds_mark(behind, "}"@, rest),
    ensures
        finds_value(s, rest, JsonView::Object(members)),
{
    reveal(finds_mark);
    reveal(finds_value);
    reveal(finds_members);
    law_opened_object(s);
}

/// A value that is found with nothing left is found with `t` left when `t`
/// is appended and begins with a mark.
proof fn lemma_value_then_mark(s: Seq<char>, v: JsonView, t: Seq<char>)
    requires
        finds_value(s, Seq::empty(), v),
        t.len() > 0 && is_mark(t[0]),
    ensures
        finds_value(s + t, t, v),
{
    reveal(finds_value);
    lemma_value_extends(s, t);
    assert(Seq::<char>::empty() + t =~= t);
}

/// The text of a tree is not empty and begins with no whitespace.
pub proof fn lemma_render_begins(v: JsonView)
    ensures
        render(v).len() > 0,
        !CharClass::Space.has(render(v)[0]),
{
    reveal_strlit("null");
    reveal_strlit("true");
    reveal_strlit("false");
    reveal_strlit("[");
    reveal_strlit("{");
    match v {
        JsonView::Number(n) => {
            lemma_digits_of_decimal(n);
            assert(CharClass::Digit.has(decimal(n)[0]));
        },
        _ => {},
    }
}

/// The text of the elements of an array begins with no whitespace, and
/// the text of the later elements with a `,`.
proof fn lemma_items_begin(items: Seq<JsonView>, from: nat)
    ensures
        render_items(items).len() == 0 || !CharClass::Space.has(render_items(items)[0]),
        render_more_items(items, from).len() == 0 || render_more_items(items, from)[0] == ',',
{
    reveal_strlit(",");
    if items.len() > 0 {
        lemma_render_begins(items[0]);
    }
}

/// The text of the members of an object begins with no whitespace, and
/// the text of the later members with a `,`.
proof fn lemma_members_begin(members: Seq<(Seq<char>, JsonView)>, from: nat)
    ensures
        render_members(members).len() == 0 || render_members(members)[0] == '"',
        render_more_members(members, from).len() == 0 || render_more_members(members, from)[0]
            == ',',
{
    reveal_strlit(",");
}

/// What follows an element or a member begins with a mark: a `,` or the
/// closing bracket or brace.
proof fn lemma_more_begins(more: Seq<char>, t: Seq<char>)
    requires
        more.len() == 0 || more[0] == ',',
        t.len() > 0 && (t[0] == ']' || t[0] == '}'),
    ensures
        (more + t).len() > 0,
        is_mark((more + t)[0]),
{
}

/// The text of a primitive value parses to it.
proof fn lemma_primitive_round_trip(v: JsonView)
    requires
        representable(v),
        !(v is Array),
        !(v is Object),
    ensures
        finds_value(render(v), Seq::empty(), v),
{
    reveal(finds_value);
    let none = Seq::<char>::empty();
    match v {
        JsonView::Null => {
            law_literals(none);
            assert("null"@ + none =~= "null"@);
        },
        JsonView::Bool(b) => {
            law_literals(none);
            assert("true"@ + none =~= "true"@);
            assert("false"@ + none =~= "false"@);
        },
        JsonView::Number(n) => {
            lemma_digits_of_decimal(n);
            law_number_round_trip(decimal(n), none);
            assert(decimal(n) + none =~= decimal(n));
        },
        JsonView::String(text) => {
            law_string_round_trip(text, none);
            assert(seq!['"'] + text + seq!['"'] + none =~= quoted(text));
        },
        _ => {},
    }
}

/// The text of a representable tree parses to the tree.
proof fn lemma_render_round_trip(v: JsonView)
    requires
        representable(v),
    ensures
        finds_value(render(v), Seq::empty(), v),
    decreases v, 0nat,
{
    let none = Seq::<char>::empty();
    match v {
        JsonView::Array(items) => {
            let list = render_items(items);
            let s = render(v);
            assert(items_representable(items));
            assert(s =~= "["@ + (list + "]"@));
            reveal_strlit("[");
            reveal_strlit("]");
            lemma_items_begin(items, 0);
            lemma_mark_at_front("["@, list + "]"@);
            lemma_items_parse(items, "]"@);
            lemma_mark_at_front("]"@, none);
            assert("]"@ + none =~= "]"@);
            lemma_array_step(s, list + "]"@, "]"@, none, items);
        },
        JsonView::Object(members) => {
            let list = render_members(members);
            let s = render(v);
            assert(members_representable(members));
            assert(s =~= "{"@ + (list + "}"@));
            reveal_strlit("{");
            reveal_strlit("}");
            lemma_members_begin(members, 0);
            lemma_mark_at_front("{"@, list + "}"@);
            lemma_members_parse(members, "}"@);
            lemma_mark_at_front("}"@, none);
            assert("}"@ + none =~= "}"@);
            lemma_object_step(s, list + "}"@, "}"@, none, members);
        },
        _ => {
            lemma_primitive_round_trip(v);
        },
    }
}

/// The text of a tree with a text behind it that begins with a mark parses
/// to the tree and leaves the text.
proof fn lemma_render_then_mark(v: JsonView, t: Seq<char>)
    requires
        representable(v),
        t.len() > 0 && is_mark(t[0]),
    ensures
        finds_value(render(v) + t, t, v),
        t.len() < (render(v) + t).len(),
        !CharClass::Space.has((render(v) + t)[0]),
    decreases v, 1nat,
{
    lemma_render_round_trip(v);
    lemma_value_then_mark(render(v), v, t);
    lemma_render_begins(v);
}

/// The texts of the elements of an array, with the closing text `t` behind
/// them, parse to the elements and leave `t`.
proof fn lemma_items_parse(items: Seq<JsonView>, t: Seq<char>)
    requires
        items_representable(items),
        t.len() > 0 && t[0] == ']',
    ensures
        finds_elements(render_items(items) + t, true, t, items),
    decreases items, items.len() + 1,
{
    if items.len() == 0 {
        assert(render_items(items) + t =~= t);
        assert(items =~= Seq::<JsonView>::empty());
        lemma_closing_ends_list(t);
    } else {
        let item = items[0];
        let more = render_more_items(items, 1);
        let tail = more + t;
        let s = render_items(items) + t;
        assert(s =~= render(item) + tail);
        lemma_items_begin(items, 1);
        lemma_more_begins(more, t);
        lemma_render_then_mark(item, tail);
        lemma_more_items_parse(items, 1, t);
        lemma_elements_step(s, true, s, tail, item, t, items.skip(1));
        assert(seq![item] + items.skip(1) =~= items);
    }
}

/// The texts of the elements from the one at `from` on, each with its `,`
/// and with the closing text `t` behind them, parse to those elements and
/// leave `t`.
proof fn lemma_more_items_parse(items: Seq<JsonView>, from: nat, t: Seq<char>)
    requires
        items_representable(items),
        t.len() > 0 && t[0] == ']',
        from <= items.len(),
    ensures
        finds_elements(render_more_items(items, from) + t, false, t, items.skip(from as int)),
    decreases items, items.len() - from,
{
    let s = render_more_items(items, from) + t;
    if from >= items.len() {
        assert(s =~= t);
        assert(items.skip(from as int) =~= Seq::<JsonView>::empty());
        lemma_closing_ends_list(t);
    } else {
        let item = items[from as int];
        let more = render_more_items(items, from + 1);
        let tail = more + t;
        let start = render(item) + tail;
        assert(s =~= ","@ + start);
        lemma_items_begin(items, from + 1);
        lemma_more_begins(more, t);
        lemma_render_then_mark(item, tail);
        reveal_strlit(",");
        lemma_mark_at_front(","@, start);
        lemma_more_items_parse(items, from + 1, t);
        lemma_elements_step(s, false, start, tail, item, t, items.skip(from as int + 1));
        assert(seq![item] + items.skip(from as int + 1) =~= items.skip(from as int));
    }
}

/// The text of a member with a text behind it that begins with a mark
/// parses to the member and leaves the text.
proof fn lemma_member_parses(key: Seq<char>, value: JsonView, t: Seq<char>)
    requires
        all_in(key, CharClass::Unquoted),
        representable(value),
        t.len() > 0 && is_mark(t[0]),
    ensures
        finds_member(member_text(key, render(value)) + t, t, (key, value)),
        t.len() < (member_text(key, render(value)) + t).len(),
        (member_text(key, render(value)) + t)[0] == '"',
    decreases value, 2nat,
{
    let start = render(value) + t;
    let behind_key = ":"@ + start;
    let s = member_text(key, render(value)) + t;
    assert(s =~= seq!['"'] + key + seq!['"'] + behind_key);
    law_string_round_trip(key, behind_key);
    lemma_render_then_mark(value, t);
    reveal_strlit(":");
    lemma_mark_at_front(":"@, start);
    lemma_member_step(s, behind_key, key, start, t, value);
}

/// The texts of the members of an object, with the closing text `t` behind
/// them, parse to the members and leave `t`.
proof fn lemma_members_parse(members: Seq<(Seq<char>, JsonView)>, t: Seq<char>)
    requires
        members_representable(members),
        t.len() > 0 && t[0] == '}',
    ensures
        finds_members(render_members(members) + t, true, t, members),
    decreases members, members.len() + 1,
{
    if members.len() == 0 {
        assert(render_members(members) + t =~= t);
        assert(members =~= Seq::<(Seq<char>, JsonView)>::empty());
        lemma_closing_ends_list(t);
    } else {
        let member = members[0];
        let more = render_more_members(members, 1);
        let tail = more + t;
        let s = render_members(members) + t;
        assert(s =~= member_text(member.0, render(member.1)) + tail);
        lemma_members_begin(members, 1);
        lemma_more_begins(more, t);
        lemma_member_parses(member.0, member.1, tail);
        lemma_more_members_parse(members, 1, t);
        lemma_members_step(s, true, s, tail, member, t, members.skip(1));
        assert(seq![member] + members.skip(1) =~= members);
    }
}

/// The texts of the members from the one at `from` on, each with its `,`
/// and with the closing text `t` behind them, parse to those members and
/// leave `t`.
proof fn lemma_more_members_parse(members: Seq<(Seq<char>, JsonView)>, from: nat, t: Seq<char>)
    requires
        members_representable(members),
        t.len() > 0 && t[0] == '}',
        from <= members.len(),
    ensures
        finds_members(
            render_more_members(members, from) + t,
            false,
            t,
            members.skip(from as int),
        ),
    decreases members, members.len() - from,
{
    let s = render_more_members(members, from) + t;
    if from >= members.len() {
        assert(s =~= t);
        assert(members.skip(from as int) =~= Seq::<(Seq<char>, JsonView)>::empty());
        lemma_closing_ends_list(t);
    } else {
        let member = members[from as int];
        let more = render_more_members(members, from + 1);
        let tail = more + t;
        let start = member_text(member.0, render(member.1)) + tail;
        assert(s =~= ","@ + start);
        lemma_members_begin(members, from + 1);
        lemma_more_begins(more, t);
        lemma_member_parses(member.0, member.1, tail);
        reveal_strlit(",");
        lemma_mark_at_front(","@, start);
        lemma_more_members_parse(members, from + 1, t);
        lemma_members_step(s, false, start, tail, member, t, members.skip(from as int + 1));
        assert(seq![member] + members.skip(from as int + 1) =~= members.skip(from as int));
    }
}

/// The text of a tree that a text can parse to parses to the tree, and
/// nothing of it is left.
pub proof fn law_render_round_trip(v: JsonView)
    requires
        representable(v),
    ensures
        value_at(render(v)) == found(Seq::<char>::empty(), v),
        document_at(render(v)) == found(Seq::<char>::empty(), v),
{
    reveal(finds_value);
    lemma_render_round_trip(v);
}

/// The text of a tree with a text behind it parses to the tree and leaves
/// the text, as long as the text begins with no whitespace and no digit.
pub proof fn law_render_then_text(v: JsonView, t: Seq<char>)
    requires
        representable(v),
        t.len() > 0 && is_mark(t[0]),
    ensures
        value_at(render(v) + t) == found(t, v),
{
    reveal(finds_value);
    lemma_render_then_mark(v, t);
}

/// Every tree that a text parses to is representable: no string and no key
/// of it holds a `"`, and its numbers fit in 64 bits.
pub proof fn law_parsed_is_representable(s: Seq<char>)
    ensures
        value_at(s) matches Ok((_, v)) ==> representable(v),
        document_at(s) matches Ok((_, v)) ==> representable(v),
    decreases s.len(), 2nat,
{
    lemma_string_is_unquoted(s);
    if let Ok((inside, _)) = padded_at(s, "["@) {
        reveal_strlit("[");
        lemma_padded_consumes(s, "["@);
        lemma_elements_representable(inside, true);
    }
    if let Ok((inside, _)) = padded_at(s, "{"@) {
        reveal_strlit("{");
        lemma_padded_consumes(s, "{"@);
        lemma_members_representable(inside, true);
    }
}

/// The characters of a string that is found hold no `"`.
proof fn lemma_string_is_unquoted(s: Seq<char>)
    ensures
        string_literal_at(s) matches Ok((_, text)) ==> all_in(text, CharClass::Unquoted),
{
    if s.len() > 0 {
        lemma_run_is_maximal(s.drop_first(), CharClass::Unquoted);
    }
}

/// The values of an array that are found are representable.
proof fn lemma_elements_representable(s: Seq<char>, first: bool)
    ensures
        elements_at(s, first) matches Ok((_, items)) ==> items_representable(items),
    decreases s.len(), 4nat,
{
    reveal_strlit(",");
    lemma_padded_consumes(s, ","@);
    if let Ok((start, _)) = (if first {
        Ok((s, ()))
    } else {
        padded_at(s, ","@)
    }) {
        law_parsed_is_representable(start);
        lemma_value_consumes(start);
        if let Ok((behind, item)) = value_at(start) {
            lemma_elements_representable(behind, false);
            if let Ok((_, others)) = elements_at(behind, false) {
                let items = seq![item] + others;
                assert forall|i: int| 0 <= i < items.len() implies representable(
                    #[trigger] items[i],
                ) by {
                    if i > 0 {
                        assert(items[i] == others[i - 1]);
                    }
                }
            }
        }
    }
}

/// The members of an object that are found are representable.
proof fn lemma_members_representable(s: Seq<char>, first: bool)
    ensures
        members_at(s, first) matches Ok((_, members)) ==> members_representable(members),
    decreases s.len(), 4nat,
{
    reveal_strlit(",");
    reveal_strlit(":");
    lemma_padded_consumes(s, ","@);
    if let Ok((start, _)) = (if first {
        Ok((s, ()))
    } else {
        padded_at(s, ","@)
    }) {
        lemma_member_consumes(start);
        lemma_string_is_unquoted(start);
        lemma_string_literal_consumes(start);
        if let Ok((behind_key, _)) = string_literal_at(start) {
            lemma_padded_consumes(behind_key, ":"@);
            if let Ok((at_value, _)) = padded_at(behind_key, ":"@) {
                law_parsed_is_representable(at_value);
            }
        }
        if let Ok((behind, member)) = member_at(start) {
            lemma_members_representable(behind, false);
            if let Ok((_, others)) = members_at(behind, false) {
                let members = seq![member] + others;
                assert forall|i: int| 0 <= i < members.len() implies all_in(
                    (#[trigger] members[i]).0,
                    CharClass::Unquoted,
                ) && representable(members[i].1) by {
                    if i > 0 {
                        assert(members[i] == others[i - 1]);
                    }
                }
            }
        }
    }
}

} // verus!
