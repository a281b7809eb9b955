//! The tree that the parser builds, and its mathematical model.

use vstd::prelude::*;

verus! {

/// A parsed document or a part of one.
#[derive(PartialEq, Eq, Debug)]
pub enum Json {
    Null,
    Bool(bool),
    /// An unsigned integer: the grammar has no sign, fraction or exponent.
    Number(u64),
    /// The characters between two `"`, taken as they stand.
    String(String),
    /// The elements in the order of the text.
    Array(Vec<Json>),
    /// The members in the order of the text.  A key may occur more than once.
    Object(Vec<(String, Json)>),
}

/// The model of a [`Json`] tree: the same shape over mathematical integers
/// and sequences.
#[verifier::ext_equal]
pub enum JsonView {
    Null,
    Bool(bool),
    Number(nat),
    String(Seq<char>),
    Array(Seq<JsonView>),
    Object(Seq<(Seq<char>, JsonView)>),
}

impl View for Json {
    type V = JsonView;

    open spec fn view(&self) -> JsonView
        decreases self,
    {
        match self {
            Json::Null => JsonView::Null,
            Json::Bool(b) => JsonView::Bool(*b),
            Json::Number(n) => JsonView::Number(*n as nat),
            Json::String(s) => JsonView::String(s@),
            Json::Array(items) => JsonView::Array(
                Seq::new(
                    items.len() as nat,
                    |i: int|
                        if 0 <= i < items.len() {
                            items[i].view()
                        } else {
                            JsonView::Null
                        },
                ),
            ),
            Json::Object(members) => JsonView::Object(
                Seq::new(
                    members.len() as nat,
                    |i: int|
                        if 0 <= i < members.len() {
                            (members[i].0@, members[i].1.view())
                        } else {
                            (Seq::empty(), JsonView::Null)
                        },
                ),
            ),
        }
    }
}

} // verus!
