//! A recursive-descent parser for a reduced JSON grammar.
//!
//! The grammar knows `null`, `true`, `false`, unsigned decimal integers,
//! strings without escape sequences, arrays and objects.  Whitespace may
//! stand around brackets, braces, commas and colons, and nowhere else.
//!
//! - `value` holds the tree and its model, `error` the failures.
//! - `chars` and `grammar` define the grammar as mathematical functions on
//!   sequences of characters.
//! - `parser` holds the recognizers, which are proved to compute exactly
//!   those functions.  They scan the text with the `nom` crate.
//! - `laws`, `tails`, `extension` and `render` prove what holds of the
//!   grammar for every text and every tree.

pub mod chars;
pub mod error;
pub mod extension;
pub mod grammar;
pub mod laws;
pub mod parser;
pub mod render;
mod scan;
pub mod tails;
pub mod value;

pub use error::{ErrorKind, Expected, ParseError};
pub use parser::{
    is_no_match, json, json_array, json_bool, json_member, json_null, json_number,
    json_object, json_string, json_value, literal, padded, skip_spaces, string_literal, ws,
};
pub use value::{Json, JsonView};
