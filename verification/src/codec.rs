//! The boundary to `serde_json`: parsing, writing, and taking values apart.
//!
//! The declarations of this module are believed, not proved; each says which function of
//! `serde_json` it stands for and what it claims of it.
use crate::apart::can_be_read;
use crate::canonical::keys_ascend;
use crate::json::JsonView;
use crate::order::{distinct_keys, sort_entries};
use crate::text::decimal;
use vstd::prelude::*;

verus! {

/// `serde_json::Value`, a JSON value as the parser returns it.
#[verifier::external_type_specification]
#[verifier::external_body]
pub struct ExValue(serde_json::Value);

/// `serde_json::Number`, a JSON number.
#[verifier::external_type_specification]
#[verifier::external_body]
pub struct ExNumber(serde_json::Number);

/// `serde_json::Error`, what the parser says of a text that it rejects.
#[verifier::external_type_specification]
#[verifier::external_body]
pub struct ExError(serde_json::Error);

/// What the library reads of a number: its value where that is an integer between zero and
/// `u64::MAX`, and how it is written.
pub struct NumberView {
    pub whole: Option<u64>,
    pub text: Seq<char>,
}

/// What a number holds.
pub uninterp spec fn number_view(n: serde_json::Number) -> NumberView;

/// What a parsed value holds.
pub uninterp spec fn value_view(v: serde_json::Value) -> JsonView;

/// A parsed value taken apart at its root.
pub enum Node {
    Null,
    Bool(bool),
    Number(serde_json::Number),
    Text(String),
    Array(Vec<serde_json::Value>),
    Object(Vec<(String, serde_json::Value)>),
}

/// What the entries of an object hold.
pub open spec fn value_entries(entries: Seq<(String, serde_json::Value)>) -> Seq<
    (Seq<char>, JsonView),
> {
    Seq::new(entries.len(), |i: int| (entries[i].0@, value_view(entries[i].1)))
}

impl Node {
    /// What the value holds that has this root.
    pub open spec fn model(self) -> JsonView {
        match self {
            Node::Null => JsonView::Null,
            Node::Bool(b) => JsonView::Bool(b),
            Node::Number(n) => JsonView::Number(number_view(n)),
            Node::Text(s) => JsonView::Text(s@),
            Node::Array(items) => JsonView::Array(
                Seq::new(items@.len(), |i: int| value_view(items@[i])),
            ),
            Node::Object(entries) => JsonView::Object(value_entries(entries@)),
        }
    }

    /// The entries at the root, if there are any, have different keys.
    pub open spec fn distinct(self) -> bool {
        self matches Node::Object(entries) ==> distinct_keys(value_entries(entries@))
    }
}

/// [`serde_json::Number::as_u64`] returns the number where it is an integer between zero and
/// `u64::MAX`, and nothing otherwise. Such an integer is written in decimal.
pub assume_specification[ serde_json::Number::as_u64 ](n: &serde_json::Number) -> (r: Option<u64>)
    ensures
        r == number_view(*n).whole,
        r matches Some(k) ==> number_view(*n).text == decimal(k as nat),
;

/// The `Clone` of `serde_json::Number` returns the same number.
#[verifier::external_body]
pub(crate) fn copy_number(n: &serde_json::Number) -> (r: serde_json::Number)
    ensures
        number_view(r) == number_view(*n),
{
    n.clone()
}

/// Tells the variants of `serde_json::Value` apart. The entries of an object come in the order
/// in which `serde_json::Map` walks them, and have different keys.
#[verifier::external_body]
pub(crate) fn open_value(v: serde_json::Value) -> (r: Node)
    ensures
        r.model() == value_view(v),
        r.distinct(),
{
    match v {
        serde_json::Value::Null => Node::Null,
        serde_json::Value::Bool(b) => Node::Bool(b),
        serde_json::Value::Number(n) => Node::Number(n),
        serde_json::Value::String(s) => Node::Text(s),
        serde_json::Value::Array(items) => Node::Array(items),
        serde_json::Value::Object(map) => Node::Object(map.into_iter().collect()),
    }
}

/// Builds a `serde_json::Value` from its root. `serde_json::Map` keeps the entries of an object
/// sorted by key, so they are walked in that order afterwards.
#[verifier::external_body]
pub(crate) fn close_value(node: Node) -> (r: serde_json::Value)
    requires
        node.distinct(),
    ensures
        value_view(r) == match node.model() {
            JsonView::Object(entries) => JsonView::Object(sort_entries(entries)),
            other => other,
        },
{
    match node {
        Node::Null => serde_json::Value::Null,
        Node::Bool(b) => serde_json::Value::Bool(b),
        Node::Number(n) => serde_json::Value::Number(n),
        Node::Text(s) => serde_json::Value::String(s),
        Node::Array(items) => serde_json::Value::Array(items),
        Node::Object(entries) => serde_json::Value::Object(entries.into_iter().collect()),
    }
}

/// What the bytes of a text hold, read as JSON; or the parser's words on why they do not.
pub uninterp spec fn parsed_bytes(text: Seq<u8>) -> Result<JsonView, Seq<char>>;

/// What a text holds, read as JSON; nothing where it is no JSON.
pub uninterp spec fn parsed_text(text: Seq<char>) -> Option<JsonView>;

/// How a parse error is worded.
pub uninterp spec fn error_text(e: serde_json::Error) -> Seq<char>;

/// [`serde_json::from_slice`] into a `serde_json::Value`: whether it succeeds, the value and the
/// wording of the error are functions of the bytes alone. It reads back what [`value_from_str`]
/// does, from UTF-8.
#[verifier::external_body]
pub(crate) fn value_from_slice(text: &[u8]) -> (r: Result<serde_json::Value, serde_json::Error>)
    ensures
        match r {
            Ok(v) => parsed_bytes(text@) == Ok::<JsonView, Seq<char>>(value_view(v)),
            Err(e) => parsed_bytes(text@) == Err::<JsonView, Seq<char>>(error_text(e)),
        },
        forall|v: JsonView|
            text@ == vstd::utf8::encode_utf8(#[trigger] v.compact()) && keys_ascend(v)
                && can_be_read(v, MAX_DEPTH as nat) ==> r is Ok && value_view(r->Ok_0) == v,
{
    serde_json::from_slice(text)
}

/// How deep a value may be nested for the parser to take it.
pub const MAX_DEPTH: u8 = 127;

/// [`serde_json::from_str`] into a `serde_json::Value`: whether it succeeds, and the value, are
/// functions of the text alone. It reads back the text without white space of a value whose keys
/// ascend, whose numbers are integers and which is nested no deeper than the parser takes it. An
/// object whose first key is `$serde_json::private::RawValue` means something else to the parser,
/// and fractions can be read as neighbouring numbers, so nothing is said of reading them back.
#[verifier::external_body]
pub(crate) fn value_from_str(text: &str) -> (r: Option<serde_json::Value>)
    ensures
        match r {
            Some(v) => parsed_text(text@) == Some(value_view(v)),
            None => parsed_text(text@) is None,
        },
        forall|v: JsonView|
            text@ == #[trigger] v.compact() && keys_ascend(v) && can_be_read(v, MAX_DEPTH as nat)
                ==> r is Some && value_view(r->0) == v,
{
    serde_json::from_str(text).ok()
}

/// The `Display` of `serde_json::Error`: a function of the error alone.
#[verifier::external_body]
pub(crate) fn error_message(e: &serde_json::Error) -> (r: String)
    ensures
        r@ == error_text(*e),
{
    e.to_string()
}

/// [`serde_json::to_vec`] of a `serde_json::Value` never fails, and writes the value as JSON
/// text without white space, in UTF-8.
#[verifier::external_body]
pub(crate) fn value_to_vec(v: &serde_json::Value) -> (r: Result<Vec<u8>, serde_json::Error>)
    ensures
        r is Ok,
        r->Ok_0@ == vstd::utf8::encode_utf8(value_view(*v).compact()),
{
    serde_json::to_vec(v)
}

/// [`serde_json::to_string`] of a `serde_json::Value` never fails, and writes the value as JSON
/// text without white space.
#[verifier::external_body]
pub(crate) fn value_to_string(v: &serde_json::Value) -> (r: Result<String, serde_json::Error>)
    ensures
        r is Ok,
        r->Ok_0@ == value_view(*v).compact(),
{
    serde_json::to_string(v)
}

/// [`serde_json::to_string_pretty`] of a `serde_json::Value` never fails, and writes the value as
/// JSON text with two blanks of indentation for each level; empty lists and objects stay on one
/// line.
#[verifier::external_body]
pub(crate) fn value_to_pretty(v: &serde_json::Value) -> (r: Result<String, serde_json::Error>)
    ensures
        r is Ok,
        r->Ok_0@ == value_view(*v).pretty(),
{
    serde_json::to_string_pretty(v)
}

} // verus!
