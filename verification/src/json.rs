//! The calls into `serde_json` that the library makes: reading a JSON text into a
//! tree, looking at the nodes of that tree, and writing a string as a JSON string.
use serde_json::Value as JsonTree;
use vstd::prelude::*;

verus! {

#[verifier::external_type_specification]
#[verifier::external_body]
pub struct ExJsonValue(JsonTree);

#[verifier::external_type_specification]
#[verifier::external_body]
pub struct ExJsonError(serde_json::Error);

/// A JSON value as `serde_json::Value` holds it. `Int` is a number that `as_i64`
/// returns; `Num` is any other number, by the text that `serde_json` writes for the
/// floating-point number it comes to (`as_f64`, then `Number::from_f64` and its
/// `Display`): an integer beyond `i64` is rounded as a float is.
pub enum JsonModel {
    Null,
    Bool(bool),
    Int(i64),
    Num(Seq<char>),
    Str(Seq<char>),
    Array(Seq<JsonModel>),
    Object(Seq<(Seq<char>, JsonModel)>),
}

/// What `serde_json::from_str::<serde_json::Value>` makes of `text`: `None` when it
/// rejects the text. An object's entries are in the order in which its map yields them.
pub uninterp spec fn json_document(text: Seq<char>) -> Option<JsonModel>;

/// The lower-case hexadecimal digit of `d`, below 16.
pub open spec fn hex_digit(d: nat) -> char {
    if d < 10 {
        (('0' as nat) + d) as char
    } else {
        (('a' as nat) + d - 10) as char
    }
}

/// How `serde_json` writes the character `c` inside a JSON string: the quote and the
/// backslash after a backslash, the five control characters that JSON names by a
/// letter as `\b`, `\f`, `\n`, `\r` and `\t`, the other characters below U+0020
/// as `\u00` and two hexadecimal digits, and every other character as it is.
pub open spec fn json_escape(c: char) -> Seq<char> {
    if c == '"' {
        seq!['\\', '"']
    } else if c == '\\' {
        seq!['\\', '\\']
    } else if c == '\x08' {
        seq!['\\', 'b']
    } else if c == '\x0c' {
        seq!['\\', 'f']
    } else if c == '\n' {
        seq!['\\', 'n']
    } else if c == '\r' {
        seq!['\\', 'r']
    } else if c == '\t' {
        seq!['\\', 't']
    } else if (c as nat) < 32 {
        seq!['\\', 'u', '0', '0', hex_digit((c as nat) / 16), hex_digit((c as nat) % 16)]
    } else {
        seq![c]
    }
}

/// The characters of `s`, each written as [`json_escape`] writes it.
pub open spec fn json_escaped(s: Seq<char>) -> Seq<char>
    decreases s.len(),
{
    if s.len() == 0 {
        Seq::empty()
    } else {
        json_escaped(s.drop_last()) + json_escape(s.last())
    }
}

/// The text `serde_json::to_string` writes for the string `s`: its escaped
/// characters between double quotes.
pub open spec fn json_string(s: Seq<char>) -> Seq<char> {
    seq!['"'] + json_escaped(s) + seq!['"']
}

/// A node of a parsed JSON document, with the model of what it holds.
pub struct JsonNode {
    value: JsonTree,
    model: Ghost<JsonModel>,
}

impl JsonNode {
    /// What the node holds.
    pub closed spec fn model(&self) -> JsonModel {
        self.model@
    }
}

/// The kind of a JSON node.
#[derive(PartialEq, Eq, Structural, Clone, Copy, Debug)]
pub enum JsonKind {
    Null,
    Bool,
    Number,
    String,
    Array,
    Object,
}

pub open spec fn kind_of(m: JsonModel) -> JsonKind {
    match m {
        JsonModel::Null => JsonKind::Null,
        JsonModel::Bool(_) => JsonKind::Bool,
        JsonModel::Int(_) => JsonKind::Number,
        JsonModel::Num(_) => JsonKind::Number,
        JsonModel::Str(_) => JsonKind::String,
        JsonModel::Array(_) => JsonKind::Array,
        JsonModel::Object(_) => JsonKind::Object,
    }
}

/// `serde_json::from_str::<serde_json::Value>`: the tree of `text`, or the error
/// that rejects it. Whether it succeeds, and the tree, are named by `json_document`.
#[verifier::external_body]
pub(crate) fn parse_json(text: &str) -> (r: Result<JsonNode, serde_json::Error>)
    ensures
        r is Ok <==> json_document(text@) is Some,
        r matches Ok(n) ==> n.model() == json_document(text@)->0,
{
    match serde_json::from_str::<JsonTree>(text) {
        Ok(value) => Ok(JsonNode { value, model: Ghost(json_document(text@)->0) }),
        Err(e) => Err(e),
    }
}

/// Which variant of `serde_json::Value` the node is.
#[verifier::external_body]
pub(crate) fn node_kind(n: &JsonNode) -> (k: JsonKind)
    ensures
        k == kind_of(n.model()),
{
    match &n.value {
        JsonTree::Null => JsonKind::Null,
        JsonTree::Bool(_) => JsonKind::Bool,
        JsonTree::Number(_) => JsonKind::Number,
        JsonTree::String(_) => JsonKind::String,
        JsonTree::Array(_) => JsonKind::Array,
        JsonTree::Object(_) => JsonKind::Object,
    }
}

/// `JsonTree::as_bool`.
#[verifier::external_body]
pub(crate) fn node_bool(n: &JsonNode) -> (r: Option<bool>)
    ensures
        r == (match n.model() {
            JsonModel::Bool(b) => Some(b),
            _ => None,
        }),
{
    n.value.as_bool()
}

/// `JsonTree::as_i64`.
#[verifier::external_body]
pub(crate) fn node_i64(n: &JsonNode) -> (r: Option<i64>)
    ensures
        r == (match n.model() {
            JsonModel::Int(i) => Some(i),
            _ => None,
        }),
{
    n.value.as_i64()
}

/// The text of a number node as the floating-point number it comes to:
/// `serde_json::Number::as_f64` (which never fails without `arbitrary_precision`, and
/// gives a finite number for a parsed one), then `Number::from_f64` of that, written
/// by `Number`'s `Display`.
#[verifier::external_body]
pub(crate) fn node_number_text(n: &JsonNode) -> (r: Option<String>)
    ensures
        match n.model() {
            JsonModel::Num(t) => r is Some && r->0@ == t,
            JsonModel::Int(_) => r is Some,
            _ => r is None,
        },
{
    match &n.value {
        JsonTree::Number(x) => x.as_f64().and_then(serde_json::Number::from_f64).map(|m| m.to_string()),
        _ => None,
    }
}

/// `JsonTree::as_str`, copied into a `String`.
#[verifier::external_body]
pub(crate) fn node_str(n: &JsonNode) -> (r: Option<String>)
    ensures
        match n.model() {
            JsonModel::Str(s) => r is Some && r->0@ == s,
            _ => r is None,
        },
{
    n.value.as_str().map(|s| s.to_owned())
}

/// The entries of an object node, in the order its map yields them
/// (`JsonTree::as_object`, then the map's `iter`).
#[verifier::external_body]
pub(crate) fn node_entries(n: &JsonNode) -> (r: Option<Vec<(String, JsonNode)>>)
    ensures
        match n.model() {
            JsonModel::Object(es) => r is Some && r->0@.len() == es.len() && forall|i: int|
                0 <= i < es.len() ==> (#[trigger] r->0@[i]).0@ == es[i].0 && r->0@[i].1.model()
                    == es[i].1,
            _ => r is None,
        },
{
    n.value.as_object().map(
        |m|
            m.iter().map(
                |(k, v)| (k.clone(), JsonNode { value: v.clone(), model: Ghost(arbitrary()) }),
            ).collect(),
    )
}

/// The error `serde_json` reports when a JSON value fits none of the variants of an
/// untagged enum (`serde::de::Error::custom` of `serde_json::Error`), for a JSON value
/// that holds no value of the library.
#[verifier::external_body]
pub(crate) fn json_unmatched_error() -> serde_json::Error {
    <serde_json::Error as serde::de::Error>::custom(
        "data did not match any variant of untagged enum Value",
    )
}

/// `serde_json::to_string` of a string: the string as a JSON string literal (see
/// [`json_string`]); its source cannot fail on a string.
#[verifier::external_body]
pub(crate) fn json_quote(s: &str) -> (r: String)
    ensures
        r@ == json_string(s@),
{
    match serde_json::to_string(s) {
        Ok(t) => t,
        Err(_) => String::new(),
    }
}

} // verus!
