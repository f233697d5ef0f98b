//! A JSON document as a tree of plain values, and its text form through
//! serde_json.

use vstd::prelude::*;

verus! {

/// serde_json::Number, carried opaque inside `JsonValue::Number`.
#[verifier::external_type_specification]
#[verifier::external_body]
pub struct ExNumber(serde_json::Number);

/// serde_json::Value, handled only inside the two conversions below.
#[verifier::external_type_specification]
#[verifier::external_body]
pub struct ExValue(serde_json::Value);

/// A JSON value. Object members keep the order of the text (serde_json is
/// built with its `preserve_order` feature).
#[derive(Debug)]
pub enum JsonValue {
    Null,
    Bool(bool),
    Number(serde_json::Number),
    Str(String),
    Array(Vec<JsonValue>),
    Object(Vec<(String, JsonValue)>),
}

/// The tree that serde_json reads from `text`, or `None` where `text` is not
/// a JSON document.
pub uninterp spec fn json_parse(text: Seq<char>) -> Option<JsonValue>;

/// The indented text that serde_json writes for `v`.
pub uninterp spec fn json_pretty(v: JsonValue) -> Seq<char>;

/// Object members with pairwise different names.
pub open spec fn names_distinct(m: Seq<(String, JsonValue)>) -> bool {
    forall|i: int, j: int|
        0 <= i < m.len() && 0 <= j < m.len() && i != j ==> (#[trigger] m[i]).0@ != (#[trigger] m[j]).0@
}

/// `v` holds no number, no object of it repeats a member name, and it nests
/// at most `depth` arrays and objects.
pub open spec fn plain_json(v: JsonValue, depth: nat) -> bool
    decreases depth,
{
    match v {
        JsonValue::Number(_) => false,
        JsonValue::Array(a) => depth > 0 && forall|i: int|
            0 <= i < a@.len() ==> plain_json(#[trigger] a@[i], (depth - 1) as nat),
        JsonValue::Object(m) => depth > 0 && names_distinct(m@) && forall|i: int|
            0 <= i < m@.len() ==> plain_json(#[trigger] m@[i].1, (depth - 1) as nat),
        _ => true,
    }
}

/// Relies on serde_json::from_str::<serde_json::Value>: the tree of the JSON
/// document in `text`, with `None` for text that is not one. The result
/// depends on the text alone.
#[verifier::external_body]
pub(crate) fn parse_json(text: &str) -> (r: Option<JsonValue>)
    ensures
        r == json_parse(text@),
{
    serde_json::from_str::<serde_json::Value>(text).ok().map(tree_of)
}

/// Relies on serde_json::to_string_pretty on a serde_json::Value: the
/// document as indented JSON text, object members in the tree's order.
/// It cannot fail: Value's Serialize has no error of its own, its map keys
/// are strings, and writing into a Vec cannot fail. An object's text starts
/// with `{` (PrettyFormatter::begin_object). serde_json reads the text back
/// as the same tree when the tree holds no number (whose text need not read
/// back exactly), repeats no member name (the map would keep one) and nests
/// well within the parser's limit of 127 levels.
#[verifier::external_body]
pub(crate) fn render_json(v: &JsonValue) -> (r: Option<String>)
    ensures
        r is Some,
        r matches Some(t) ==> t@ == json_pretty(*v),
        r matches Some(t) ==> (v is Object ==> t@.len() > 0 && t@[0] == '{'),
        r matches Some(t) ==> (plain_json(*v, 100) ==> json_parse(t@) == Some(*v)),
{
    serde_json::to_string_pretty(&value_of(v)).ok()
}

/// Moves serde_json's tree into a `JsonValue`, variant for variant (used by
/// `parse_json` only).
#[verifier::external_body]
fn tree_of(v: serde_json::Value) -> JsonValue {
    match v {
        serde_json::Value::Null => JsonValue::Null,
        serde_json::Value::Bool(b) => JsonValue::Bool(b),
        serde_json::Value::Number(n) => JsonValue::Number(n),
        serde_json::Value::String(s) => JsonValue::Str(s),
        serde_json::Value::Array(a) => JsonValue::Array(a.into_iter().map(tree_of).collect()),
        serde_json::Value::Object(m) => JsonValue::Object(m.into_iter().map(|(k, x)| (k, tree_of(x))).collect()),
    }
}

/// Copies a `JsonValue` into serde_json's tree, variant for variant (used by
/// `render_json` only).
#[verifier::external_body]
fn value_of(v: &JsonValue) -> serde_json::Value {
    match v {
        JsonValue::Null => serde_json::Value::Null,
        JsonValue::Bool(b) => serde_json::Value::Bool(*b),
        JsonValue::Number(n) => serde_json::Value::Number(n.clone()),
        JsonValue::Str(s) => serde_json::Value::String(s.clone()),
        JsonValue::Array(a) => serde_json::Value::Array(a.iter().map(value_of).collect()),
        JsonValue::Object(m) => serde_json::Value::Object(m.iter().map(|(k, x)| (k.clone(), value_of(x))).collect()),
    }
}

} // verus!
