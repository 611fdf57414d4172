//! The generic JSON values of `serde_json`, as far as the library takes them
//! apart and puts them together. Nothing in this file is proved: each item
//! states what the library relies on.
use crate::model::{map_of, JsonView};
use crate::number::number_view;
use serde_json::Map as JsonMap;
use serde_json::Number as JsonNumber;
use serde_json::Value as JsonValue;
use vstd::prelude::*;

verus! {

/// `serde_json::Value`, carried through as an opaque value.
#[verifier::external_type_specification]
#[verifier::external_body]
pub struct ExJsonValue(JsonValue);

/// `serde_json::Map`, carried through as an opaque value.
#[verifier::external_type_specification]
#[verifier::external_body]
#[verifier::reject_recursive_types(K)]
#[verifier::reject_recursive_types(V)]
pub struct ExJsonMap<K, V>(JsonMap<K, V>);

/// What a `serde_json::Value` stands for.
pub uninterp spec fn json_view(v: JsonValue) -> JsonView;

/// The entries that a `serde_json::Map` holds.
pub uninterp spec fn map_view(m: JsonMap<String, JsonValue>) -> Map<Seq<char>, JsonView>;

/// The top level of a generic JSON value, borrowed from it.
pub enum JsonRef<'a> {
    Null,
    Bool(bool),
    Number(&'a JsonNumber),
    String(&'a String),
    Array(&'a Vec<JsonValue>),
    Object(&'a JsonMap<String, JsonValue>),
}

impl JsonRef<'_> {
    /// The JSON value with this top level.
    pub open spec fn whole(self) -> JsonView {
        match self {
            JsonRef::Null => JsonView::Null,
            JsonRef::Bool(b) => JsonView::Bool(b),
            JsonRef::Number(n) => JsonView::Number(number_view(*n)),
            JsonRef::String(s) => JsonView::String(s@),
            JsonRef::Array(items) => JsonView::Array(
                Seq::new(items@.len(), |i: int| json_view(items@[i])),
            ),
            JsonRef::Object(m) => JsonView::Object(map_view(*m)),
        }
    }
}

/// The top level of a generic JSON value, with its parts owned.
pub enum JsonNode {
    Null,
    Bool(bool),
    Number(JsonNumber),
    String(String),
    Array(Vec<JsonValue>),
    Object(JsonMap<String, JsonValue>),
}

impl JsonNode {
    /// The JSON value with this top level.
    pub open spec fn whole(self) -> JsonView {
        match self {
            JsonNode::Null => JsonView::Null,
            JsonNode::Bool(b) => JsonView::Bool(b),
            JsonNode::Number(n) => JsonView::Number(number_view(n)),
            JsonNode::String(s) => JsonView::String(s@),
            JsonNode::Array(items) => JsonView::Array(
                Seq::new(items@.len(), |i: int| json_view(items@[i])),
            ),
            JsonNode::Object(m) => JsonView::Object(map_view(m)),
        }
    }
}

/// Tells the six variants of `serde_json::Value` apart and borrows the
/// payload: the value stands for what its variant and payload stand for.
#[verifier::external_body]
pub(crate) fn json_open<'a>(v: &'a JsonValue) -> (r: JsonRef<'a>)
    ensures
        r.whole() == json_view(*v),
{
    match v {
        JsonValue::Null => JsonRef::Null,
        JsonValue::Bool(b) => JsonRef::Bool(*b),
        JsonValue::Number(n) => JsonRef::Number(n),
        JsonValue::String(s) => JsonRef::String(s),
        JsonValue::Array(items) => JsonRef::Array(items),
        JsonValue::Object(m) => JsonRef::Object(m),
    }
}

/// Builds the variant of `serde_json::Value` for a top level: the value
/// stands for what the variant and its payload stand for.
#[verifier::external_body]
pub(crate) fn json_close(node: JsonNode) -> (r: JsonValue)
    ensures
        json_view(r) == node.whole(),
{
    match node {
        JsonNode::Null => JsonValue::Null,
        JsonNode::Bool(b) => JsonValue::Bool(b),
        JsonNode::Number(n) => JsonValue::Number(n),
        JsonNode::String(s) => JsonValue::String(s),
        JsonNode::Array(items) => JsonValue::Array(items),
        JsonNode::Object(m) => JsonValue::Object(m),
    }
}

/// Calls `serde_json::Map::iter` and collects what it hands out: each pair is
/// an entry of the map, and each key of the map is among them. Nothing is
/// said of their order.
#[verifier::external_body]
pub(crate) fn map_entries<'a>(m: &'a JsonMap<String, JsonValue>) -> (r: Vec<
    (&'a String, &'a JsonValue),
>)
    ensures
        forall|i: int|
            0 <= i < r@.len() ==> map_view(*m).dom().contains((#[trigger] r@[i]).0@) && map_view(
                *m,
            )[r@[i].0@] == json_view(*r@[i].1),
        forall|k: Seq<char>| #[trigger]
            map_view(*m).dom().contains(k) ==> exists|i: int|
                0 <= i < r@.len() && (#[trigger] r@[i]).0@ == k,
{
    m.iter().collect()
}

/// Calls `serde_json::Map::new`: the map is empty.
#[verifier::external_body]
pub(crate) fn map_new() -> (r: JsonMap<String, JsonValue>)
    ensures
        map_view(r) == map_of::<JsonView>(Seq::empty()),
{
    JsonMap::new()
}

/// Calls `serde_json::Map::insert`: the map holds the value under the key,
/// in place of what it held there, and its other entries as before.
#[verifier::external_body]
pub(crate) fn map_insert(
    m: JsonMap<String, JsonValue>,
    key: String,
    value: JsonValue,
) -> (r: JsonMap<String, JsonValue>)
    ensures
        map_view(r) == map_view(m).insert(key@, json_view(value)),
{
    let mut m = m;
    m.insert(key, value);
    m
}

} // verus!
