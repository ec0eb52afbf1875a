//! Passage between `serde_json` and the values of this crate: reading JSON
//! documents, taking `serde_json` values apart and building them, and the
//! compact JSON text of a value.

use vstd::prelude::*;
use crate::json::{Json, JsonValue, Members, number_text, models, member_models,
    lemma_array_model, lemma_object_model};
use serde_json::Value;

verus! {

/// `serde_json::Value`: a JSON value as `serde_json` holds it. What it holds
/// is `json_of`.
#[verifier::external_type_specification]
#[verifier::external_body]
pub struct ExValue(serde_json::Value);

/// What a `serde_json::Value` holds; an object's members stand in the order
/// in which its map hands them out.
pub uninterp spec fn json_of(v: serde_json::Value) -> Json;

/// The members that a `serde_json` map keeps of a sequence of members, in the
/// map's own order.
pub uninterp spec fn kept_members(fields: Members) -> Members;

/// The JSON documents that `serde_json` reads from `input` before the input
/// ends or a document is malformed, and in the second case the line and
/// column at which it gave up.
pub uninterp spec fn documents(input: Seq<u8>) -> (Seq<Json>, Option<(usize, usize)>);

/// The compact JSON text of a value, as `serde_json` prints it.
pub uninterp spec fn json_text(j: Json) -> Seq<char>;

/// What each of a sequence of `serde_json` values holds.
pub open spec fn jsons_of(values: Seq<Value>) -> Seq<Json> {
    Seq::new(values.len(), |i: int| json_of(values[i]))
}

/// What each of a sequence of named `serde_json` values holds.
pub open spec fn members_of(fields: Seq<(String, Value)>) -> Members {
    Seq::new(fields.len(), |i: int| (fields[i].0@, json_of(fields[i].1)))
}

/// A value as `serde_json` holds it once built from `j`: at every object the
/// members that the map keeps.
pub open spec fn stored(j: Json) -> Json
    decreases j,
{
    match j {
        Json::Array(items) => Json::Array(stored_items(items)),
        Json::Object(fields) => Json::Object(kept_members(stored_members(fields))),
        _ => j,
    }
}

/// The stored form of each item.
pub open spec fn stored_items(items: Seq<Json>) -> Seq<Json>
    decreases items,
{
    Seq::new(
        items.len(),
        |i: int|
            if 0 <= i < items.len() {
                stored(items[i])
            } else {
                Json::Null
            },
    )
}

/// The members, each value in its stored form.
pub open spec fn stored_members(fields: Members) -> Members
    decreases fields,
{
    Seq::new(
        fields.len(),
        |i: int|
            if 0 <= i < fields.len() {
                (fields[i].0, stored(fields[i].1))
            } else {
                (Seq::empty(), Json::Null)
            },
    )
}

/// One level of a `serde_json::Value`, its children unopened.
pub enum Node {
    Null,
    Bool(bool),
    Number(serde_json::Number),
    String(String),
    Array(Vec<Value>),
    Object(Vec<(String, Value)>),
}

impl Node {
    /// What the node holds, every member of an object counted.
    pub open spec fn model(self) -> Json {
        match self {
            Node::Null => Json::Null,
            Node::Bool(b) => Json::Bool(b),
            Node::Number(n) => Json::Number(number_text(n)),
            Node::String(s) => Json::String(s@),
            Node::Array(items) => Json::Array(jsons_of(items@)),
            Node::Object(fields) => Json::Object(members_of(fields@)),
        }
    }
}

/// Takes a `serde_json::Value` apart by its variant. An object's members come
/// out of `serde_json::Map`'s `into_iter`, in the map's order.
#[verifier::external_body]
pub(crate) fn open_value(v: Value) -> (n: Node)
    ensures
        n.model() == json_of(v),
{
    match v {
        Value::Null => Node::Null,
        Value::Bool(b) => Node::Bool(b),
        Value::Number(n) => Node::Number(n),
        Value::String(s) => Node::String(s),
        Value::Array(items) => Node::Array(items),
        Value::Object(map) => Node::Object(map.into_iter().collect()),
    }
}

/// Builds a `serde_json::Value` of the node's variant. An object's members
/// are collected into a `serde_json::Map`, which keeps of them what
/// `kept_members` names.
#[verifier::external_body]
pub(crate) fn close_node(n: Node) -> (v: Value)
    ensures
        n is Object ==> json_of(v) == Json::Object(kept_members(n.model().members())),
        !(n is Object) ==> json_of(v) == n.model(),
{
    match n {
        Node::Null => Value::Null,
        Node::Bool(b) => Value::Bool(b),
        Node::Number(n) => Value::Number(n),
        Node::String(s) => Value::String(s),
        Node::Array(items) => Value::Array(items),
        Node::Object(fields) => Value::Object(fields.into_iter().collect()),
    }
}

/// `serde_json::Deserializer::from_slice` and its `into_iter`: the documents
/// read from `input` up to its end or to the first malformed one, and for a
/// malformed one the error's `line` and `column`.
#[verifier::external_body]
pub(crate) fn read_values(input: &[u8]) -> (r: (Vec<Value>, Option<(usize, usize)>))
    ensures
        (jsons_of(r.0@), r.1) == documents(input@),
{
    let mut values = Vec::new();
    for item in serde_json::Deserializer::from_slice(input).into_iter::<Value>() {
        match item {
            Ok(v) => values.push(v),
            Err(e) => return (values, Some((e.line(), e.column()))),
        }
    }
    (values, None)
}

/// `serde_json::Value`'s `to_string`: the value as compact JSON text.
#[verifier::external_body]
pub(crate) fn value_text(v: &Value) -> (r: String)
    ensures
        r@ == json_text(json_of(*v)),
{
    v.to_string()
}

/// The value of this crate that holds what `v` holds.
pub fn from_value(v: Value) -> (r: JsonValue)
    ensures
        r@ == json_of(v),
    decreases json_of(v),
{
    match open_value(v) {
        Node::Null => JsonValue::Null,
        Node::Bool(b) => JsonValue::Bool(b),
        Node::Number(n) => JsonValue::Number(n),
        Node::String(s) => JsonValue::String(s),
        Node::Array(items) => {
            let ghost all = items@;
            let mut out: Vec<JsonValue> = Vec::new();
            for item in it: items
                invariant
                    it.seq() == all,
                    json_of(v) is Array,
                    json_of(v)->Array_0 == jsons_of(all),
                    out@.len() == it.index(),
                    forall|j: int| 0 <= j < out@.len() ==> (#[trigger] out@[j])@ == json_of(all[j]),
            {
                assert(jsons_of(all)[it.index() as int] == json_of(item));
                assert(decreases_to!(json_of(v)->Array_0 => json_of(v)->Array_0[it.index() as int]));
                out.push(from_value(item));
            }
            proof {
                lemma_array_model(out);
                assert(models(out@) =~= jsons_of(all));
            }
            JsonValue::Array(out)
        },
        Node::Object(fields) => {
            let ghost all = fields@;
            let mut out: Vec<(String, JsonValue)> = Vec::new();
            for field in it: fields
                invariant
                    it.seq() == all,
                    json_of(v) is Object,
                    json_of(v)->Object_0 == members_of(all),
                    out@.len() == it.index(),
                    forall|j: int|
                        0 <= j < out@.len() ==> (#[trigger] out@[j]).0@ == all[j].0@ && out@[j].1@
                            == json_of(all[j].1),
            {
                assert(members_of(all)[it.index() as int].1 == json_of(field.1));
                assert(decreases_to!(json_of(v)->Object_0 => json_of(v)->Object_0[it.index() as int]));
                let (name, value) = field;
                out.push((name, from_value(value)));
            }
            proof {
                lemma_object_model(out);
                assert(member_models(out@) =~= members_of(all));
            }
            JsonValue::Object(out)
        },
    }
}

/// The `serde_json::Value` built from `v`.
pub fn to_value(v: &JsonValue) -> (r: Value)
    ensures
        json_of(r) == stored(v@),
    decreases v,
{
    match v {
        JsonValue::Null => close_node(Node::Null),
        JsonValue::Bool(b) => close_node(Node::Bool(*b)),
        JsonValue::Number(n) => close_node(Node::Number(n.clone())),
        JsonValue::String(s) => close_node(Node::String(s.clone())),
        JsonValue::Array(items) => {
            let mut out: Vec<Value> = Vec::new();
            let mut i: usize = 0;
            while i < items.len()
                invariant
                    decreases_to!(*v => *items),
                    i <= items.len(),
                    out@.len() == i,
                    forall|j: int| 0 <= j < i ==> json_of(#[trigger] out@[j]) == stored(items@[j]@),
                decreases items.len() - i,
            {
                assert(decreases_to!(*items => items[i as int]));
                out.push(to_value(&items[i]));
                i += 1;
            }
            proof {
                lemma_array_model(*items);
                assert(jsons_of(out@) =~= stored_items(models(items@)));
            }
            close_node(Node::Array(out))
        },
        JsonValue::Object(fields) => {
            let mut out: Vec<(String, Value)> = Vec::new();
            let mut i: usize = 0;
            while i < fields.len()
                invariant
                    decreases_to!(*v => *fields),
                    i <= fields.len(),
                    out@.len() == i,
                    forall|j: int|
                        0 <= j < i ==> (#[trigger] out@[j]).0@ == fields@[j].0@ && json_of(
                            out@[j].1,
                        ) == stored(fields@[j].1@),
                decreases fields.len() - i,
            {
                assert(decreases_to!(*fields => fields[i as int]));
                out.push((fields[i].0.clone(), to_value(&fields[i].1)));
                i += 1;
            }
            proof {
                lemma_object_model(*fields);
                assert(members_of(out@) =~= stored_members(member_models(fields@)));
            }
            close_node(Node::Object(out))
        },
    }
}

/// The JSON documents in `input`, read one after another until the input
/// ends or a document is malformed; then the second part tells where.
pub fn parse_documents(input: &[u8]) -> (r: (Vec<JsonValue>, Option<(usize, usize)>))
    ensures
        (models(r.0@), r.1) == documents(input@),
{
    let (values, failure) = read_values(input);
    let ghost all = values@;
    let mut out: Vec<JsonValue> = Vec::new();
    for value in it: values
        invariant
            it.seq() == all,
            out@.len() == it.index(),
            forall|j: int| 0 <= j < out@.len() ==> (#[trigger] out@[j])@ == json_of(all[j]),
    {
        out.push(from_value(value));
    }
    assert(models(out@) =~= jsons_of(all));
    (out, failure)
}

/// The compact JSON text of `v`.
pub fn render(v: &JsonValue) -> (r: String)
    ensures
        r@ == json_text(stored(v@)),
{
    let value = to_value(v);
    value_text(&value)
}

} // verus!
