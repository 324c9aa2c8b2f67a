//! JSON documents, read by `serde_json`.
use serde_json::Value;
use vstd::prelude::*;

verus! {

/// A JSON document. A number is held as the bits of its floating-point value, where it has one.
#[derive(Debug, PartialEq, Eq)]
pub enum Json {
    Null,
    Bool(bool),
    Number(Option<u64>),
    Text(String),
    Array(Vec<Json>),
    Object(Vec<(String, Json)>),
}

#[verifier::ext_equal]
pub enum JsonModel {
    Null,
    Bool(bool),
    Number(Option<u64>),
    Text(Seq<char>),
    Array(Seq<JsonModel>),
    Object(Seq<(Seq<char>, JsonModel)>),
}

impl Json {
    pub open spec fn model(self) -> JsonModel
        decreases self,
    {
        match self {
            Json::Null => JsonModel::Null,
            Json::Bool(value) => JsonModel::Bool(value),
            Json::Number(bits) => JsonModel::Number(bits),
            Json::Text(text) => JsonModel::Text(text@),
            Json::Array(items) => JsonModel::Array(
                Seq::new(
                    items@.len(),
                    |i: int|
                        if 0 <= i < items@.len() {
                            items@[i].model()
                        } else {
                            JsonModel::Null
                        },
                ),
            ),
            Json::Object(members) => JsonModel::Object(
                Seq::new(
                    members@.len(),
                    |i: int|
                        if 0 <= i < members@.len() {
                            (members@[i].0@, members@[i].1.model())
                        } else {
                            (Seq::empty(), JsonModel::Null)
                        },
                ),
            ),
        }
    }
}

// ---------------------------------------------------------------------------------------------
// Reading

/// `serde_json::Value`, a parsed document.
#[verifier::external_type_specification]
#[verifier::external_body]
pub struct ExValue(serde_json::Value);

/// The document that a `serde_json::Value` holds.
pub uninterp spec fn value_document(value: serde_json::Value) -> JsonModel;

/// The document that `serde_json::from_slice` reads from a body, if the body is JSON.
pub uninterp spec fn parsed_json(body: Seq<u8>) -> Option<JsonModel>;

/// A value one level deep.
pub enum Parts<'a> {
    Null,
    Bool(bool),
    Number(Option<u64>),
    Text(&'a String),
    Array(&'a Vec<Value>),
    Object(Vec<(&'a String, &'a Value)>),
}

impl<'a> Parts<'a> {
    /// The document with these parts.
    pub open spec fn document(self) -> JsonModel {
        match self {
            Parts::Null => JsonModel::Null,
            Parts::Bool(value) => JsonModel::Bool(value),
            Parts::Number(bits) => JsonModel::Number(bits),
            Parts::Text(text) => JsonModel::Text(text@),
            Parts::Array(items) => JsonModel::Array(
                items@.map_values(|item: Value| value_document(item)),
            ),
            Parts::Object(members) => JsonModel::Object(
                members@.map_values(
                    |entry: (&'a String, &'a Value)| (entry.0@, value_document(*entry.1)),
                ),
            ),
        }
    }
}

/// `serde_json::from_slice` to a `Value`. What it reads is named `parsed_json`; it is `None` where
/// the body is not JSON.
#[verifier::external_body]
fn parse_value(body: &[u8]) -> (r: Option<Value>)
    ensures
        (match r {
            Some(value) => Some(value_document(value)),
            None => None,
        }) == parsed_json(body@),
{
    serde_json::from_slice(body).ok()
}

/// The variant of a `serde_json::Value`. A number is taken by `Number::as_f64`, an object by the
/// listing of its map.
#[verifier::external_body]
fn parts<'a>(value: &'a Value) -> (r: Parts<'a>)
    ensures
        r.document() == value_document(*value),
{
    match value {
        Value::Null => Parts::Null,
        Value::Bool(value) => Parts::Bool(*value),
        Value::Number(number) => match number.as_f64() {
            Some(value) => Parts::Number(Some(value.to_bits())),
            None => Parts::Number(None),
        },
        Value::String(text) => Parts::Text(text),
        Value::Array(items) => Parts::Array(items),
        Value::Object(members) => Parts::Object(members.iter().collect()),
    }
}

/// The document that a value holds.
fn document(value: &Value) -> (r: Json)
    ensures
        r.model() == value_document(*value),
    decreases value_document(*value),
{
    let ghost whole = value_document(*value);
    match parts(value) {
        Parts::Null => Json::Null,
        Parts::Bool(value) => Json::Bool(value),
        Parts::Number(bits) => Json::Number(bits),
        Parts::Text(text) => Json::Text(text.clone()),
        Parts::Array(items) => {
            let mut list: Vec<Json> = Vec::new();
            for i in 0..items.len()
                invariant
                    whole == Parts::Array(items).document(),
                    whole == value_document(*value),
                    list@.len() == i,
                    forall|j: int|
                        0 <= j < i ==> (#[trigger] list@[j]).model() == value_document(items@[j]),
            {
                assert(decreases_to!(whole => whole->Array_0));
                assert(whole->Array_0[i as int] == value_document(items@[i as int]));
                list.push(document(&items[i]));
            }
            let json = Json::Array(list);
            assert(json.model()->Array_0 =~= whole->Array_0);
            json
        },
        Parts::Object(members) => {
            let mut list: Vec<(String, Json)> = Vec::new();
            for i in 0..members.len()
                invariant
                    whole == Parts::Object(members).document(),
                    whole == value_document(*value),
                    list@.len() == i,
                    forall|j: int|
                        0 <= j < i ==> (#[trigger] list@[j]).0@ == members@[j].0@
                            && list@[j].1.model() == value_document(*members@[j].1),
            {
                assert(decreases_to!(whole => whole->Object_0));
                assert(whole->Object_0[i as int].1 == value_document(*members@[i as int].1));
                let entry = (members[i].0.clone(), document(members[i].1));
                list.push(entry);
            }
            let json = Json::Object(list);
            assert(json.model()->Object_0 =~= whole->Object_0);
            json
        },
    }
}

/// Reads a body as JSON.
pub fn parse_json(body: &[u8]) -> (r: Option<Json>)
    ensures
        (match r {
            Some(json) => Some(json.model()),
            None => None,
        }) == parsed_json(body@),
{
    match parse_value(body) {
        Some(value) => Some(document(&value)),
        None => None,
    }
}

} // verus!
