//! A plain model of parsed JSON values, filled in by `serde_json`.
use vstd::prelude::*;

verus! {

/// A JSON value as the query engine reads it. Numbers keep the text that
/// `serde_json` prints for them; arrays and objects keep, besides their
/// contents, their compact serialization.
#[derive(Debug)]
pub enum JsonValue {
    Null,
    Bool(bool),
    Number(String),
    String(String),
    Array(Vec<JsonValue>, String),
    Object(Vec<JsonMember>, String),
}

/// A key and its value in a JSON object.
#[derive(Debug)]
pub struct JsonMember {
    pub key: String,
    pub value: JsonValue,
}

/// `serde_json::Value`, carried only inside the conversion below.
#[verifier::external_type_specification]
#[verifier::external_body]
pub struct ExSerdeValue(serde_json::Value);

/// What `serde_json::from_str::<Value>` makes of `text`, if it parses.
pub uninterp spec fn spec_parse_json(text: Seq<char>) -> Option<JsonValue>;

/// Turns a `serde_json::Value` into the model, one variant for one variant
/// (object members in the map's order).
#[verifier::external_body]
fn model_of(v: &serde_json::Value) -> JsonValue {
    match v {
        serde_json::Value::Null => JsonValue::Null,
        serde_json::Value::Bool(b) => JsonValue::Bool(*b),
        serde_json::Value::Number(n) => JsonValue::Number(n.to_string()),
        serde_json::Value::String(s) => JsonValue::String(s.clone()),
        serde_json::Value::Array(a) => JsonValue::Array(a.iter().map(model_of).collect(), v.to_string()),
        serde_json::Value::Object(m) => JsonValue::Object(
            m.iter().map(|(k, x)| JsonMember { key: k.clone(), value: model_of(x) }).collect(),
            v.to_string(),
        ),
    }
}

/// `serde_json::from_str::<serde_json::Value>`, converted to the model;
/// `None` when the text is not one JSON value.
#[verifier::external_body]
pub(crate) fn parse_json(text: &str) -> (r: Option<JsonValue>)
    ensures
        r == spec_parse_json(text@),
{
    serde_json::from_str::<serde_json::Value>(text).ok().map(|v| model_of(&v))
}

} // verus!
