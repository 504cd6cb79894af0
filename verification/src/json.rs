//! JSON documents as plain values: the parse of a payload and the compact
//! text of a value, both done by `serde_json`.

use vstd::prelude::*;

verus! {

/// A JSON value. Numbers keep the text `serde_json` gives them; an object
/// keeps its members in the order `serde_json` lists them.
#[derive(Debug)]
pub enum JsonValue {
    Null,
    Bool(bool),
    Number(String),
    Text(String),
    Array(Vec<JsonValue>),
    Object(Vec<(String, JsonValue)>),
}

impl Clone for JsonValue {
    /// A copy of the value, member by member.
    fn clone(&self) -> (r: Self)
        decreases self,
    {
        match self {
            JsonValue::Null => JsonValue::Null,
            JsonValue::Bool(b) => JsonValue::Bool(*b),
            JsonValue::Number(t) => JsonValue::Number(t.clone()),
            JsonValue::Text(t) => JsonValue::Text(t.clone()),
            JsonValue::Array(items) => {
                let mut out: Vec<JsonValue> = Vec::new();
                let mut i: usize = 0;
                while i < items.len()
                    invariant
                        i <= items@.len(),
                        *self == JsonValue::Array(*items),
                    decreases items@.len() - i,
                {
                    proof {
                        assert(decreases_to!(*items => items[i as int]));
                        assert(decreases_to!(*self => (*self)->Array_0));
                    }
                    out.push(items[i].clone());
                    i = i + 1;
                }
                JsonValue::Array(out)
            },
            JsonValue::Object(members) => {
                let mut out: Vec<(String, JsonValue)> = Vec::new();
                let mut i: usize = 0;
                while i < members.len()
                    invariant
                        i <= members@.len(),
                        *self == JsonValue::Object(*members),
                    decreases members@.len() - i,
                {
                    proof {
                        assert(decreases_to!(*members => members[i as int]));
                        assert(decreases_to!(members[i as int] => members[i as int].1));
                        assert(decreases_to!(*self => (*self)->Object_0));
                    }
                    let (key, value) = &members[i];
                    out.push((key.clone(), value.clone()));
                    i = i + 1;
                }
                JsonValue::Object(out)
            },
        }
    }
}

/// Whether a value is the empty JSON array.
pub open spec fn is_empty_array(v: JsonValue) -> bool {
    v matches JsonValue::Array(a) && a@.len() == 0
}

#[verifier::external_type_specification]
#[verifier::external_body]
pub struct ExJsonValue(serde_json::Value);

/// The value `serde_json` reads from a document's bytes, or `None` where it
/// refuses them.
pub uninterp spec fn json_document(bytes: Seq<u8>) -> Option<JsonValue>;

/// The compact text `serde_json` writes for a value.
pub uninterp spec fn json_text(v: JsonValue) -> Seq<char>;

/// Turns a `serde_json::Value` into the same value, variant for variant;
/// a number becomes its `Display` text. Used only by `parse_json`.
#[verifier::external_body]
fn from_serde(v: &serde_json::Value) -> JsonValue {
    match v {
        serde_json::Value::Null => JsonValue::Null,
        serde_json::Value::Bool(b) => JsonValue::Bool(*b),
        serde_json::Value::Number(n) => JsonValue::Number(n.to_string()),
        serde_json::Value::String(s) => JsonValue::Text(s.clone()),
        serde_json::Value::Array(a) => JsonValue::Array(a.iter().map(from_serde).collect()),
        serde_json::Value::Object(o) => JsonValue::Object(o.iter().map(|(k, x)| (k.clone(), from_serde(x))).collect()),
    }
}

/// Turns a value back into a `serde_json::Value`, variant for variant; a
/// number's text is read back by `serde_json` (text it refuses becomes
/// null). Used only by `compact_json`.
#[verifier::external_body]
fn to_serde(v: &JsonValue) -> serde_json::Value {
    match v {
        JsonValue::Null => serde_json::Value::Null,
        JsonValue::Bool(b) => serde_json::Value::Bool(*b),
        JsonValue::Number(t) => t.parse::<serde_json::Number>().map(serde_json::Value::Number).unwrap_or(serde_json::Value::Null),
        JsonValue::Text(s) => serde_json::Value::String(s.clone()),
        JsonValue::Array(a) => serde_json::Value::Array(a.iter().map(to_serde).collect()),
        JsonValue::Object(o) => serde_json::Value::Object(o.iter().map(|(k, x)| (k.clone(), to_serde(x))).collect()),
    }
}

/// `serde_json::from_slice` into a `serde_json::Value`: the document's
/// value, or the crate's error message. What it reads is named, not stated.
#[verifier::external_body]
pub(crate) fn parse_json(bytes: &[u8]) -> (r: Result<JsonValue, String>)
    ensures
        match r {
            Ok(v) => json_document(bytes@) == Some(v),
            Err(_) => json_document(bytes@) is None,
        },
{
    serde_json::from_slice::<serde_json::Value>(bytes).map(|v| from_serde(&v)).map_err(|e| e.to_string())
}

/// `serde_json::Value`'s `Display`: the compact JSON text of a value.
#[verifier::external_body]
pub(crate) fn compact_json(v: &JsonValue) -> (r: String)
    ensures
        r@ == json_text(*v),
{
    to_serde(v).to_string()
}

} // verus!
