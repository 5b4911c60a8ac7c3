//! Parsed JSON as the query tools read it: values with object fields in
//! order, numbers with the integer values they hold, and the compact text of
//! nested arrays and objects; reading JSON text into it and writing arrays
//! of it back go through `serde_json`.

use vstd::prelude::*;
use serde_json::Value;
use crate::json::JsonValue::{Array, Bool, Null, Number, Object, Str};
use crate::text::chars_eq;
use crate::text::chars_of;

verus! {

broadcast use vstd::string::group_string_axioms;

/// A JSON value.
pub enum JsonValue {
    Null,
    Bool(bool),
    /// A number: its text, and its value as `u64` / `i64` where it is an
    /// integer that fits.
    Number { text: String, as_u64: Option<u64>, as_i64: Option<i64> },
    Str(String),
    /// An array: its items and its compact JSON text.
    Array { items: Vec<JsonValue>, text: String },
    /// An object: its fields (keys distinct) and its compact JSON text.
    Object { fields: Vec<(String, JsonValue)>, text: String },
}

/// What `serde_json` reads from a text: the value it parses to, or nothing
/// when the text is not one JSON document.
pub uninterp spec fn json_parse(text: Seq<char>) -> Option<JsonValue>;

/// `serde_json::from_str::<Value>`, the value taken into the model: each
/// variant to its own, numbers with their text and `as_u64` / `as_i64`,
/// arrays and objects with their items and their compact text
/// (`Value::to_string`), object fields in the order of `serde_json`'s map.
/// The contract names the result and says nothing more of it.
#[verifier::external_body]
pub(crate) fn parse_json(text: &str) -> (r: Option<JsonValue>)
    ensures
        r == json_parse(text@),
{
    let v: Value = serde_json::from_str(text).ok()?;
    let text = v.to_string();
    Some(match v {
        Value::Null => Null,
        Value::Bool(b) => Bool(b),
        Value::Number(n) => Number { text, as_u64: n.as_u64(), as_i64: n.as_i64() },
        Value::String(s) => Str(s),
        Value::Array(a) => Array { items: a.iter().map(|x| parse_json(&x.to_string())).collect::<Option<_>>()?, text },
        Value::Object(m) => Object { fields: m.into_iter().map(|(k, x)| Some((k, parse_json(&x.to_string())?))).collect::<Option<_>>()?, text },
    })
}

/// The compact text `serde_json` writes for an array of these values
/// (nothing where it reports an error).
pub uninterp spec fn json_array_written(rows: Seq<JsonValue>) -> Option<Seq<char>>;

/// `serde_json::to_string` of the rows as a `Vec<Value>`: each value taken
/// back to `serde_json`'s own (numbers, arrays and objects read again from
/// the text they carry). The contract names the result and says nothing
/// more of it.
#[verifier::external_body]
pub(crate) fn json_array_text(rows: &Vec<JsonValue>) -> (r: Option<String>)
    ensures
        json_array_written(rows@) == match r {
            Some(t) => Some(t@),
            None => None,
        },
{
    let values: Vec<Value> = rows.iter().map(|v| match v {
        JsonValue::Null => Value::Null,
        JsonValue::Bool(b) => Value::Bool(*b),
        JsonValue::Str(s) => Value::String(s.clone()),
        JsonValue::Number { text, .. } | JsonValue::Array { text, .. } | JsonValue::Object { text, .. } => serde_json::from_str(text).unwrap_or(Value::Null),
    }).collect();
    serde_json::to_string(&values).ok()
}

/// The value of the first field named `key`.
pub open spec fn field_value(fields: Seq<(String, JsonValue)>, key: Seq<char>) -> Option<JsonValue>
    decreases fields.len(),
{
    if fields.len() == 0 {
        None
    } else if fields[0].0@ == key {
        Some(fields[0].1)
    } else {
        field_value(fields.drop_first(), key)
    }
}

/// The field `key` of an object (`Value::get` with a key); nothing for any
/// other value.
pub open spec fn json_field(v: JsonValue, key: Seq<char>) -> Option<JsonValue> {
    match v {
        JsonValue::Object { fields, .. } => field_value(fields@, key),
        _ => None,
    }
}

/// `Value::as_u64`.
pub open spec fn json_u64(v: Option<JsonValue>) -> Option<u64> {
    match v {
        Some(JsonValue::Number { as_u64, .. }) => as_u64,
        _ => None,
    }
}

/// `Value::as_i64`.
pub open spec fn json_i64(v: Option<JsonValue>) -> Option<i64> {
    match v {
        Some(JsonValue::Number { as_i64, .. }) => as_i64,
        _ => None,
    }
}

/// `Value::as_str`.
pub open spec fn json_str(v: Option<JsonValue>) -> Option<Seq<char>> {
    match v {
        Some(JsonValue::Str(s)) => Some(s@),
        _ => None,
    }
}

/// The field `key` of the object `v`.
pub fn json_get<'a>(v: &'a JsonValue, key: &str) -> (r: Option<&'a JsonValue>)
    ensures
        match r {
            Some(x) => json_field(*v, key@) == Some(*x),
            None => json_field(*v, key@) is None,
        },
{
    match v {
        JsonValue::Object { fields, .. } => {
            let k = chars_of(key);
            let mut i: usize = 0;
            assert(fields@.skip(0) =~= fields@);
            while i < fields.len()
                invariant
                    i <= fields@.len(),
                    k@ == key@,
                    json_field(*v, key@) == field_value(fields@, key@),
                    field_value(fields@, key@) == field_value(fields@.skip(i as int), key@),
                decreases fields@.len() - i,
            {
                assert(fields@.skip(i as int)[0] == fields@[i as int]);
                if chars_eq(chars_of(fields[i].0.as_str()).as_slice(), k.as_slice()) {
                    return Some(&fields[i].1);
                }
                assert(fields@.skip(i as int).drop_first() =~= fields@.skip(i + 1));
                i = i + 1;
            }
            None
        },
        _ => None,
    }
}

/// The `u64` in field `key` of `v`, or `default`.
pub fn field_u64_or(v: &JsonValue, key: &str, default: u64) -> (r: u64)
    ensures
        r == match json_u64(json_field(*v, key@)) {
            Some(n) => n,
            None => default,
        },
{
    match json_get(v, key) {
        Some(JsonValue::Number { as_u64: Some(n), .. }) => *n,
        _ => default,
    }
}

/// The `i64` in field `key` of `v`, or `default`.
pub fn field_i64_or(v: &JsonValue, key: &str, default: i64) -> (r: i64)
    ensures
        r == match json_i64(json_field(*v, key@)) {
            Some(n) => n,
            None => default,
        },
{
    match json_get(v, key) {
        Some(JsonValue::Number { as_i64: Some(n), .. }) => *n,
        _ => default,
    }
}

} // verus!
