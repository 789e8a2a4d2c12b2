//! JSON documents as the library reads them: the value `serde_json` parses
//! from a text, converted variant for variant, and lookups in it.

use vstd::prelude::*;

use crate::text::str_eq;

verus! {

#[verifier::external_type_specification]
#[verifier::external_body]
pub struct ExJsonValue(serde_json::Value);

/// A JSON value. A number keeps its value where it is an unsigned integer
/// (`as_u64`); object members come in the order `serde_json` yields them.
pub enum JsonValue {
    Null,
    Bool(bool),
    Number(Option<u64>),
    Str(String),
    Array(Vec<JsonValue>),
    Object(Vec<(String, JsonValue)>),
}

/// What `serde_json::from_str::<serde_json::Value>` parses from a text,
/// converted; `None` when the text is not JSON.
pub uninterp spec fn json_parsed(text: Seq<char>) -> Option<JsonValue>;

/// Converts a parsed value variant for variant (numbers by `as_u64`). It
/// serves [`parse_json`] only and claims nothing.
#[verifier::external_body]
fn json_of(v: serde_json::Value) -> JsonValue {
    match v {
        serde_json::Value::Null => JsonValue::Null,
        serde_json::Value::Bool(b) => JsonValue::Bool(b),
        serde_json::Value::Number(n) => JsonValue::Number(n.as_u64()),
        serde_json::Value::String(s) => JsonValue::Str(s),
        serde_json::Value::Array(a) => JsonValue::Array(a.into_iter().map(json_of).collect()),
        serde_json::Value::Object(m) => JsonValue::Object(m.into_iter().map(|(k, x)| (k, json_of(x))).collect()),
    }
}

/// `serde_json::from_str::<serde_json::Value>`, converted. Claims only that
/// the outcome is a function of the text.
#[verifier::external_body]
pub(crate) fn parse_json(text: &str) -> (r: Option<JsonValue>)
    ensures
        r == json_parsed(text@),
{
    serde_json::from_str::<serde_json::Value>(text).ok().map(json_of)
}

/// The value of the first member named `key`.
pub open spec fn member(fields: Seq<(String, JsonValue)>, key: Seq<char>) -> Option<JsonValue>
    decreases fields.len(),
{
    if fields.len() == 0 {
        None
    } else if fields[0].0@ == key {
        Some(fields[0].1)
    } else {
        member(fields.drop_first(), key)
    }
}

/// `value[key]` for an object; `None` for a missing member or a value
/// that is not an object.
pub open spec fn field_of(v: JsonValue, key: Seq<char>) -> Option<JsonValue> {
    match v {
        JsonValue::Object(fs) => member(fs@, key),
        _ => None,
    }
}

/// Looks up a member of an object value.
pub fn get_field<'a>(v: &'a JsonValue, key: &str) -> (r: Option<&'a JsonValue>)
    ensures
        match field_of(*v, key@) {
            Some(x) => r matches Some(y) && *y == x,
            None => r is None,
        },
{
    match v {
        JsonValue::Object(fs) => {
            let mut i: usize = 0;
            assert(fs@.skip(0) =~= fs@);
            while i < fs.len()
                invariant
                    i <= fs@.len(),
                    member(fs@, key@) == member(fs@.skip(i as int), key@),
                    field_of(*v, key@) == member(fs@, key@),
                decreases fs@.len() - i,
            {
                let ghost t = fs@.skip(i as int);
                assert(t[0] == fs@[i as int]);
                assert(t.drop_first() =~= fs@.skip(i + 1));
                if str_eq(fs[i].0.as_str(), key) {
                    return Some(&fs[i].1);
                }
                i += 1;
            }
            assert(fs@.skip(i as int).len() == 0);
            None
        },
        _ => None,
    }
}

/// The text of a string value.
pub open spec fn as_str(v: Option<JsonValue>) -> Option<String> {
    match v {
        Some(JsonValue::Str(s)) => Some(s),
        _ => None,
    }
}

pub fn str_of(v: Option<&JsonValue>) -> (r: Option<String>)
    ensures
        r == as_str(match v {
            Some(x) => Some(*x),
            None => None,
        }),
{
    match v {
        Some(JsonValue::Str(s)) => Some(s.clone()),
        _ => None,
    }
}

} // verus!
