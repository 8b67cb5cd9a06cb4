//! JSON documents as plain values, as far as the tool-output readers look
//! into them.

use vstd::prelude::*;
use crate::text::{chars_of, eq_chars};

verus! {

/// A JSON value. A number is held as what `as_u64` gives for it: its value
/// when it is a non-negative integer that fits in 64 bits.
#[derive(Debug, PartialEq, Eq)]
pub enum JsonValue {
    Null,
    Bool(bool),
    Number(Option<u64>),
    Str(String),
    Array(Vec<JsonValue>),
    Object(Vec<(String, JsonValue)>),
}

#[verifier::external_type_specification]
#[verifier::external_body]
pub struct ExSerdeJsonValue(serde_json::Value);

/// The JSON document that `text` holds, if it holds one
/// (`serde_json::from_str::<serde_json::Value>`).
pub uninterp spec fn json_parse(text: Seq<char>) -> Option<JsonValue>;

/// `serde_json::from_str::<serde_json::Value>`, converted: the result is
/// `json_parse` of the text.
#[verifier::external_body]
pub(crate) fn parse_json(text: &str) -> (r: Option<JsonValue>)
    ensures
        r == json_parse(text@),
{
    let v: serde_json::Value = serde_json::from_str(text).ok()?;
    Some(from_serde(&v))
}

/// The conversion of a `serde_json::Value`, variant by variant.
#[verifier::external_body]
fn from_serde(v: &serde_json::Value) -> JsonValue {
    match v {
        serde_json::Value::Null => JsonValue::Null,
        serde_json::Value::Bool(b) => JsonValue::Bool(*b),
        serde_json::Value::Number(n) => JsonValue::Number(n.as_u64()),
        serde_json::Value::String(s) => JsonValue::Str(s.clone()),
        serde_json::Value::Array(a) => JsonValue::Array(a.iter().map(from_serde).collect()),
        serde_json::Value::Object(o) => JsonValue::Object(o.iter().map(|(k, x)| (k.clone(), from_serde(x))).collect()),
    }
}

/// The value of the first field named `key`, if any.
pub open spec fn first_field(fields: Seq<(String, JsonValue)>, key: Seq<char>) -> Option<JsonValue>
    decreases fields.len(),
{
    if fields.len() == 0 {
        None
    } else if fields[0].0@ == key {
        Some(fields[0].1)
    } else {
        first_field(fields.drop_first(), key)
    }
}

/// The member `key` of an object (the first with that key), if any
/// (`Value::get`).
pub open spec fn member(v: JsonValue, key: Seq<char>) -> Option<JsonValue> {
    match v {
        JsonValue::Object(fields) => first_field(fields@, key),
        _ => None,
    }
}

/// `value[key]`: the member, or null.
pub open spec fn index(v: JsonValue, key: Seq<char>) -> JsonValue {
    match member(v, key) {
        Some(x) => x,
        None => JsonValue::Null,
    }
}

/// `as_str`.
pub open spec fn as_str(v: JsonValue) -> Option<Seq<char>> {
    match v {
        JsonValue::Str(s) => Some(s@),
        _ => None,
    }
}

/// `as_u64`.
pub open spec fn as_u64(v: JsonValue) -> Option<u64> {
    match v {
        JsonValue::Number(n) => n,
        _ => None,
    }
}

/// The text of a string value, or the empty text.
pub open spec fn str_or_empty(v: JsonValue) -> Seq<char> {
    match as_str(v) {
        Some(s) => s,
        None => Seq::empty(),
    }
}

/// The number of a value that `as_u64` reads, or 0.
pub open spec fn u64_or_zero(v: JsonValue) -> u64 {
    match as_u64(v) {
        Some(n) => n,
        None => 0,
    }
}

/// The member `key` of an object, if any (`Value::get`).
pub fn get_member<'a>(v: &'a JsonValue, key: &str) -> (r: Option<&'a JsonValue>)
    ensures
        match r {
            Some(x) => member(*v, key@) == Some(*x),
            None => member(*v, key@) is None,
        },
{
    match v {
        JsonValue::Object(fields) => {
            let k = chars_of(key);
            let mut i: usize = 0;
            proof {
                assert(*v == JsonValue::Object(*fields));
                assert(member(*v, key@) == first_field(fields@, key@));
                assert(fields@.skip(0) =~= fields@);
            }
            while i < fields.len()
                invariant
                    i <= fields@.len(),
                    k@ == key@,
                    member(*v, key@) == first_field(fields@, key@),
                    first_field(fields@, key@) == first_field(fields@.skip(i as int), key@),
                decreases fields@.len() - i,
            {
                proof {
                    assert(fields@.skip(i as int)[0] == fields@[i as int]);
                    assert(fields@.skip(i as int).drop_first() =~= fields@.skip(i + 1));
                }
                if crate::text::str_eq(&fields[i].0, &k) {
                    proof {
                        assert(first_field(fields@.skip(i as int), key@) == Some(fields@[i as int].1));
                        assert(member(*v, key@) == first_field(fields@, key@));
                    }
                    return Some(&fields[i].1);
                }
                i = i + 1;
            }
            None
        },
        _ => None,
    }
}

/// The text of a string value, or the empty text.
pub fn str_value(v: Option<&JsonValue>) -> (r: String)
    ensures
        r@ == match v {
            Some(x) => str_or_empty(*x),
            None => Seq::<char>::empty(),
        },
{
    match v {
        Some(JsonValue::Str(s)) => s.clone(),
        _ => String::new(),
    }
}

/// The number of a value that `as_u64` reads, or 0.
pub fn u64_value(v: Option<&JsonValue>) -> (r: u64)
    ensures
        r == match v {
            Some(x) => u64_or_zero(*x),
            None => 0,
        },
{
    match v {
        Some(JsonValue::Number(Some(n))) => *n,
        _ => 0,
    }
}

/// Whether a value is the string `s`.
pub fn is_str(v: Option<&JsonValue>, s: &str) -> (r: bool)
    ensures
        r == match v {
            Some(x) => as_str(*x) == Some(s@),
            None => false,
        },
{
    match v {
        Some(JsonValue::Str(t)) => eq_chars(&chars_of(t.as_str()), &chars_of(s)),
        _ => false,
    }
}

} // verus!
