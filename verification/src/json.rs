//! JSON values carried through the runtime.
//!
//! Tool arguments, tool results, schemas and provider replies are
//! `serde_json::Value`s. The verified code reads them only through the
//! accessors below, whose results are named, not stated.
use vstd::prelude::*;

verus! {

/// `serde_json::Value`, carried opaquely.
#[verifier::external_type_specification]
#[verifier::external_body]
pub struct ExJsonValue(serde_json::Value);

/// `<serde_json::Value as Clone>::clone`: the derived clone yields an equal value.
pub assume_specification[ <serde_json::Value as Clone>::clone ](v: &serde_json::Value) -> (r:
    serde_json::Value)
    ensures
        r == *v,
;

} // verus!

verus! {

/// The JSON string value holding `text`.
pub uninterp spec fn json_string_of(text: Seq<char>) -> serde_json::Value;

/// The compact JSON text of the object made of `entries`, if it serialises.
pub uninterp spec fn json_object_text_of(entries: Seq<(Seq<char>, serde_json::Value)>) -> Option<
    Seq<char>,
>;

/// `serde_json::Value::String(text)`: a string value, which `as_str` reads back.
#[verifier::external_body]
pub fn json_string(text: &str) -> (r: serde_json::Value)
    ensures
        r == json_string_of(text@),
        json_str(r) == Some(text@),
{
    serde_json::Value::String(text.to_owned())
}

/// `serde_json::to_string` of the object whose members are `entries`.
#[verifier::external_body]
pub fn json_object_text(entries: &Vec<(String, serde_json::Value)>) -> (r: Option<String>)
    ensures
        r is Some <==> json_object_text_of(entries@.map_values(|p: (String, serde_json::Value)| (p.0@, p.1))) is Some,
        r matches Some(t) ==> json_object_text_of(entries@.map_values(|p: (String, serde_json::Value)| (p.0@, p.1))) == Some(t@),
{
    let object: serde_json::Map<String, serde_json::Value> = entries.iter().cloned().collect();
    serde_json::to_string(&object).ok()
}

/// The boolean `v` holds, when it is a JSON boolean.
pub uninterp spec fn json_bool(v: serde_json::Value) -> Option<bool>;

/// The integer `v` holds, when it is an integer that fits an `i64`.
pub uninterp spec fn json_i64(v: serde_json::Value) -> Option<i64>;

/// The value `serde_json::from_slice` parses from `bytes`, if it parses.
pub uninterp spec fn json_parsed_bytes(bytes: Seq<u8>) -> Option<serde_json::Value>;

/// The `Display` text of the error `serde_json::from_slice` reports for `bytes`.
pub uninterp spec fn json_bytes_error_text(bytes: Seq<u8>) -> Seq<char>;

/// The compact JSON bytes `serde_json::to_vec` writes for `v`.
pub uninterp spec fn json_bytes(v: serde_json::Value) -> Seq<u8>;

/// No two entries share a key.
pub open spec fn distinct_entry_keys(entries: Seq<(String, serde_json::Value)>) -> bool {
    forall|i: int, j: int| 0 <= i < j < entries.len() ==> entries[i].0@ != entries[j].0@
}

/// `Value::Object` of `entries`: an object in which, when the keys are
/// distinct, each key reads back its value and no other key is present.
#[verifier::external_body]
pub fn json_object_from(entries: Vec<(String, serde_json::Value)>) -> (r: serde_json::Value)
    ensures
        json_object(r),
        distinct_entry_keys(entries@) ==> forall|i: int|
            0 <= i < entries@.len() ==> json_field(r, #[trigger] entries@[i].0@) == Some(entries@[i].1),
        forall|k: Seq<char>|
            (forall|i: int| 0 <= i < entries@.len() ==> entries@[i].0@ != k) ==> json_field(r, k) is None,
{
    serde_json::Value::Object(entries.into_iter().collect())
}

/// `Value::Array` of `items`.
#[verifier::external_body]
pub fn json_array_from(items: Vec<serde_json::Value>) -> (r: serde_json::Value)
    ensures
        json_array(r) == Some(items@),
{
    serde_json::Value::Array(items)
}

/// `Value::from(n)` for a `u64`, which `as_u64` reads back.
#[verifier::external_body]
pub fn json_from_u64(n: u64) -> (r: serde_json::Value)
    ensures
        json_u64(r) == Some(n),
{
    serde_json::Value::from(n)
}

/// `Value::from(n)` for an `i64`, which `as_i64` reads back.
#[verifier::external_body]
pub fn json_from_i64(n: i64) -> (r: serde_json::Value)
    ensures
        json_i64(r) == Some(n),
{
    serde_json::Value::from(n)
}

/// `Value::Bool(b)`, which `as_bool` reads back.
#[verifier::external_body]
pub fn json_from_bool(b: bool) -> (r: serde_json::Value)
    ensures
        json_bool(r) == Some(b),
{
    serde_json::Value::Bool(b)
}

/// `serde_json::from_slice::<Value>(bytes)`, its error as its `Display` text.
#[verifier::external_body]
pub fn json_from_bytes(bytes: &[u8]) -> (r: Result<serde_json::Value, String>)
    ensures
        r is Ok <==> json_parsed_bytes(bytes@) is Some,
        r matches Ok(v) ==> json_parsed_bytes(bytes@) == Some(v),
        r matches Err(m) ==> m@ == json_bytes_error_text(bytes@),
{
    serde_json::from_slice(bytes).map_err(|error| error.to_string())
}

/// `serde_json::to_vec(v)`, its error as its `Display` text. On a `Value`
/// it always succeeds: the bytes go to a `Vec`, whose writes cannot fail,
/// the keys of a `Value`'s objects are strings, and a number that is not
/// finite is written as `null`; so the result is `Ok` of the value's bytes.
#[verifier::external_body]
pub fn json_to_bytes(v: &serde_json::Value) -> (r: Result<Vec<u8>, String>)
    ensures
        r is Ok,
        r matches Ok(b) ==> b@ == json_bytes(*v),
{
    serde_json::to_vec(v).map_err(|error| error.to_string())
}

/// The member `key` of `v` when `v` is an object that has it.
pub uninterp spec fn json_field(v: serde_json::Value, key: Seq<char>) -> Option<serde_json::Value>;

/// The string `v` holds, when it is a JSON string.
pub uninterp spec fn json_str(v: serde_json::Value) -> Option<Seq<char>>;

/// The number `v` holds, when it is a non-negative integer that fits a `u64`.
pub uninterp spec fn json_u64(v: serde_json::Value) -> Option<u64>;

/// The items of `v`, when it is a JSON array.
pub uninterp spec fn json_array(v: serde_json::Value) -> Option<Seq<serde_json::Value>>;

/// Whether `v` is JSON `null`.
pub uninterp spec fn json_is_null_value(v: serde_json::Value) -> bool;

/// Whether `v` is a JSON object.
pub uninterp spec fn json_object(v: serde_json::Value) -> bool;

/// The compact JSON text of `v` (its `Display` form).
pub uninterp spec fn json_text(v: serde_json::Value) -> Seq<char>;

/// The value `serde_json::from_str` parses from `text`, if it parses.
pub uninterp spec fn json_parsed(text: Seq<char>) -> Option<serde_json::Value>;

/// The `Display` text of the error `serde_json::from_str` reports for `text`.
pub uninterp spec fn json_parse_error_text(text: Seq<char>) -> Seq<char>;

/// `Value::get(key)`, cloned: the member `key` of an object.
#[verifier::external_body]
pub fn json_member(v: &serde_json::Value, key: &str) -> (r: Option<serde_json::Value>)
    ensures
        r == json_field(*v, key@),
{
    v.get(key).cloned()
}

/// `Value::as_str`, owned.
#[verifier::external_body]
pub fn json_as_str(v: &serde_json::Value) -> (r: Option<String>)
    ensures
        r is Some <==> json_str(*v) is Some,
        r matches Some(s) ==> json_str(*v) == Some(s@),
{
    v.as_str().map(str::to_owned)
}

/// `Value::as_u64`.
#[verifier::external_body]
pub fn json_as_u64(v: &serde_json::Value) -> (r: Option<u64>)
    ensures
        r == json_u64(*v),
{
    v.as_u64()
}

/// `Value::as_array`, cloned.
#[verifier::external_body]
pub fn json_as_array(v: &serde_json::Value) -> (r: Option<Vec<serde_json::Value>>)
    ensures
        r is Some <==> json_array(*v) is Some,
        r matches Some(items) ==> json_array(*v) == Some(items@),
{
    v.as_array().cloned()
}

/// Whether `v` is a JSON number.
pub uninterp spec fn json_number(v: serde_json::Value) -> bool;

/// `Value::is_number`.
#[verifier::external_body]
pub fn json_is_number(v: &serde_json::Value) -> (r: bool)
    ensures
        r == json_number(*v),
{
    v.is_number()
}

/// `Value::as_bool`.
#[verifier::external_body]
pub fn json_as_bool(v: &serde_json::Value) -> (r: Option<bool>)
    ensures
        r == json_bool(*v),
{
    v.as_bool()
}

/// The members of `v`, in the order its map keeps them, when `v` is a JSON
/// object.
pub uninterp spec fn json_members(v: serde_json::Value) -> Option<Seq<(Seq<char>, serde_json::Value)>>;

/// `Value::as_object`, its members cloned in the map's order. A value is an
/// object exactly when it has members to give.
#[verifier::external_body]
pub fn json_object_members(v: &serde_json::Value) -> (r: Option<Vec<(String, serde_json::Value)>>)
    ensures
        r is Some <==> json_object(*v),
        r is Some <==> json_members(*v) is Some,
        r matches Some(items) ==> json_members(*v) == Some(
            items@.map_values(|p: (String, serde_json::Value)| (p.0@, p.1)),
        ),
{
    v.as_object().map(|members| members.clone().into_iter().collect())
}

/// `Value::is_null`.
#[verifier::external_body]
pub fn json_is_null(v: &serde_json::Value) -> (r: bool)
    ensures
        r == json_is_null_value(*v),
{
    v.is_null()
}

/// `Value::is_object`.
#[verifier::external_body]
pub fn json_is_object(v: &serde_json::Value) -> (r: bool)
    ensures
        r == json_object(*v),
{
    v.is_object()
}

/// `Value`'s `Display` (compact JSON text).
#[verifier::external_body]
pub fn json_to_text(v: &serde_json::Value) -> (r: String)
    ensures
        r@ == json_text(*v),
{
    v.to_string()
}

/// `serde_json::from_str::<Value>(text)`, its error as its `Display` text.
#[verifier::external_body]
pub fn json_from_str(text: &str) -> (r: Result<serde_json::Value, String>)
    ensures
        r is Ok <==> json_parsed(text@) is Some,
        r matches Ok(v) ==> json_parsed(text@) == Some(v),
        r matches Err(m) ==> m@ == json_parse_error_text(text@),
{
    serde_json::from_str(text).map_err(|error| error.to_string())
}

/// `serde_json::Value::Null`.
#[verifier::external_body]
pub fn json_null() -> (r: serde_json::Value)
    ensures
        json_is_null_value(r),
{
    serde_json::Value::Null
}

/// The string stored under `key` when `v` is an object whose `key` member is a string.
pub open spec fn json_string_field(v: serde_json::Value, key: Seq<char>) -> Option<Seq<char>> {
    match json_field(v, key) {
        Some(m) => json_str(m),
        None => None,
    }
}

/// `v.get(key).and_then(Value::as_str)`, owned.
pub fn json_get_str(v: &serde_json::Value, key: &str) -> (r: Option<String>)
    ensures
        r is Some <==> json_string_field(*v, key@) is Some,
        r matches Some(s) ==> json_string_field(*v, key@) == Some(s@),
{
    match json_member(v, key) {
        Some(m) => json_as_str(&m),
        None => None,
    }
}

/// `v.get(key).and_then(Value::as_u64)`.
pub open spec fn json_u64_field(v: serde_json::Value, key: Seq<char>) -> Option<u64> {
    match json_field(v, key) {
        Some(m) => json_u64(m),
        None => None,
    }
}

pub fn json_get_u64(v: &serde_json::Value, key: &str) -> (r: Option<u64>)
    ensures
        r == json_u64_field(*v, key@),
{
    match json_member(v, key) {
        Some(m) => json_as_u64(&m),
        None => None,
    }
}

} // verus!
