//! Access to JSON documents through `serde_json`.
//!
//! Each query here parses a document and extracts one member in a single
//! step, so its result is a function of the document and the path alone;
//! that function is given a name, and every contract downstream speaks of
//! the names.  Nothing is assumed about what a document holds beyond what
//! one named query returns.

use vstd::prelude::*;

verus! {

/// The text of the string member under `key` of the JSON object in
/// `doc`; `None` where the document, the member or its type is wrong.
pub uninterp spec fn json_str_field(doc: Seq<u8>, key: Seq<char>) -> Option<Seq<char>>;

/// Relies on `serde_json::from_slice`, `Value::get` and `Value::as_str`:
/// reads one string member of a JSON object.
#[verifier::external_body]
pub fn json_str_field_of(doc: &[u8], key: &str) -> (r: Option<String>)
    ensures
        match r {
            Some(s) => json_str_field(doc@, key@) == Some(s@),
            None => json_str_field(doc@, key@) is None,
        },
{
    let v: serde_json::Value = serde_json::from_slice(doc).ok()?;
    let s = v.get(key)?.as_str()?;
    Some(s.to_owned())
}

/// The value of the integer member under `key` of the JSON object in
/// `doc`.
pub uninterp spec fn json_i64_field(doc: Seq<u8>, key: Seq<char>) -> Option<i64>;

/// Relies on `serde_json::from_slice`, `Value::get` and `Value::as_i64`:
/// reads one integer member of a JSON object.
#[verifier::external_body]
pub fn json_i64_field_of(doc: &[u8], key: &str) -> (r: Option<i64>)
    ensures
        r == json_i64_field(doc@, key@),
{
    let v: serde_json::Value = serde_json::from_slice(doc).ok()?;
    v.get(key)?.as_i64()
}

/// The text of the string member under `obj.key` of the JSON object in
/// `doc`.
pub uninterp spec fn json_obj_str_field(doc: Seq<u8>, obj: Seq<char>, key: Seq<char>) -> Option<
    Seq<char>,
>;

/// Relies on `serde_json::from_slice`, `Value::get` and `Value::as_str`:
/// reads one string member of a nested JSON object.
#[verifier::external_body]
pub fn json_obj_str_field_of(doc: &[u8], obj: &str, key: &str) -> (r: Option<String>)
    ensures
        match r {
            Some(s) => json_obj_str_field(doc@, obj@, key@) == Some(s@),
            None => json_obj_str_field(doc@, obj@, key@) is None,
        },
{
    let v: serde_json::Value = serde_json::from_slice(doc).ok()?;
    let s = v.get(obj)?.get(key)?.as_str()?;
    Some(s.to_owned())
}

/// The value of the unsigned integer member under `obj.key` of the JSON
/// object in `doc`.
pub uninterp spec fn json_obj_u64_field(doc: Seq<u8>, obj: Seq<char>, key: Seq<char>) -> Option<
    u64,
>;

/// Relies on `serde_json::from_slice`, `Value::get` and `Value::as_u64`:
/// reads one unsigned integer member of a nested JSON object.
#[verifier::external_body]
pub fn json_obj_u64_field_of(doc: &[u8], obj: &str, key: &str) -> (r: Option<u64>)
    ensures
        r == json_obj_u64_field(doc@, obj@, key@),
{
    let v: serde_json::Value = serde_json::from_slice(doc).ok()?;
    v.get(obj)?.get(key)?.as_u64()
}

/// The length of the JSON array in the text `doc`.
pub uninterp spec fn json_arr_len(doc: Seq<char>) -> Option<u64>;

/// Relies on `serde_json::from_str` and `Value::as_array`: the length of
/// a JSON array held in a string.  The length is a vector length, so it
/// fits `usize`.
#[verifier::external_body]
pub fn json_arr_len_of(doc: &str) -> (r: Option<u64>)
    ensures
        r == json_arr_len(doc@),
        r matches Some(n) ==> n <= usize::MAX,
{
    let v: serde_json::Value = serde_json::from_str(doc).ok()?;
    Some(v.as_array()?.len() as u64)
}

/// The text of the string member under `key` of the array element at
/// `index` of the JSON array in the text `doc`.
pub uninterp spec fn json_entry_str_field(doc: Seq<char>, index: u64, key: Seq<char>) -> Option<
    Seq<char>,
>;

/// Relies on `serde_json::from_str`, `Value::get` and `Value::as_str`:
/// reads one string member of one element of a JSON array held in a
/// string.
#[verifier::external_body]
pub fn json_entry_str_field_of(doc: &str, index: usize, key: &str) -> (r: Option<String>)
    ensures
        match r {
            Some(s) => json_entry_str_field(doc@, index as u64, key@) == Some(s@),
            None => json_entry_str_field(doc@, index as u64, key@) is None,
        },
{
    let v: serde_json::Value = serde_json::from_str(doc).ok()?;
    let s = v.get(index)?.get(key)?.as_str()?;
    Some(s.to_owned())
}

} // verus!
