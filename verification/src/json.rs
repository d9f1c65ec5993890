//! Reading values out of JSON text by JSON Pointer (RFC 6901), through
//! `serde_json`. Each read parses the text and follows the pointer with
//! `Value::pointer`; what it finds is named by a function of the text and
//! the pointer alone.

use vstd::prelude::*;
use crate::text::{append_chars, chars_of, dec, dec_chars, string_of};

verus! {

/// What a pointer designates in a document.
#[derive(Debug, Clone, Copy, PartialEq, Eq, Structural)]
pub enum JsonKind {
    /// The text is not JSON, or the pointer designates nothing.
    Absent,
    Null,
    Bool,
    Number,
    Str,
    /// An array of that many elements.
    Array(usize),
    Object,
}

/// The kind of what `pointer` designates in the JSON `text`.
pub uninterp spec fn json_kind_at(text: Seq<u8>, pointer: Seq<char>) -> JsonKind;

/// The string `pointer` designates in the JSON `text`; `None` when the text
/// is not JSON or the value there is missing or not a string.
pub uninterp spec fn json_str_at(text: Seq<u8>, pointer: Seq<char>) -> Option<Seq<char>>;

/// The integer `pointer` designates in the JSON `text`, when it fits in an
/// `i64`; `None` when the text is not JSON or the value there is missing or
/// not such an integer.
pub uninterp spec fn json_i64_at(text: Seq<u8>, pointer: Seq<char>) -> Option<i64>;

/// The value `pointer` designates in the JSON `text`, written back as
/// compact JSON text; `None` when the text is not JSON or nothing is there.
pub uninterp spec fn json_text_at(text: Seq<u8>, pointer: Seq<char>) -> Option<Seq<char>>;

/// The elements of the JSON array `text`, each written back as compact JSON
/// text; `None` when the text is not JSON or not an array.
pub uninterp spec fn json_array_items(text: Seq<char>) -> Option<Seq<Seq<char>>>;

/// `serde_json::from_slice` into a `Value`, then `Value::pointer`; the
/// variant found is reported with the length of an array. Named
/// `json_kind_at`.
#[verifier::external_body]
pub(crate) fn kind_at(text: &[u8], pointer: &str) -> (r: JsonKind)
    ensures
        r == json_kind_at(text@, pointer@),
{
    let v: serde_json::Value = match serde_json::from_slice(text) {
        Ok(v) => v,
        Err(_) => return JsonKind::Absent,
    };
    match v.pointer(pointer) {
        None => JsonKind::Absent,
        Some(serde_json::Value::Null) => JsonKind::Null,
        Some(serde_json::Value::Bool(_)) => JsonKind::Bool,
        Some(serde_json::Value::Number(_)) => JsonKind::Number,
        Some(serde_json::Value::String(_)) => JsonKind::Str,
        Some(serde_json::Value::Array(a)) => JsonKind::Array(a.len()),
        Some(serde_json::Value::Object(_)) => JsonKind::Object,
    }
}

/// `serde_json::from_slice`, `Value::pointer`, then `Value::as_str`. Named
/// `json_str_at`.
#[verifier::external_body]
pub(crate) fn str_at(text: &[u8], pointer: &str) -> (r: Option<String>)
    ensures
        opt_text_view(r) == json_str_at(text@, pointer@),
{
    let v: serde_json::Value = serde_json::from_slice(text).ok()?;
    Some(v.pointer(pointer)?.as_str()?.to_string())
}

/// `serde_json::from_slice`, `Value::pointer`, then `Value::as_i64`. Named
/// `json_i64_at`.
#[verifier::external_body]
pub(crate) fn i64_at(text: &[u8], pointer: &str) -> (r: Option<i64>)
    ensures
        r == json_i64_at(text@, pointer@),
{
    let v: serde_json::Value = serde_json::from_slice(text).ok()?;
    v.pointer(pointer)?.as_i64()
}

/// `serde_json::from_slice`, `Value::pointer`, then the value found written
/// back with `Value::to_string`. Named `json_text_at`.
#[verifier::external_body]
pub(crate) fn text_at(text: &[u8], pointer: &str) -> (r: Option<String>)
    ensures
        opt_text_view(r) == json_text_at(text@, pointer@),
{
    let v: serde_json::Value = serde_json::from_slice(text).ok()?;
    Some(v.pointer(pointer)?.to_string())
}

/// `serde_json::from_str` into a `Value`; when it is an array, each element
/// written back with `Value::to_string`. Named `json_array_items`.
#[verifier::external_body]
pub(crate) fn array_items(text: &str) -> (r: Option<Vec<String>>)
    ensures
        opt_texts_view(r) == json_array_items(text@),
{
    match serde_json::from_str::<serde_json::Value>(text).ok()? {
        serde_json::Value::Array(a) => Some(a.iter().map(|x| x.to_string()).collect()),
        _ => None,
    }
}

/// The view of an optional string.
pub open spec fn opt_text_view(o: Option<String>) -> Option<Seq<char>> {
    match o {
        Some(s) => Some(s@),
        None => None,
    }
}

/// The view of optional strings.
pub open spec fn opt_texts_view(o: Option<Vec<String>>) -> Option<Seq<Seq<char>>> {
    match o {
        Some(v) => Some(v@.map_values(|s: String| s@)),
        None => None,
    }
}

/// Nothing, or `null`, is there.
pub open spec fn absent_or_null(k: JsonKind) -> bool {
    k == JsonKind::Absent || k == JsonKind::Null
}

/// The pointer `base`, the decimal index `i`, then `rest`.
pub fn indexed_pointer(base: &str, i: usize, rest: &str) -> (r: String)
    ensures
        r@ == base@ + dec(i as nat) + rest@,
{
    let mut v = chars_of(base);
    let d = dec_chars(i as u64);
    append_chars(&mut v, d.as_slice());
    let t = chars_of(rest);
    append_chars(&mut v, t.as_slice());
    string_of(v.as_slice())
}

/// The pointer `base` followed by `rest`.
pub fn joined_pointer(base: &str, rest: &str) -> (r: String)
    ensures
        r@ == base@ + rest@,
{
    let mut v = chars_of(base);
    let t = chars_of(rest);
    append_chars(&mut v, t.as_slice());
    string_of(v.as_slice())
}

} // verus!
