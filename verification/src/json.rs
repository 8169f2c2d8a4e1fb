//! Reading single values out of JSON text.

use vstd::prelude::*;
use crate::types::{opt_str, strs};

verus! {

/// A JSON scalar as far as numbers and texts go.
#[derive(Debug, Clone, PartialEq, Eq)]
pub enum Scalar {
    /// A number, as the bit pattern of its floating-point value.
    Number(u64),
    Text(String),
    /// Any other value, and a number without a floating-point value.
    Other,
}

/// `Scalar` over mathematical values.
pub enum ScalarView {
    Number(u64),
    Text(Seq<char>),
    Other,
}

impl View for Scalar {
    type V = ScalarView;

    open spec fn view(&self) -> ScalarView {
        match self {
            Scalar::Number(b) => ScalarView::Number(*b),
            Scalar::Text(s) => ScalarView::Text(s@),
            Scalar::Other => ScalarView::Other,
        }
    }
}

/// Whether JSON text has a value at a pointer.
pub uninterp spec fn json_present(text: Seq<char>, pointer: Seq<char>) -> bool;

/// The string at a pointer into JSON text.
pub uninterp spec fn json_string(text: Seq<char>, pointer: Seq<char>) -> Option<Seq<char>>;

/// The unsigned integer at a pointer into JSON text.
pub uninterp spec fn json_unsigned(text: Seq<char>, pointer: Seq<char>) -> Option<u64>;

/// The keys of the object at a pointer into JSON text.
pub uninterp spec fn json_object_keys(text: Seq<char>, pointer: Seq<char>) -> Option<Seq<Seq<char>>>;

/// The length of the array at a pointer into JSON text.
pub uninterp spec fn json_array_len(text: Seq<char>, pointer: Seq<char>) -> Option<nat>;

/// The scalar at a pointer into JSON text.
pub uninterp spec fn json_scalar(text: Seq<char>, pointer: Seq<char>) -> Option<ScalarView>;

/// The number of keys of the object that JSON bytes hold.
pub uninterp spec fn json_object_len(bytes: Seq<u8>) -> Option<nat>;

/// The message of the error that parsing the text as JSON gives, if it gives one.
pub uninterp spec fn json_error(text: Seq<char>) -> Option<Seq<char>>;

/// `serde_json::from_str` and `Value::pointer`: whether the text is JSON with a value
/// at the pointer.
#[verifier::external_body]
pub(crate) fn present(text: &str, pointer: &str) -> (r: bool)
    ensures
        r == json_present(text@, pointer@),
{
    serde_json::from_str::<serde_json::Value>(text).ok().map_or(false, |v| v.pointer(pointer).is_some())
}

/// `serde_json::from_str`, `Value::pointer` and `Value::as_str`: the string at the
/// pointer, if the text is JSON with a string there.
#[verifier::external_body]
pub(crate) fn string_at(text: &str, pointer: &str) -> (r: Option<String>)
    ensures
        opt_str(r) == json_string(text@, pointer@),
{
    let v = serde_json::from_str::<serde_json::Value>(text).ok()?;
    v.pointer(pointer)?.as_str().map(str::to_owned)
}

/// `serde_json::from_str`, `Value::pointer` and `Value::as_u64`: the number at the
/// pointer, if the text is JSON with an unsigned integer there.
#[verifier::external_body]
pub(crate) fn unsigned_at(text: &str, pointer: &str) -> (r: Option<u64>)
    ensures
        r == json_unsigned(text@, pointer@),
{
    let v = serde_json::from_str::<serde_json::Value>(text).ok()?;
    v.pointer(pointer)?.as_u64()
}

/// `serde_json::from_str`, `Value::pointer` and `Map::keys`: the keys of the object at
/// the pointer, in the order in which the map yields them.
#[verifier::external_body]
pub(crate) fn keys_at(text: &str, pointer: &str) -> (r: Option<Vec<String>>)
    ensures
        r is Some <==> json_object_keys(text@, pointer@) is Some,
        r is Some ==> strs(r->0@) == json_object_keys(text@, pointer@)->0,
{
    let v = serde_json::from_str::<serde_json::Value>(text).ok()?;
    v.pointer(pointer)?.as_object().map(|o| o.keys().cloned().collect())
}

/// `serde_json::from_str`, `Value::pointer` and `Value::as_array`: the length of the
/// array at the pointer.
#[verifier::external_body]
pub(crate) fn array_len_at(text: &str, pointer: &str) -> (r: Option<usize>)
    ensures
        r is Some <==> json_array_len(text@, pointer@) is Some,
        r is Some ==> r->0 == json_array_len(text@, pointer@)->0,
{
    let v = serde_json::from_str::<serde_json::Value>(text).ok()?;
    v.pointer(pointer)?.as_array().map(|a| a.len())
}

/// `serde_json::from_str` and `Value::pointer`, one arm for each kind of value: the
/// scalar at the pointer.
#[verifier::external_body]
pub(crate) fn scalar_at(text: &str, pointer: &str) -> (r: Option<Scalar>)
    ensures
        r is Some <==> json_scalar(text@, pointer@) is Some,
        r is Some ==> r->0@ == json_scalar(text@, pointer@)->0,
{
    let v = serde_json::from_str::<serde_json::Value>(text).ok()?;
    Some(match v.pointer(pointer)? {
        serde_json::Value::Number(n) => n.as_f64().map_or(Scalar::Other, |x| Scalar::Number(x.to_bits())),
        serde_json::Value::String(s) => Scalar::Text(s.clone()),
        _ => Scalar::Other,
    })
}

/// `serde_json::from_slice` and `Map::len`: how many keys the object has that the
/// bytes hold, if they hold one.
#[verifier::external_body]
pub(crate) fn object_len(bytes: &[u8]) -> (r: Option<usize>)
    ensures
        r is Some <==> json_object_len(bytes@) is Some,
        r is Some ==> r->0 == json_object_len(bytes@)->0,
{
    let v = serde_json::from_slice::<serde_json::Value>(bytes).ok()?;
    v.as_object().map(|o| o.len())
}

/// `serde_json::from_str`: the message of its error, if the text is not JSON.
#[verifier::external_body]
pub(crate) fn parse_error(text: &str) -> (r: Option<String>)
    ensures
        opt_str(r) == json_error(text@),
{
    serde_json::from_str::<serde_json::Value>(text).err().map(|e| e.to_string())
}

} // verus!
