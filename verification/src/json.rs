//! The trusted boundary around the JSON decoder, and the mathematical model
//! of a JSON document that its contracts speak of.  Every provider receives
//! its response as text and reads it through `serde_json`; the declarations
//! and wrappers here are the only places where that crate is relied on
//! without proof.  Each contract ties what a call returns to the document's
//! [`JsonTree`] image, so the providers' readers are verified against the
//! document they were handed, not trusted.

use vstd::prelude::*;

verus! {

/// The mathematical image of a JSON value, over plain values only.  Numbers
/// carry their value when they are unsigned 64-bit integers — the only
/// numbers the providers read — and are only marked otherwise; booleans
/// occur in no provider's response shape, so nothing more is assumed of
/// them than their kind.
#[verifier::ext_equal]
pub enum JsonTree {
    /// JSON null.
    Null,
    /// A JSON boolean.
    Bool(bool),
    /// A JSON number that is an unsigned 64-bit integer.
    UInt(u64),
    /// Any other JSON number: negative, or not an integer.
    OtherNumber,
    /// A JSON string.
    Text(Seq<char>),
    /// A JSON array.
    Arr(Seq<JsonTree>),
    /// A JSON object, keyed by its member names.
    Obj(Map<Seq<char>, JsonTree>),
}

/// The member of a JSON object under the given name: nothing when the value
/// is not an object or has no such member.
pub open spec fn tree_member(t: JsonTree, key: Seq<char>) -> Option<JsonTree> {
    match t {
        JsonTree::Obj(m) => if m.dom().contains(key) {
            Some(m[key])
        } else {
            None
        },
        _ => None,
    }
}

/// The text of a member that is a JSON string, if any.
pub open spec fn tree_text_member(t: JsonTree, key: Seq<char>) -> Option<Seq<char>> {
    match tree_member(t, key) {
        Some(JsonTree::Text(s)) => Some(s),
        _ => None,
    }
}

/// The value of a member that is an unsigned 64-bit number, if any.
pub open spec fn tree_uint_member(t: JsonTree, key: Seq<char>) -> Option<u64> {
    match tree_member(t, key) {
        Some(JsonTree::UInt(n)) => Some(n),
        _ => None,
    }
}

/// The value of a member that is an unsigned 32-bit number, if any.
pub open spec fn tree_u32_member(t: JsonTree, key: Seq<char>) -> Option<u32> {
    match tree_uint_member(t, key) {
        Some(n) => if n <= u32::MAX as u64 {
            Some(n as u32)
        } else {
            None
        },
        None => None,
    }
}

#[verifier::external_type_specification]
#[verifier::external_body]
pub struct ExJsonValue(serde_json::Value);

#[verifier::external_type_specification]
#[verifier::external_body]
pub struct ExJsonError(serde_json::Error);

/// The [`JsonTree`] a `serde_json::Value` holds.  The accessor contracts
/// below define it piecewise: each kind of value answers its own accessor
/// and no other, as `serde_json`'s source shows.
pub uninterp spec fn value_view(v: serde_json::Value) -> JsonTree;

/// The document a body text decodes to, or nothing when it is not valid
/// JSON.  `serde_json::from_str` reads the text alone, so its result is a
/// function of it; this names that function.
pub uninterp spec fn doc_of(body: Seq<char>) -> Option<JsonTree>;

/// Relies on `serde_json::from_str`: decodes JSON text into a document
/// tree, or reports a syntax error.  The same text always decodes the same
/// way, so the result is exactly what [`doc_of`] names.
#[verifier::external_body]
pub(crate) fn json_from_str(s: &str) -> (r: Result<serde_json::Value, serde_json::Error>)
    ensures
        r matches Ok(v) ==> doc_of(s@) == Some(value_view(v)),
        r matches Err(e) ==> doc_of(s@) is None,
{
    serde_json::from_str(s)
}

/// Relies on `serde_json`'s `Display` impl for `Error`: renders the
/// decoder's error message.
#[verifier::external_body]
pub(crate) fn json_error_message(e: &serde_json::Error) -> String {
    e.to_string()
}

/// Relies on `serde_json::Value::get`: looks up a member of a JSON object,
/// yielding nothing when the value is not an object or lacks the member —
/// exactly [`tree_member`] on the value's image.
#[verifier::external_body]
pub(crate) fn json_get<'a>(v: &'a serde_json::Value, key: &str) -> (r: Option<
    &'a serde_json::Value,
>)
    ensures
        r matches Some(f) ==> tree_member(value_view(*v), key@) == Some(value_view(*f)),
        r is None ==> tree_member(value_view(*v), key@) is None,
{
    v.get(key)
}

/// Relies on `serde_json::Value::as_array`: the element vector of a JSON
/// array — elementwise the image's elements — and nothing for any other
/// kind of value.
pub assume_specification [ serde_json::Value::as_array ](v: &serde_json::Value) -> (r: Option<
    &Vec<serde_json::Value>,
>)
    ensures
        r matches Some(a) ==> (value_view(*v) matches JsonTree::Arr(elems) && elems.len()
            == a@.len() && forall|i: int|
            0 <= i < a@.len() ==> value_view(#[trigger] a@[i]) == elems[i]),
        r is None ==> !(value_view(*v) is Arr),
;

/// Relies on `serde_json::Value::as_str`: the text of a JSON string, and
/// nothing for any other kind of value.
pub assume_specification [ serde_json::Value::as_str ](v: &serde_json::Value) -> (r: Option<&str>)
    ensures
        r matches Some(s) ==> value_view(*v) == JsonTree::Text(s@),
        r is None ==> !(value_view(*v) is Text),
;

/// Relies on `serde_json::Value::as_u64`: the value of a JSON number that
/// is an unsigned 64-bit integer, and nothing otherwise.
pub assume_specification [ serde_json::Value::as_u64 ](v: &serde_json::Value) -> (r: Option<u64>)
    ensures
        r matches Some(n) ==> value_view(*v) == JsonTree::UInt(n),
        r is None ==> !(value_view(*v) is UInt),
;

/// Relies on `serde_json::Value::is_null`: whether the value is JSON null.
pub assume_specification [ serde_json::Value::is_null ](v: &serde_json::Value) -> (r: bool)
    ensures
        r == (value_view(*v) is Null),
;

/// Reads a member of a JSON object as owned text; nothing when the member
/// is absent or not a string.
pub(crate) fn json_str_field(v: &serde_json::Value, key: &str) -> (r: Option<String>)
    ensures
        r matches Some(s) ==> tree_text_member(value_view(*v), key@) == Some(s@),
        r is None ==> tree_text_member(value_view(*v), key@) is None,
{
    match json_get(v, key) {
        Some(f) => match f.as_str() {
            Some(s) => Some(s.to_owned()),
            None => None,
        },
        None => None,
    }
}

/// Reads a member of a JSON object as an unsigned 64-bit number; nothing
/// when the member is absent or not such a number.
pub(crate) fn json_u64_field(v: &serde_json::Value, key: &str) -> (r: Option<u64>)
    ensures
        r == tree_uint_member(value_view(*v), key@),
{
    match json_get(v, key) {
        Some(f) => f.as_u64(),
        None => None,
    }
}

/// Reads a member of a JSON object as an unsigned 32-bit number; nothing
/// when the member is absent, not a number, or out of range.
pub(crate) fn json_u32_field(v: &serde_json::Value, key: &str) -> (r: Option<u32>)
    ensures
        r == tree_u32_member(value_view(*v), key@),
{
    match json_u64_field(v, key) {
        Some(n) => {
            if n <= u32::MAX as u64 {
                Some(n as u32)
            } else {
                None
            }
        },
        None => None,
    }
}

} // verus!
