//! The boundary to the `serde_json` crate: JSON values and the objects they
//! are built from.
//!
//! Nothing in this file is proved. A JSON value of `serde_json` is opaque to
//! proofs; what it holds is given a name, and each function states what the
//! `serde_json` crate is trusted to do in terms of that name.

use vstd::prelude::*;

verus! {

/// A JSON value of the `serde_json` crate.
#[verifier::external_type_specification]
#[verifier::external_body]
pub struct ExValue(serde_json::Value);

/// The map of the `serde_json` crate that a JSON object keeps its members in.
#[verifier::external_type_specification]
#[verifier::external_body]
#[verifier::reject_recursive_types(K)]
#[verifier::reject_recursive_types(V)]
pub struct ExMap<K, V>(serde_json::Map<K, V>);

/// The error of the `serde_json` crate.
#[verifier::external_type_specification]
#[verifier::external_body]
pub struct ExError(serde_json::Error);

/// What a JSON value says.
pub enum JsonView {
    /// `null`.
    Null,
    /// `true` or `false`.
    Bool(bool),
    /// A whole number.
    Number(int),
    /// A string.
    Text(Seq<char>),
    /// An array: its items in order.
    Array(Seq<JsonView>),
    /// An object: its members by key.
    Object(Map<Seq<char>, JsonView>),
}

/// The members of a JSON object, by key.
pub type Members = Map<Seq<char>, JsonView>;

/// The map that a JSON object keeps its members in.
pub type JsonObject = serde_json::Map<String, serde_json::Value>;

/// What a `serde_json::Value` says.
pub uninterp spec fn json_of(value: serde_json::Value) -> JsonView;

/// The members that a `serde_json::Map` holds, by key.
pub uninterp spec fn members_of(object: JsonObject) -> Members;

/// `Map::new`: a map without members.
#[verifier::external_body]
pub(crate) fn empty_object() -> (object: JsonObject)
    ensures
        members_of(object) == Members::empty(),
{
    serde_json::Map::new()
}

/// `Map::insert`: the map then holds the value under the key, in place of what
/// it held there, and its other members as before.
#[verifier::external_body]
pub(crate) fn set_member(object: &mut JsonObject, key: &str, value: serde_json::Value)
    ensures
        members_of(*final(object)) == members_of(*old(object)).insert(key@, json_of(value)),
{
    object.insert(key.to_string(), value);
}

/// `Value::from` on a `u8`: the JSON number of that value.
#[verifier::external_body]
pub(crate) fn number_value(n: u8) -> (value: serde_json::Value)
    ensures
        json_of(value) == JsonView::Number(n as int),
{
    serde_json::Value::from(n)
}

/// `Value::from` on a string slice: the JSON string of that text.
#[verifier::external_body]
pub(crate) fn text_value(text: &str) -> (value: serde_json::Value)
    ensures
        json_of(value) == JsonView::Text(text@),
{
    serde_json::Value::from(text)
}

/// `Value::from` on a map: the JSON object with the members of the map.
#[verifier::external_body]
pub(crate) fn object_value(object: JsonObject) -> (value: serde_json::Value)
    ensures
        json_of(value) == JsonView::Object(members_of(object)),
{
    serde_json::Value::from(object)
}

} // verus!
