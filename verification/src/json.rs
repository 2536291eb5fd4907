//! The part of `serde_json` that the library relies on.
//!
//! A parsed document is an opaque value to the verifier. The items below say
//! how the library reads one: by parsing bytes, and by looking at the top
//! level of a value. Their contracts are believed, not proved.

use serde_json::Value;
use vstd::prelude::*;

verus! {

/// `serde_json::Value`: a parsed JSON document.
#[verifier::external_type_specification]
#[verifier::external_body]
pub struct ExValue(serde_json::Value);

/// `serde_json::Error`: why a text is no JSON document.
#[verifier::external_type_specification]
#[verifier::external_body]
pub struct ExJsonError(serde_json::Error);

/// The document that `serde_json::from_slice` reads from `text`, if it reads
/// one.
pub uninterp spec fn json_parsed(text: Seq<u8>) -> Option<Value>;

/// What `value` is at its top level: `Text` with the string of a
/// `Value::String`, `Object` with the members of a `Value::Object` in the
/// order in which the map yields them, `Other` for every other variant.
pub uninterp spec fn json_shape(value: Value) -> ShapeModel;

/// How deeply `value` is nested: a member of an object lies less deep than
/// the object.
pub uninterp spec fn json_depth(value: Value) -> nat;

/// The top level of a document, as a mathematical value.
pub enum ShapeModel {
    Text(Seq<char>),
    Object(Seq<(Seq<char>, Value)>),
    Other,
}

/// The top level of a document, borrowed from it.
pub enum JsonShape<'a> {
    /// A JSON string.
    Text(&'a str),
    /// A JSON object: its keys and values, in the order of the map.
    Object(Vec<(&'a str, &'a Value)>),
    /// Null, a boolean, a number or an array.
    Other,
}

impl<'a> View for JsonShape<'a> {
    type V = ShapeModel;

    open spec fn view(&self) -> ShapeModel {
        match self {
            JsonShape::Text(text) => ShapeModel::Text(text@),
            JsonShape::Object(members) => ShapeModel::Object(
                members@.map_values(|member: (&str, &Value)| (member.0@, *member.1)),
            ),
            JsonShape::Other => ShapeModel::Other,
        }
    }
}

/// Calls `serde_json::from_slice` for a `Value`. The contract gives the
/// outcome a name: `Ok` with the document `json_parsed(text@)`, or an error
/// where there is none.
#[verifier::external_body]
pub(crate) fn parse_json(text: &[u8]) -> (outcome: Result<Value, serde_json::Error>)
    ensures
        match outcome {
            Ok(value) => json_parsed(text@) == Some(value),
            Err(_) => json_parsed(text@).is_none(),
        },
{
    serde_json::from_slice::<Value>(text)
}

/// Tells the variants of a `serde_json::Value` apart and hands out what a
/// string or an object holds (`Map::iter`). The contract names the result
/// `json_shape(*value)` and adds two facts about a map of `serde_json`: its
/// keys are pairwise distinct, and its values are nested less deeply than the
/// object that holds them.
#[verifier::external_body]
pub(crate) fn shape_of<'a>(value: &'a Value) -> (shape: JsonShape<'a>)
    ensures
        shape@ == json_shape(*value),
        match shape {
            JsonShape::Object(members) => {
                &&& forall|i: int, j: int|
                    0 <= i < j < members@.len() ==> members@[i].0@ != members@[j].0@
                &&& forall|i: int|
                    0 <= i < members@.len() ==> json_depth(*#[trigger] members@[i].1) < json_depth(
                        *value,
                    )
            },
            _ => true,
        },
{
    match value {
        Value::String(text) => JsonShape::Text(text.as_str()),
        Value::Object(map) => JsonShape::Object(
            map.iter().map(|(key, member)| (key.as_str(), member)).collect(),
        ),
        _ => JsonShape::Other,
    }
}

} // verus!
