//! Calls into the JSON library and into the case tables of the standard library.

use vstd::prelude::*;

verus! {

/// A value of the JSON library.
#[verifier::external_type_specification]
#[verifier::external_body]
pub struct ExJsonValue(serde_json::Value);

/// The value that a JSON text holds; nothing where the text is not JSON.
pub uninterp spec fn json_value(json: Seq<char>) -> Option<serde_json::Value>;

/// Calls `serde_json::from_str`. The contract claims that the result depends on the text alone;
/// which texts are JSON, and what they hold, is left unsaid.
#[verifier::external_body]
fn read_json(json: &str) -> (value: Option<serde_json::Value>)
    ensures
        value == json_value(json@),
{
    serde_json::from_str(json).ok()
}

/// The keys of a JSON object; nothing where a value is no object.
pub uninterp spec fn json_keys(value: serde_json::Value) -> Option<Set<Seq<char>>>;

/// Calls `serde_json::Value::is_object`. The contract claims that it tells whether a value has
/// keys.
#[verifier::external_body]
fn is_json_object(value: &serde_json::Value) -> (yes: bool)
    ensures
        yes == (json_keys(*value) is Some),
{
    value.is_object()
}

/// A JSON object without the member of a key.
pub uninterp spec fn json_without(value: serde_json::Value, key: Seq<char>) -> serde_json::Value;

/// Calls `serde_json::Map::remove` on the members of an object. The contract claims that what the
/// object becomes depends on the object and the key alone, and that its keys are the earlier ones
/// but for that key. That the other members keep their values is left to the name.
#[verifier::external_body]
fn remove_member(value: &mut serde_json::Value, key: &str)
    requires
        json_keys(*old(value)) is Some,
    ensures
        *final(value) == json_without(*old(value), key@),
        json_keys(*final(value)) == Some(json_keys(*old(value))->0.remove(key@)),
{
    if let Some(object) = value.as_object_mut() {
        object.remove(key);
    }
}

/// A JSON value written compactly.
pub uninterp spec fn json_text(value: serde_json::Value) -> Seq<char>;

/// Calls `to_string` of `serde_json::Value`. The contract claims that the result depends on the
/// value alone; how it is written is left unsaid.
#[verifier::external_body]
fn write_json(value: &serde_json::Value) -> (text: String)
    ensures
        text@ == json_text(*value),
{
    value.to_string()
}

/// What remains of a JSON text when a key is taken out of its outermost object, written
/// compactly; nothing where the text is not JSON.
pub open spec fn json_without_key(json: Seq<char>, key: Seq<char>) -> Option<Seq<char>> {
    match json_value(json) {
        None => None,
        Some(value) => Some(
            json_text(
                if json_keys(value) is Some {
                    json_without(value, key)
                } else {
                    value
                },
            ),
        ),
    }
}

/// Takes a key out of the object that a JSON text holds. A text that holds no object is written
/// as it is, and one that is not JSON gives nothing.
pub fn remove_json_key(json: &str, key: &str) -> (result: Option<String>)
    ensures
        crate::text::optional_text(result) == json_without_key(json@, key@),
{
    match read_json(json) {
        None => None,
        Some(value) => {
            let mut value = value;
            if is_json_object(&value) {
                remove_member(&mut value, key);
            }
            Some(write_json(&value))
        },
    }
}

/// A text in lower case, by the Unicode tables of the standard library.
pub uninterp spec fn lowercase(text: Seq<char>) -> Seq<char>;

/// Calls `str::to_lowercase`. The contract claims that the result depends on the text alone.
#[verifier::external_body]
pub(crate) fn lowercase_text(text: &str) -> (lower: String)
    ensures
        lower@ == lowercase(text@),
{
    text.to_lowercase()
}

} // verus!
