//! Serialized configuration, compared as the JSON documents it holds.

use vstd::prelude::*;

verus! {

/// A JSON document, as `serde_json` holds it. Nothing is known of what
/// is in it but what the functions below say.
#[verifier::external_type_specification]
#[verifier::external_body]
pub struct ExJsonValue(serde_json::Value);

/// The JSON document that a text holds, if it holds one: what
/// `serde_json::from_str` reads from it as a `serde_json::Value`.
pub uninterp spec fn json_document(text: Seq<char>) -> Option<serde_json::Value>;

/// `serde_json::from_str`, read as a `serde_json::Value`. The result depends
/// on the text alone; a text that is no JSON document gives `None`.
#[verifier::external_body]
fn parse_json(text: &str) -> (r: Option<serde_json::Value>)
    ensures
        r == json_document(text@),
{
    serde_json::from_str::<serde_json::Value>(text).ok()
}

/// `==` of `serde_json::Value`: whether two values are the same document.
/// The comparison is structural (null, booleans, numbers, strings, arrays
/// element by element, objects by their keys) and an equivalence, since a
/// `Value` holds no number that differs from itself.
#[verifier::external_body]
fn same_json(a: &serde_json::Value, b: &serde_json::Value) -> (r: bool)
    ensures
        r == (*a == *b),
{
    a == b
}

/// Whether two serialized configurations differ: as documents, not as
/// texts. Two texts of which neither is a document do not differ.
pub open spec fn drifted(recovered: Seq<char>, desired: Seq<char>) -> bool {
    json_document(recovered) != json_document(desired)
}

/// Whether `text` holds a JSON document.
pub fn is_json(text: &str) -> (r: bool)
    ensures
        r == json_document(text@) is Some,
{
    parse_json(text).is_some()
}

/// Whether what was read from two texts differs: two documents that are
/// not the same, or a document and a text that holds none.
pub fn documents_differ(
    recovered: &Option<serde_json::Value>,
    desired: &Option<serde_json::Value>,
) -> (r: bool)
    ensures
        r == (*recovered != *desired),
{
    match (recovered, desired) {
        (Some(x), Some(y)) => !same_json(x, y),
        (None, None) => false,
        _ => true,
    }
}

/// Whether the configuration that a process was started with differs from
/// the one that it should have now.
pub fn config_drift(recovered: &str, desired: &str) -> (r: bool)
    ensures
        r == drifted(recovered@, desired@),
{
    let was = parse_json(recovered);
    let is = parse_json(desired);
    documents_differ(&was, &is)
}

/// A configuration never differs from itself: the same text gives no
/// drift, whatever it holds.
pub proof fn law_same_text_no_drift(config: Seq<char>)
    ensures
        !drifted(config, config),
{
}

} // verus!
