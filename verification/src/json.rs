//! Values in JSON text.

use vstd::prelude::*;

use crate::text::opt_text;

verus! {

/// The text that stands under a key of a JSON object. None where the text is no
/// JSON, holds no object, lacks the key, or has something else there.
pub uninterp spec fn json_text(json: Seq<char>, key: Seq<char>) -> Option<Seq<char>>;

/// `serde_json::from_str` into `serde_json::Value`, indexed by the key, and
/// `Value::as_str`: what is found depends on the two texts alone. How JSON is
/// read is left to the name.
#[verifier::external_body]
pub(crate) fn text_of_key(json: &str, key: &str) -> (r: Option<String>)
    ensures
        opt_text(r) == json_text(json@, key@),
{
    match serde_json::from_str::<serde_json::Value>(json) {
        Ok(value) => match value[key].as_str() {
            Some(s) => Some(s.to_string()),
            None => None,
        },
        Err(_) => None,
    }
}

/// The whole number from 0 up that stands under a key of a JSON object.
pub uninterp spec fn json_number(json: Seq<char>, key: Seq<char>) -> Option<u64>;

/// `serde_json::from_str` into `serde_json::Value`, indexed by the key, and
/// `Value::as_u64`: what is found depends on the two texts alone. How JSON is
/// read is left to the name.
#[verifier::external_body]
pub(crate) fn number_of_key(json: &str, key: &str) -> (r: Option<u64>)
    ensures
        r == json_number(json@, key@),
{
    match serde_json::from_str::<serde_json::Value>(json) {
        Ok(value) => value[key].as_u64(),
        Err(_) => None,
    }
}

/// The whole number that stands under a key of a JSON object.
pub uninterp spec fn json_int(json: Seq<char>, key: Seq<char>) -> Option<i64>;

/// `serde_json::from_str` into `serde_json::Value`, indexed by the key, and
/// `Value::as_i64`: what is found depends on the two texts alone. How JSON is
/// read is left to the name.
#[verifier::external_body]
pub(crate) fn int_of_key(json: &str, key: &str) -> (r: Option<i64>)
    ensures
        r == json_int(json@, key@),
{
    match serde_json::from_str::<serde_json::Value>(json) {
        Ok(value) => value[key].as_i64(),
        Err(_) => None,
    }
}

} // verus!
