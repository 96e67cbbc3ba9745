//! JSON text, through the `serde_json` crate.
use vstd::prelude::*;

verus! {

/// Declares `serde_json::Value`, so that a parsed JSON value can be handed
/// on; Verus sees nothing inside it.
#[verifier::external_type_specification]
#[verifier::external_body]
pub struct ExJsonValue(serde_json::Value);

/// What `serde_json::from_slice` into a `serde_json::Value` reports for a
/// byte string: `None` when the bytes are one JSON value, otherwise the
/// text of the error it returns.
pub uninterp spec fn json_bytes_error(bytes: Seq<u8>) -> Option<Seq<char>>;

/// The value `serde_json::from_slice` reads from a byte string that is one
/// JSON value.
pub uninterp spec fn json_bytes_value(bytes: Seq<u8>) -> serde_json::Value;

/// Parses bytes as one JSON value with `serde_json::from_slice`.
///
/// Trusted: the outcome (the value read, or the error's message) is a
/// function of the bytes alone, named `json_bytes_value` and
/// `json_bytes_error`; which byte strings are JSON, and what value they
/// hold, is not stated.
#[verifier::external_body]
pub(crate) fn json_from_bytes(bytes: &[u8]) -> (r: Result<serde_json::Value, String>)
    ensures
        match r {
            Ok(v) => json_bytes_error(bytes@) is None && v == json_bytes_value(bytes@),
            Err(m) => json_bytes_error(bytes@) == Some(m@),
        },
{
    match serde_json::from_slice::<serde_json::Value>(bytes) {
        Ok(v) => Ok(v),
        Err(e) => Err(format!("{e}")),
    }
}

/// Whether `serde_json` reads `text` as a JSON value.
pub uninterp spec fn json_text_parses(text: Seq<char>) -> bool;

/// Checks whether a text is JSON, with `serde_json::from_str` into a
/// `serde_json::Value`.
///
/// Trusted: the answer is a function of the text alone, named
/// `json_text_parses`; which texts are JSON is not stated.
#[verifier::external_body]
pub(crate) fn is_json_text(text: &str) -> (b: bool)
    ensures
        b == json_text_parses(text@),
{
    serde_json::from_str::<serde_json::Value>(text).is_ok()
}

} // verus!
