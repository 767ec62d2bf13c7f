//! The one JSON question the library asks: the text of a string member of a
//! JSON document.
use vstd::prelude::*;

verus! {

/// Whether `serde_json::from_slice` accepts `doc` as a JSON value.
pub uninterp spec fn is_json(doc: Seq<u8>) -> bool;

/// What `serde_json` reads from the JSON document `doc` for the member `key`
/// with `Value::get` and `Value::as_str`: the member's text when `doc` is an
/// object with a string member `key`, else `None`.
pub uninterp spec fn json_string_member(doc: Seq<u8>, key: Seq<char>) -> Option<Seq<char>>;

/// Parses `doc` with `serde_json::from_slice` into a `serde_json::Value` and
/// reads the member `key` with `Value::get` and `Value::as_str`: `None` when
/// `doc` is not JSON, else the member's text if there is one. The contract
/// names both results and states nothing more: the JSON grammar is
/// `serde_json`'s and is not written out here.
#[verifier::external_body]
pub(crate) fn string_member(doc: &[u8], key: &str) -> (r: Option<Option<String>>)
    ensures
        r is Some <==> is_json(doc@),
        r matches Some(m) ==> match m {
            Some(s) => json_string_member(doc@, key@) == Some(s@),
            None => json_string_member(doc@, key@) is None,
        },
{
    match serde_json::from_slice::<serde_json::Value>(doc) {
        Ok(v) => Some(v.get(key).and_then(serde_json::Value::as_str).map(str::to_owned)),
        Err(_) => None,
    }
}

} // verus!
