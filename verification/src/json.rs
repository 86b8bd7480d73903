use vstd::prelude::*;

verus! {

/// `serde_json::Value`, carried through as it is.
#[verifier::external_type_specification]
#[verifier::external_body]
pub struct ExJsonValue(serde_json::Value);

/// The text that serde_json prints for the JSON value parsed from `raw`
/// (for `null` when `raw` is not JSON).
pub uninterp spec fn canonical_json(raw: Seq<char>) -> Seq<char>;

/// The string stored under `key` in the JSON object that `text` parses to,
/// if `text` is JSON, is an object, has `key`, and the value there is a string.
pub uninterp spec fn json_string_field(text: Seq<char>, key: Seq<char>) -> Option<Seq<char>>;

/// The view of an optional string.
pub open spec fn opt_view(o: Option<String>) -> Option<Seq<char>> {
    match o {
        Some(s) => Some(s@),
        None => None,
    }
}

/// Calls `serde_json::from_str::<serde_json::Value>` on `raw`, takes
/// `Value::Null` when that fails, and prints the value with the `Display`
/// impl of `serde_json::Value`. Claimed: the result depends on `raw` alone
/// (it is named `canonical_json`); nothing is said of its shape.
#[verifier::external_body]
pub(crate) fn canonicalize_json(raw: &str) -> (r: String)
    ensures
        r@ == canonical_json(raw@),
{
    serde_json::from_str::<serde_json::Value>(raw).unwrap_or(serde_json::Value::Null).to_string()
}

/// Parses `text` with `serde_json::from_str::<serde_json::Value>` and reads
/// `Value::get(key)` followed by `Value::as_str`. Claimed: the result depends
/// on `text` and `key` alone (it is named `json_string_field`).
#[verifier::external_body]
pub(crate) fn string_field(text: &str, key: &str) -> (r: Option<String>)
    ensures
        opt_view(r) == json_string_field(text@, key@),
{
    match serde_json::from_str::<serde_json::Value>(text) {
        Ok(v) => match v.get(key) {
            Some(f) => f.as_str().map(str::to_owned),
            None => None,
        },
        Err(_) => None,
    }
}

} // verus!
