//! JSON objects through `serde_json`.

use vstd::prelude::*;
use crate::types::opt_view;

verus! {

/// The text `serde_json` writes for the JSON object that `s` parses as, or
/// `None` when `s` is not the text of a JSON object.
pub uninterp spec fn json_object_canonical(s: Seq<char>) -> Option<Seq<char>>;

/// Parses `s` as a JSON object (`serde_json::from_str` into a
/// `serde_json::Map<String, serde_json::Value>`) and writes that object back
/// out (`serde_json::to_string`); `None` when the parse fails.  The contract
/// names the outcome and says nothing more of the JSON grammar or of the
/// text written.
#[verifier::external_body]
pub(crate) fn canonical_json_object(s: &[char]) -> (r: Option<String>)
    ensures
        opt_view(r) == json_object_canonical(s@),
{
    let text: String = s.iter().collect();
    match serde_json::from_str::<serde_json::Map<String, serde_json::Value>>(&text) {
        Ok(m) => Some(serde_json::to_string(&m).unwrap_or_default()),
        Err(_) => None,
    }
}

} // verus!
