//! Lists of texts as JSON.
use vstd::prelude::*;

use crate::text;

verus! {

/// A list of texts as `serde_json` writes it.
pub uninterp spec fn json_of(v: Seq<Seq<char>>) -> Seq<char>;

/// The list of texts that `serde_json` reads out of a text, if it is one.
pub uninterp spec fn list_of(s: Seq<char>) -> Option<Seq<Seq<char>>>;

/// Calls `serde_json::to_string` on a list of strings, which it can always
/// write. The result is named, and `serde_json::from_str` reads the list back
/// from it.
#[verifier::external_body]
pub(crate) fn to_json(v: &Vec<String>) -> (r: Result<String, String>)
    ensures
        match r {
            Ok(s) => s@ == json_of(text::texts(v@)) && list_of(s@) == Some(text::texts(v@)),
            Err(_) => false,
        },
{
    serde_json::to_string(v).map_err(|e| e.to_string())
}

/// Calls `serde_json::from_str` for a list of strings. The result is named.
#[verifier::external_body]
pub(crate) fn from_json(s: &str) -> (r: Option<Vec<String>>)
    ensures
        match r {
            Some(v) => list_of(s@) == Some(text::texts(v@)),
            None => list_of(s@) is None,
        },
{
    serde_json::from_str(s).ok()
}

} // verus!
