//! The module manifest: a JSON array of module file paths.
use vstd::prelude::*;

verus! {

/// The strings of `text` when it is a JSON array of strings, as serde_json
/// reads it; `None` otherwise.
pub uninterp spec fn json_string_list(text: Seq<char>) -> Option<Seq<Seq<char>>>;

/// Relies on `serde_json::from_str::<Vec<String>>`: the array's strings, in
/// order, or an error for text that is not a JSON array of strings.
#[verifier::external_body]
fn parse_json_strings(text: &str) -> (r: Option<Vec<String>>)
    ensures
        r is Some <==> json_string_list(text@) is Some,
        r matches Some(v) ==> v@.map_values(|s: String| s@) == json_string_list(text@)->0,
{
    serde_json::from_str::<Vec<String>>(text).ok()
}

#[derive(Clone, Copy, Debug, PartialEq, Eq, Structural)]
pub enum ManifestError {
    /// The manifest is not a JSON array of strings.
    NotAStringArray,
}

/// The module paths listed by a manifest, in order.
pub fn parse_module_manifest(text: &str) -> (r: Result<Vec<String>, ManifestError>)
    ensures
        r is Ok <==> json_string_list(text@) is Some,
        r matches Ok(v) ==> v@.map_values(|s: String| s@) == json_string_list(text@)->0,
{
    match parse_json_strings(text) {
        Some(v) => Ok(v),
        None => Err(ManifestError::NotAStringArray),
    }
}

} // verus!
