//! The one place the library consults a JSON parser: deciding whether a body
//! is a well-formed document. The document itself stays opaque text.

use vstd::prelude::*;

verus! {

/// Whether a text parses as a JSON document; a function of the text alone.
pub uninterp spec fn json_accepted(s: Seq<char>) -> bool;

/// Relies on serde_json::from_str::<serde_json::Value>: it accepts a text
/// iff the text is a well-formed JSON document, deciding by the text alone.
#[verifier::external_body]
pub(crate) fn is_valid_document(s: &str) -> (r: bool)
    ensures
        r == json_accepted(s@),
{
    serde_json::from_str::<serde_json::Value>(s).is_ok()
}

} // verus!
