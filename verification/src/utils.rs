//! Small gateway utilities: request identifiers, duration rendering and
//! query sanitising.

use vstd::prelude::*;
use crate::strutil::{dec_str, sanitize_spec, sanitize_text, u64_to_string};

verus! {

/// Relies on uuid::Uuid::new_v4 and its hyphenated rendering: a fresh
/// random identifier each call; of every outcome only the 36-character
/// hyphenated shape is promised.
#[verifier::external_body]
pub fn generate_request_id() -> (r: String)
    ensures
        r@.len() == 36,
{
    uuid::Uuid::new_v4().to_string()
}

/// How an elapsed duration of `micros` microseconds reads: in whole
/// milliseconds once at least one has passed, else in microseconds.
pub open spec fn spec_format_duration(micros: u64) -> Seq<char> {
    if micros / 1000 > 0 {
        dec_str((micros / 1000) as nat) + "ms"@
    } else {
        dec_str(micros as nat) + "μs"@
    }
}

/// Renders an elapsed duration, given in microseconds.
pub fn format_duration(micros: u64) -> (r: String)
    ensures
        r@ == spec_format_duration(micros),
{
    let millis = micros / 1000;
    if millis > 0 {
        let mut s = u64_to_string(millis);
        s.append("ms");
        s
    } else {
        let mut s = u64_to_string(micros);
        s.append("μs");
        s
    }
}

/// Strips a query for logging and keying: each line trimmed, empty lines
/// and `#` comment lines dropped, the rest joined over single blanks.
pub fn sanitize_query(query: &str) -> (r: String)
    ensures
        r@ == sanitize_spec(query@),
{
    sanitize_text(query)
}

} // verus!
