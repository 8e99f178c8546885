//! Per-request resolver plumbing: the context a resolution runs under, the
//! resolver bound to one upstream API, and query hygiene — a complexity
//! ceiling and comment stripping — applied before a query is executed.

use vstd::prelude::*;
use vstd::string::StrSliceExecFns;
use std::sync::Arc;
use crate::config::Settings;
use crate::errors::RustQLError;
use crate::strutil::{dec_str, is_space, sanitize_spec, sanitize_text, u64_to_string};

verus! {

/// What one field resolution runs under: the gateway's settings and the
/// request's identifier.
pub struct ResolverContext {
    pub settings: Arc<Settings>,
    pub request_id: String,
}

impl ResolverContext {
    pub fn new(settings: Arc<Settings>, request_id: String) -> (r: ResolverContext)
        ensures
            r.settings == settings,
            r.request_id == request_id,
    {
        ResolverContext { settings, request_id }
    }
}

/// A resolver bound to one upstream API by name.
pub struct DynamicResolver {
    pub api_name: String,
}

impl DynamicResolver {
    pub fn new(api_name: String) -> (r: DynamicResolver)
        ensures
            r.api_name == api_name,
    {
        DynamicResolver { api_name }
    }
}

/// Occurrences of `c` in `s` at or after position `i`.
pub open spec fn count_char_from(s: Seq<char>, c: char, i: int) -> nat
    decreases s.len() - i,
{
    if i < 0 || i >= s.len() {
        0
    } else {
        (if s[i] == c {
            1nat
        } else {
            0nat
        }) + count_char_from(s, c, i + 1)
    }
}

/// Whether a whitespace-separated token begins at position `i`.
pub open spec fn token_starts_at(s: Seq<char>, i: int) -> bool {
    &&& 0 <= i < s.len()
    &&& !is_space(s[i])
    &&& (i == 0 || is_space(s[i - 1]))
}

/// Whitespace-separated tokens of `s` beginning at or after position `i`.
pub open spec fn count_tokens_from(s: Seq<char>, i: int) -> nat
    decreases s.len() - i,
{
    if i < 0 || i >= s.len() {
        0
    } else {
        (if token_starts_at(s, i) {
            1nat
        } else {
            0nat
        }) + count_tokens_from(s, i + 1)
    }
}

/// The complexity charged to a query: twice its opening-brace count plus
/// its whitespace-separated token count.
pub open spec fn query_complexity(s: Seq<char>) -> nat {
    2 * count_char_from(s, '{', 0) + count_tokens_from(s, 0)
}

/// Admits a query iff its complexity is within the ceiling of 100,
/// returning the complexity; a refusal names the computed complexity.
pub fn validate_query_complexity(query: &str) -> (r: Result<u32, RustQLError>)
    requires
        query@.len() <= 0x3fff_ffff_ffff_ffff,
    ensures
        r is Ok <==> query_complexity(query@) <= 100,
        r matches Ok(c) ==> c == query_complexity(query@),
        query_complexity(query@) > 100 ==> (r matches Err(e) && e matches RustQLError::GraphQL(m)
            && m@ == "Query too complex: "@ + dec_str(query_complexity(query@)) + " (max: 100)"@),
{
    let n = query.unicode_len();
    let mut braces: u64 = 0;
    let mut tokens: u64 = 0;
    let mut prev_space = true;
    let mut i: usize = 0;
    while i < n
        invariant
            n == query@.len(),
            n <= 0x3fff_ffff_ffff_ffff,
            i <= n,
            braces <= i,
            tokens <= i,
            braces + count_char_from(query@, '{', i as int) == count_char_from(query@, '{', 0),
            tokens + count_tokens_from(query@, i as int) == count_tokens_from(query@, 0),
            prev_space == (i == 0 || is_space(query@[i as int - 1])),
        decreases n - i,
    {
        let ch = query.get_char(i);
        if ch == '{' {
            braces = braces + 1;
        }
        let sp = ch == ' ' || ch == '\t' || ch == '\n' || ch == '\r';
        if !sp && prev_space {
            tokens = tokens + 1;
        }
        prev_space = sp;
        i = i + 1;
    }
    let complexity: u64 = braces * 2 + tokens;
    if complexity > 100 {
        let mut msg = String::from_str("Query too complex: ");
        msg.append(u64_to_string(complexity).as_str());
        msg.append(" (max: 100)");
        Err(RustQLError::GraphQL(msg))
    } else {
        Ok(complexity as u32)
    }
}

/// Strips an inbound query before execution: each line trimmed, empty
/// lines and `#` comment lines dropped, the rest joined over single blanks.
pub fn sanitize_graphql_query(query: &str) -> (r: String)
    ensures
        r@ == sanitize_spec(query@),
{
    sanitize_text(query)
}

} // verus!
