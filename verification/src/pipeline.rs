//! The per-request decision sequence: rate limiter, then cache, then
//! dispatcher. Denied calls never reach the cache or the network; cache hits
//! never reach the network; only successful read responses are written back;
//! mutations never touch the cache in either direction. The network itself
//! stays outside the library: `pre_dispatch` says whether and what to
//! dispatch, `post_dispatch` records the outcome, and
//! `resolve_with_transcript` runs the whole sequence against a recorded
//! transport.

use vstd::prelude::*;
use crate::cache::MemoryCache;
use crate::rate_limit::RateLimiter;
use crate::rest::{
    method_of, prepare_failed, prepared_ok, DispatchRequest, DispatchResult, DispatchStatus,
    HttpMethod, PreparedCall, RestClient,
};
use crate::retry::{run_attempts, replay, AttemptOutcome};

verus! {

/// Whether a request uses the read verb; only such requests may be served
/// from or written to the cache.
pub open spec fn read_request(req: DispatchRequest) -> bool {
    method_of(req.method@) == Some(HttpMethod::Get)
}

/// The cache key of a request: its upstream name, verb, endpoint and body,
/// joined over a separator. Deterministic in the request alone, so
/// identical requests share an entry.
pub open spec fn cache_key_model(req: DispatchRequest) -> Seq<char> {
    let api = match req.target_api_name {
        Some(n) => n@,
        None => Seq::<char>::empty(),
    };
    let body = match req.body {
        Some(b) => b@,
        None => Seq::<char>::empty(),
    };
    api + "\n"@ + req.method@ + "\n"@ + req.endpoint_path@ + "\n"@ + body
}

/// Computes the deterministic cache key of a request.
pub fn compute_cache_key(req: &DispatchRequest) -> (r: String)
    ensures
        r@ == cache_key_model(*req),
{
    let mut k = String::new();
    match &req.target_api_name {
        Some(n) => k.append(n.as_str()),
        None => (),
    }
    k.append("\n");
    k.append(req.method.as_str());
    k.append("\n");
    k.append(req.endpoint_path.as_str());
    k.append("\n");
    match &req.body {
        Some(b) => k.append(b.as_str()),
        None => (),
    }
    proof {
        assert(k@ =~= cache_key_model(*req));
    }
    k
}

/// What `pre_dispatch` decides for one request.
pub enum PipelineStep {
    /// The request goes no further; the result is final.
    Refused { result: DispatchResult },
    /// A still-valid cached document answers the request; nothing is
    /// dispatched.
    CacheHit { result: DispatchResult },
    /// The prepared call is to be dispatched; `cache_key` carries the key
    /// under which a successful read response is to be recorded, and is
    /// absent exactly for mutations.
    Dispatch { call: PreparedCall, cache_key: Option<String> },
}

/// The gateway pipeline: the rate limiter, the response cache and the
/// upstream registry, composed per request.
pub struct GatewayPipeline {
    pub limiter: RateLimiter,
    pub cache: MemoryCache,
    pub client: RestClient,
}

impl GatewayPipeline {
    /// Every component is well-shaped.
    pub open spec fn wf(self) -> bool {
        &&& self.limiter.wf()
        &&& self.cache.wf()
        &&& self.client.wf()
    }

    /// A fresh pipeline: the given admission ceiling and window, the given
    /// default cache lifetime, no tracked keys, no cached entries, no
    /// registered upstreams.
    pub fn new(ceiling: usize, window_ms: u64, default_ttl_ms: u64) -> (r: GatewayPipeline)
        ensures
            r.wf(),
            r.limiter.ceiling() == ceiling as nat,
            r.limiter.window() == window_ms,
            forall|k: Seq<char>| !r.limiter.has_key(k),
            forall|k: Seq<char>| r.limiter.stamps_of(k) == Seq::<u64>::empty(),
            r.cache.spec_default_ttl() == default_ttl_ms,
            forall|k: Seq<char>| r.cache.entry_of(k) is None,
            r.client.targets() == Seq::<crate::rest::UpstreamTarget>::empty(),
    {
        GatewayPipeline {
            limiter: RateLimiter::new(ceiling, window_ms),
            cache: MemoryCache::new(default_ttl_ms),
            client: RestClient::new(),
        }
    }

    /// Runs the front of the pipeline for one request: consumes one
    /// admission for `client_key`, and on admission either answers from the
    /// cache (reads only), refuses an invalid request, or hands back the
    /// prepared call. A denied call is refused at once and reaches neither
    /// the cache nor the network; the cache is only read, never written.
    pub fn pre_dispatch(&mut self, req: &DispatchRequest, client_key: &str, now: u64) -> (r:
        PipelineStep)
        requires
            old(self).wf(),
            req.wf(),
        ensures
            final(self).wf(),
            final(self).cache == old(self).cache,
            final(self).client == old(self).client,
            RateLimiter::stepped(old(self).limiter, final(self).limiter, client_key@, now),
            match r {
                PipelineStep::Refused { result } => {
                    &&& !old(self).limiter.admits(client_key@, now) ==> result.model() == (
                        DispatchStatus::RateLimited,
                        Option::<Seq<char>>::None,
                        Some("Rate limit exceeded"@),
                        Option::<u16>::None,
                    )
                    &&& old(self).limiter.admits(client_key@, now) ==> prepare_failed(
                        old(self).client,
                        *req,
                        result,
                    ) && !(read_request(*req) && old(self).cache.valid_at(
                        cache_key_model(*req),
                        now,
                    ))
                },
                PipelineStep::CacheHit { result } => {
                    &&& old(self).limiter.admits(client_key@, now)
                    &&& read_request(*req)
                    &&& old(self).cache.valid_at(cache_key_model(*req), now)
                    &&& result.model() == (
                        DispatchStatus::Success,
                        old(self).cache.value_at(cache_key_model(*req), now),
                        Option::<Seq<char>>::None,
                        Option::<u16>::None,
                    )
                },
                PipelineStep::Dispatch { call, cache_key } => {
                    &&& old(self).limiter.admits(client_key@, now)
                    &&& prepared_ok(old(self).client, *req, call)
                    &&& match cache_key {
                        Some(ck) => read_request(*req) && ck@ == cache_key_model(*req) && !old(
                            self,
                        ).cache.valid_at(cache_key_model(*req), now),
                        None => !read_request(*req),
                    }
                },
            },
    {
        let admitted = self.limiter.check_rate_limit(client_key, now);
        if !admitted {
            return PipelineStep::Refused {
                result: DispatchResult {
                    status: DispatchStatus::RateLimited,
                    value: None,
                    error_detail: Some(String::from_str("Rate limit exceeded")),
                    http_status: None,
                },
            };
        }
        let is_read = match crate::rest::parse_method(req.method.as_str()) {
            Some(m) => m.is_read(),
            None => false,
        };
        if is_read {
            let key = compute_cache_key(req);
            match self.cache.get(key.as_str(), now) {
                Some(v) => PipelineStep::CacheHit {
                    result: DispatchResult {
                        status: DispatchStatus::Success,
                        value: Some(v),
                        error_detail: None,
                        http_status: None,
                    },
                },
                None => {
                    match self.client.prepare(req) {
                        Ok(call) => PipelineStep::Dispatch { call, cache_key: Some(key) },
                        Err(res) => PipelineStep::Refused { result: res },
                    }
                },
            }
        } else {
            match self.client.prepare(req) {
                Ok(call) => PipelineStep::Dispatch { call, cache_key: None },
                Err(res) => PipelineStep::Refused { result: res },
            }
        }
    }

    /// Runs the back of the pipeline: records a successful read response
    /// under its cache key with the default lifetime. Any other outcome,
    /// and every mutation (which carries no key), leaves the cache
    /// untouched; no result is ever translated.
    pub fn post_dispatch(&mut self, cache_key: Option<String>, result: &DispatchResult, now: u64)
        requires
            old(self).wf(),
        ensures
            final(self).wf(),
            final(self).limiter == old(self).limiter,
            final(self).client == old(self).client,
            final(self).cache.spec_default_ttl() == old(self).cache.spec_default_ttl(),
            match cache_key {
                Some(ck) => if result.status == DispatchStatus::Success
                    && result.value is Some {
                    &&& final(self).cache.entry_of(ck@) == Some(
                        (
                            result.value.deep_view()->Some_0,
                            now.saturating_add(old(self).cache.spec_default_ttl()),
                        ),
                    )
                    &&& forall|k2: Seq<char>|
                        k2 != ck@ ==> final(self).cache.entry_of(k2) == old(self).cache.entry_of(
                            k2,
                        )
                } else {
                    final(self).cache == old(self).cache
                },
                None => final(self).cache == old(self).cache,
            },
    {
        match cache_key {
            Some(ck) => {
                if result.status == DispatchStatus::Success {
                    match &result.value {
                        Some(v) => {
                            self.cache.set(ck, v.clone(), None, now);
                        },
                        None => (),
                    }
                }
            },
            None => (),
        }
    }

    /// The whole per-request sequence, with the transport's answers given
    /// as a recorded transcript, one outcome per attempt made: admission,
    /// cache lookup, preparation, the retrying dispatch, and the cache
    /// write-back. Returns the surfaced result and how many attempts went
    /// out; refusals and cache hits dispatch nothing.
    pub fn resolve_with_transcript(
        &mut self,
        req: &DispatchRequest,
        client_key: &str,
        now: u64,
        base_delay_ms: u64,
        outcomes: &Vec<AttemptOutcome>,
    ) -> (r: (DispatchResult, u32))
        requires
            old(self).wf(),
            req.wf(),
            match old(self).client.resolved(req.api_name_model()) {
                Some(t) => outcomes@.len() > t.retry_attempts && t.retry_attempts < u32::MAX,
                None => true,
            },
        ensures
            final(self).wf(),
            final(self).client == old(self).client,
            final(self).cache.spec_default_ttl() == old(self).cache.spec_default_ttl(),
            RateLimiter::stepped(old(self).limiter, final(self).limiter, client_key@, now),
            !old(self).limiter.admits(client_key@, now) ==> {
                &&& r.0.model() == (
                    DispatchStatus::RateLimited,
                    Option::<Seq<char>>::None,
                    Some("Rate limit exceeded"@),
                    Option::<u16>::None,
                )
                &&& r.1 == 0
                &&& final(self).cache == old(self).cache
            },
            (old(self).limiter.admits(client_key@, now) && read_request(*req) && old(
                self,
            ).cache.valid_at(cache_key_model(*req), now)) ==> {
                &&& r.0.model() == (
                    DispatchStatus::Success,
                    old(self).cache.value_at(cache_key_model(*req), now),
                    Option::<Seq<char>>::None,
                    Option::<u16>::None,
                )
                &&& r.1 == 0
                &&& final(self).cache == old(self).cache
            },
            (old(self).limiter.admits(client_key@, now) && !(read_request(*req) && old(
                self,
            ).cache.valid_at(cache_key_model(*req), now)) && (method_of(req.method@) is None
                || old(self).client.resolved(req.api_name_model()) is None)) ==> {
                &&& prepare_failed(old(self).client, *req, r.0)
                &&& r.1 == 0
                &&& final(self).cache == old(self).cache
            },
            (old(self).limiter.admits(client_key@, now) && !(read_request(*req) && old(
                self,
            ).cache.valid_at(cache_key_model(*req), now)) && method_of(req.method@) is Some
                && old(self).client.resolved(req.api_name_model()) is Some) ==> {
                let t = old(self).client.resolved(req.api_name_model())->Some_0;
                let outcome = replay(t.retry_attempts, outcomes@, 0);
                &&& r.0.model() == outcome.0
                &&& r.1 as int == outcome.1
                &&& !read_request(*req) ==> final(self).cache == old(self).cache
                &&& (read_request(*req) && outcome.0.0 == DispatchStatus::Success
                    && outcome.0.1 is Some) ==> {
                    &&& final(self).cache.entry_of(cache_key_model(*req)) == Some(
                        (
                            outcome.0.1->Some_0,
                            now.saturating_add(old(self).cache.spec_default_ttl()),
                        ),
                    )
                    &&& forall|k2: Seq<char>|
                        k2 != cache_key_model(*req) ==> final(self).cache.entry_of(k2) == old(
                            self,
                        ).cache.entry_of(k2)
                }
                &&& (read_request(*req) && !(outcome.0.0 == DispatchStatus::Success
                    && outcome.0.1 is Some)) ==> final(self).cache == old(self).cache
            },
    {
        let step = self.pre_dispatch(req, client_key, now);
        match step {
            PipelineStep::Refused { result } => (result, 0),
            PipelineStep::CacheHit { result } => (result, 0),
            PipelineStep::Dispatch { call, cache_key } => {
                let outcome = run_attempts(call.retry_attempts, base_delay_ms, outcomes);
                self.post_dispatch(cache_key, &outcome.0, now);
                outcome
            },
        }
    }
}

/// Law (read round trip): once a successful read resolution has recorded
/// its document `v` under the request's cache key at time `now`, an
/// identical read request at any time `t` before the entry expires finds
/// the cache valid and holding `v` — so `pre_dispatch`, when it admits that
/// request, answers it from the cache and dispatches nothing.
pub proof fn lemma_read_round_trip(
    p: GatewayPipeline,
    req: DispatchRequest,
    v: Seq<char>,
    now: u64,
    t: u64,
)
    requires
        read_request(req),
        p.cache.entry_of(cache_key_model(req)) == Some(
            (v, now.saturating_add(p.cache.spec_default_ttl())),
        ),
        t < now.saturating_add(p.cache.spec_default_ttl()),
    ensures
        p.cache.valid_at(cache_key_model(req), t),
        p.cache.value_at(cache_key_model(req), t) == Some(v),
{
}

} // verus!
