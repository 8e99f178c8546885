//! The REST dispatch layer: upstream registry, request preparation (method
//! validation, address resolution, header merging, body attachment) and
//! response classification. The network transport itself lives outside the
//! library; it is driven through the retry policy in `retry`.

use vstd::prelude::*;
use vstd::string::StrSliceExecFns;
use crate::assoc;
use crate::json::{is_valid_document, json_accepted};
use crate::strutil::str_eq;

verus! {

/// The timeout stamped on upstreams registered without one, in milliseconds.
pub const DEFAULT_TIMEOUT_MS: u64 = 30000;

/// The known HTTP verbs.
#[derive(Clone, Copy, PartialEq, Eq, Structural, Debug)]
pub enum HttpMethod {
    Get,
    Post,
    Put,
    Delete,
    Patch,
    Head,
    Options,
}

/// The verb a method string maps to, if any; matching is exact.
pub open spec fn method_of(s: Seq<char>) -> Option<HttpMethod> {
    if s == "GET"@ {
        Some(HttpMethod::Get)
    } else if s == "POST"@ {
        Some(HttpMethod::Post)
    } else if s == "PUT"@ {
        Some(HttpMethod::Put)
    } else if s == "DELETE"@ {
        Some(HttpMethod::Delete)
    } else if s == "PATCH"@ {
        Some(HttpMethod::Patch)
    } else if s == "HEAD"@ {
        Some(HttpMethod::Head)
    } else if s == "OPTIONS"@ {
        Some(HttpMethod::Options)
    } else {
        None
    }
}

/// Maps a method string to its verb; unknown strings map to nothing.
pub fn parse_method(s: &str) -> (r: Option<HttpMethod>)
    ensures
        r == method_of(s@),
{
    if str_eq(s, "GET") {
        Some(HttpMethod::Get)
    } else if str_eq(s, "POST") {
        Some(HttpMethod::Post)
    } else if str_eq(s, "PUT") {
        Some(HttpMethod::Put)
    } else if str_eq(s, "DELETE") {
        Some(HttpMethod::Delete)
    } else if str_eq(s, "PATCH") {
        Some(HttpMethod::Patch)
    } else if str_eq(s, "HEAD") {
        Some(HttpMethod::Head)
    } else if str_eq(s, "OPTIONS") {
        Some(HttpMethod::Options)
    } else {
        None
    }
}

impl HttpMethod {
    /// The one read verb; only its responses are cached.
    pub open spec fn spec_is_read(self) -> bool {
        self == HttpMethod::Get
    }

    pub fn is_read(&self) -> (r: bool)
        ensures
            r == self.spec_is_read(),
    {
        match self {
            HttpMethod::Get => true,
            _ => false,
        }
    }

    /// Whether an outbound call with this verb carries a request body.
    pub open spec fn spec_carries_body(self) -> bool {
        self == HttpMethod::Post || self == HttpMethod::Put || self == HttpMethod::Patch
    }

    pub fn carries_body(&self) -> (r: bool)
        ensures
            r == self.spec_carries_body(),
    {
        match self {
            HttpMethod::Post => true,
            HttpMethod::Put => true,
            HttpMethod::Patch => true,
            _ => false,
        }
    }
}

/// How one dispatched field resolution ended.
#[derive(Clone, Copy, PartialEq, Eq, Structural, Debug)]
pub enum DispatchStatus {
    Success,
    RateLimited,
    Timeout,
    UpstreamError,
    ValidationError,
}

/// The outcome handed back for one field resolution: a status, the response
/// document on success, and a machine-readable detail otherwise. A response
/// status code is attached whenever the upstream answered at all.
pub struct DispatchResult {
    pub status: DispatchStatus,
    pub value: Option<String>,
    pub error_detail: Option<String>,
    pub http_status: Option<u16>,
}

impl DispatchResult {
    /// The result as pure values: status, document, detail, response code.
    pub open spec fn model(self) -> (DispatchStatus, Option<Seq<char>>, Option<Seq<char>>, Option<
        u16,
    >) {
        (self.status, self.value.deep_view(), self.error_detail.deep_view(), self.http_status)
    }
}

/// One field-resolution request: where to call, with what verb, body and
/// headers. Transient; one per resolution.
pub struct DispatchRequest {
    pub request_id: String,
    pub target_api_name: Option<String>,
    pub endpoint_path: String,
    pub method: String,
    pub body: Option<String>,
    pub headers: Option<Vec<(String, String)>>,
}

/// Header pairs as pure values.
pub open spec fn headers_view(hs: Seq<(String, String)>) -> Seq<(Seq<char>, Seq<char>)> {
    hs.map_values(|p: (String, String)| (p.0@, p.1@))
}

impl DispatchRequest {
    /// The request's own headers as a mapping; absent means empty.
    pub open spec fn headers_model(self) -> Seq<(Seq<char>, Seq<char>)> {
        match self.headers {
            Some(hs) => headers_view(hs@),
            None => Seq::empty(),
        }
    }

    /// The requested upstream name, if one is named.
    pub open spec fn api_name_model(self) -> Option<Seq<char>> {
        match self.target_api_name {
            Some(n) => Some(n@),
            None => None,
        }
    }

    /// A request is a proper mapping carrier: its header keys are unique.
    pub open spec fn wf(self) -> bool {
        assoc::unique_keys(self.headers_model())
    }
}

/// One registered upstream API: address and per-API defaults. Immutable
/// after registration.
pub struct UpstreamTarget {
    pub name: String,
    pub base_url: String,
    pub timeout_ms: u64,
    pub retry_attempts: u32,
    pub default_headers: Vec<(String, String)>,
}

impl UpstreamTarget {
    /// A target is a proper mapping carrier: its header keys are unique.
    pub open spec fn wf(self) -> bool {
        assoc::unique_keys(headers_view(self.default_headers@))
    }
}

/// Whether a path already names an absolute address and passes through
/// unresolved.
pub open spec fn is_absolute_url(s: Seq<char>) -> bool {
    s.len() >= 4 && s[0] == 'h' && s[1] == 't' && s[2] == 't' && s[3] == 'p'
}

/// The address one call goes to: an absolute path unchanged, a relative one
/// appended to the target's base address.
pub open spec fn resolved_url(base: Seq<char>, endpoint: Seq<char>) -> Seq<char> {
    if is_absolute_url(endpoint) {
        endpoint
    } else {
        base + endpoint
    }
}

/// One outbound call, fully prepared: everything the transport needs, and
/// the retry budget that governs it.
pub struct PreparedCall {
    pub url: String,
    pub method: HttpMethod,
    pub headers: Vec<(String, String)>,
    pub body: Option<String>,
    pub timeout_ms: u64,
    pub retry_attempts: u32,
}

/// Registry of upstream APIs and entry point for preparing outbound calls.
pub struct RestClient {
    apis: Vec<UpstreamTarget>,
}

impl RestClient {
    /// The registered targets, in registration order.
    pub closed spec fn targets(self) -> Seq<UpstreamTarget> {
        self.apis@
    }

    /// The registry as an association of name to target.
    pub open spec fn reg_entries(self) -> Seq<(Seq<char>, UpstreamTarget)> {
        self.targets().map_values(|t: UpstreamTarget| (t.name@, t))
    }

    /// Internal shape: names are unique and every target carries a proper
    /// header mapping.
    pub open spec fn wf(self) -> bool {
        &&& assoc::unique_keys(self.reg_entries())
        &&& forall|i: int| 0 <= i < self.targets().len() ==> (#[trigger] self.targets()[i]).wf()
    }

    /// The target a request for `name` resolves to: the named entry, or,
    /// with no name given, the sole registered target. With no name and
    /// zero or several targets nothing resolves: the gateway never guesses
    /// among upstreams.
    pub open spec fn resolved(self, name: Option<Seq<char>>) -> Option<UpstreamTarget> {
        match name {
            Some(n) => assoc::lookup(self.reg_entries(), n),
            None => if self.targets().len() == 1 {
                Some(self.targets()[0])
            } else {
                None
            },
        }
    }

    pub fn new() -> (r: RestClient)
        ensures
            r.wf(),
            r.targets() == Seq::<UpstreamTarget>::empty(),
    {
        let r = RestClient { apis: Vec::new() };
        proof {
            assert(r.reg_entries() =~= Seq::empty());
        }
        r
    }

    /// The index of the target registered under `name`, when one exists.
    fn find_api(&self, name: &str) -> (r: Option<usize>)
        ensures
            match r {
                Option::Some(i) => i < self.reg_entries().len() && self.reg_entries()[i as int].0
                    == name@ && (forall|j: int| 0 <= j < i ==> self.reg_entries()[j].0 != name@),
                Option::None => forall|j: int|
                    0 <= j < self.reg_entries().len() ==> self.reg_entries()[j].0 != name@,
            },
    {
        let n = self.apis.len();
        let mut i: usize = 0;
        while i < n
            invariant
                n == self.apis@.len(),
                i <= n,
                forall|j: int| 0 <= j < i ==> self.reg_entries()[j].0 != name@,
            decreases n - i,
        {
            if str_eq(self.apis[i].name.as_str(), name) {
                return Some(i);
            }
            i = i + 1;
        }
        None
    }

    /// Registers `target` under its name, replacing any target already
    /// registered under it. Registration happens once at startup; the
    /// registry is read-only afterwards.
    pub fn register(&mut self, target: UpstreamTarget)
        requires
            old(self).wf(),
            target.wf(),
        ensures
            final(self).wf(),
            final(self).resolved(Some(target.name@)) == Some(target),
            forall|n2: Seq<char>|
                n2 != target.name@ ==> assoc::lookup(final(self).reg_entries(), n2)
                    == assoc::lookup(old(self).reg_entries(), n2),
            old(self).resolved(Some(target.name@)) is Some ==> final(self).targets().len() == old(
                self,
            ).targets().len(),
            old(self).resolved(Some(target.name@)) is None ==> final(self).targets().len() == old(
                self,
            ).targets().len() + 1,
    {
        let ghost es0 = self.reg_entries();
        let ghost tview = target;
        match self.find_api(target.name.as_str()) {
            Some(i) => {
                proof {
                    assoc::lemma_lookup_some_key(es0, i as int);
                }
                let _old_target = self.apis.remove(i);
                self.apis.insert(i, target);
                proof {
                    assert(self.targets() =~= old(self).targets().update(i as int, tview));
                    assert(self.reg_entries() =~= es0.update(i as int, (es0[i as int].0, tview)));
                    assert forall|n2: Seq<char>| n2 != tview.name@ implies assoc::lookup(
                        self.reg_entries(),
                        n2,
                    ) == assoc::lookup(es0, n2) by {
                        assoc::lemma_lookup_update_value(es0, i as int, tview, n2);
                    }
                    assoc::lemma_lookup_update_value(es0, i as int, tview, tview.name@);
                    assert forall|a: int, b: int|
                        0 <= a < b < self.reg_entries().len() implies self.reg_entries()[a].0
                        != self.reg_entries()[b].0 by {
                        assert(self.reg_entries()[a].0 == es0[a].0);
                        assert(self.reg_entries()[b].0 == es0[b].0);
                    }
                    assert forall|j: int| 0 <= j < self.targets().len() implies (
                    #[trigger] self.targets()[j]).wf() by {
                        if j != i {
                            assert(self.targets()[j] == old(self).targets()[j]);
                        }
                    }
                }
            },
            None => {
                self.apis.push(target);
                proof {
                    assert(self.targets() =~= old(self).targets().push(tview));
                    let single = seq![(tview.name@, tview)];
                    assert(self.reg_entries() =~= es0 + single);
                    assoc::lemma_lookup_absent(es0, tview.name@);
                    assert forall|n2: Seq<char>| n2 != tview.name@ implies assoc::lookup(
                        self.reg_entries(),
                        n2,
                    ) == assoc::lookup(es0, n2) by {
                        assoc::lemma_lookup_append(es0, single, n2);
                        assert(forall|j: int| 0 <= j < single.len() ==> single[j].0 != n2);
                        assoc::lemma_lookup_absent(single, n2);
                    }
                    assoc::lemma_lookup_append(es0, single, tview.name@);
                    assert(assoc::lookup(single, tview.name@) == Some(tview));
                    assert forall|a: int, b: int|
                        0 <= a < b < self.reg_entries().len() implies self.reg_entries()[a].0
                        != self.reg_entries()[b].0 by {
                        if b == self.reg_entries().len() - 1 {
                            assert(self.reg_entries()[a].0 == es0[a].0);
                            assoc::lemma_lookup_none_no_key(es0, tview.name@);
                        } else {
                            assert(self.reg_entries()[a].0 == es0[a].0);
                            assert(self.reg_entries()[b].0 == es0[b].0);
                        }
                    }
                    assert forall|j: int| 0 <= j < self.targets().len() implies (
                    #[trigger] self.targets()[j]).wf() by {
                        if j < self.targets().len() - 1 {
                            assert(self.targets()[j] == old(self).targets()[j]);
                        }
                    }
                }
            },
        }
    }

    /// Registers a bare upstream: the given address with the default
    /// timeout, no extra retries and no default headers.
    pub fn add_api(&mut self, name: String, base_url: String)
        requires
            old(self).wf(),
        ensures
            final(self).wf(),
            final(self).resolved(Some(name@)) matches Some(t) && t.name@ == name@ && t.base_url@
                == base_url@ && t.timeout_ms == DEFAULT_TIMEOUT_MS && t.retry_attempts == 0
                && t.default_headers@.len() == 0,
            forall|n2: Seq<char>|
                n2 != name@ ==> assoc::lookup(final(self).reg_entries(), n2) == assoc::lookup(
                    old(self).reg_entries(),
                    n2,
                ),
    {
        let target = UpstreamTarget {
            name,
            base_url,
            timeout_ms: DEFAULT_TIMEOUT_MS,
            retry_attempts: 0,
            default_headers: Vec::new(),
        };
        proof {
            assert(headers_view(target.default_headers@) =~= Seq::empty());
        }
        self.register(target);
    }

    /// Resolves the target a request addresses, per the default-or-error
    /// policy described at `resolved`.
    pub fn resolve(&self, name: Option<&String>) -> (r: Option<&UpstreamTarget>)
        ensures
            match r {
                Option::Some(t) => self.resolved(
                    match name {
                        Option::Some(n) => Some(n@),
                        Option::None => None,
                    },
                ) == Some(*t),
                Option::None => self.resolved(
                    match name {
                        Option::Some(n) => Some(n@),
                        Option::None => None,
                    },
                ) is None,
            },
    {
        match name {
            Some(n) => {
                match self.find_api(n.as_str()) {
                    Some(i) => {
                        proof {
                            assoc::lemma_lookup_some_key(self.reg_entries(), i as int);
                            assoc::lemma_lookup_index(self.reg_entries(), i as int);
                        }
                        Some(&self.apis[i])
                    },
                    None => {
                        proof {
                            assoc::lemma_lookup_absent(self.reg_entries(), n@);
                        }
                        None
                    },
                }
            },
            None => {
                if self.apis.len() == 1 {
                    Some(&self.apis[0])
                } else {
                    None
                }
            },
        }
    }
}

/// Builds the address of one call: an absolute endpoint passes through
/// unchanged, a relative one is appended to the target's base address.
pub fn build_url(target: &UpstreamTarget, endpoint: &str) -> (r: String)
    ensures
        r@ == resolved_url(target.base_url@, endpoint@),
{
    let n = endpoint.unicode_len();
    let absolute = n >= 4 && endpoint.get_char(0) == 'h' && endpoint.get_char(1) == 't'
        && endpoint.get_char(2) == 't' && endpoint.get_char(3) == 'p';
    if absolute {
        endpoint.to_owned()
    } else {
        let mut url = target.base_url.clone();
        url.append(endpoint);
        url
    }
}

/// The classification of a final (not retried) upstream response: a 2xx
/// response with a well-formed body succeeds carrying that document; a 2xx
/// response whose body does not parse is a malformed-body upstream error;
/// any other status is an upstream error carrying the status code.
pub open spec fn response_model(status: u16, body: Seq<char>) -> (
    DispatchStatus,
    Option<Seq<char>>,
    Option<Seq<char>>,
    Option<u16>,
) {
    if is_success_code(status) {
        if json_accepted(body) {
            (DispatchStatus::Success, Some(body), None, Some(status))
        } else {
            (
                DispatchStatus::UpstreamError,
                None,
                Some("malformed upstream body"@),
                Some(status),
            )
        }
    } else {
        (DispatchStatus::UpstreamError, None, Some("upstream error status"@), Some(status))
    }
}

/// 2xx: the request succeeded.
pub open spec fn is_success_code(status: u16) -> bool {
    200 <= status < 300
}

/// 5xx: the upstream failed transiently; such responses are retried.
pub open spec fn is_retryable_code(status: u16) -> bool {
    500 <= status < 600
}

/// Classifies a final upstream response, parsing the body of a successful
/// one as a document; a parse failure surfaces, never coerced to empty.
pub fn handle_response(status: u16, body: &str) -> (r: DispatchResult)
    ensures
        r.model() == response_model(status, body@),
{
    if 200 <= status && status < 300 {
        if is_valid_document(body) {
            DispatchResult {
                status: DispatchStatus::Success,
                value: Some(body.to_owned()),
                error_detail: None,
                http_status: Some(status),
            }
        } else {
            DispatchResult {
                status: DispatchStatus::UpstreamError,
                value: None,
                error_detail: Some(String::from_str("malformed upstream body")),
                http_status: Some(status),
            }
        }
    } else {
        DispatchResult {
            status: DispatchStatus::UpstreamError,
            value: None,
            error_detail: Some(String::from_str("upstream error status")),
            http_status: Some(status),
        }
    }
}

/// The index of the pair for `key` in a header list, when one exists.
fn find_header(hs: &Vec<(String, String)>, key: &str) -> (r: Option<usize>)
    ensures
        match r {
            Option::Some(i) => i < headers_view(hs@).len() && headers_view(hs@)[i as int].0 == key@
                && (forall|j: int| 0 <= j < i ==> headers_view(hs@)[j].0 != key@),
            Option::None => forall|j: int|
                0 <= j < headers_view(hs@).len() ==> headers_view(hs@)[j].0 != key@,
        },
{
    let n = hs.len();
    let mut i: usize = 0;
    while i < n
        invariant
            n == hs@.len(),
            i <= n,
            forall|j: int| 0 <= j < i ==> headers_view(hs@)[j].0 != key@,
        decreases n - i,
    {
        if str_eq(hs[i].0.as_str(), key) {
            return Some(i);
        }
        i = i + 1;
    }
    None
}

/// Merges a target's default headers with a request's own: on a key carried
/// by both, the request's value wins.
pub fn merge_headers(defaults: &Vec<(String, String)>, extra: &Vec<(String, String)>) -> (r: Vec<
    (String, String),
>)
    requires
        assoc::unique_keys(headers_view(defaults@)),
        assoc::unique_keys(headers_view(extra@)),
    ensures
        assoc::unique_keys(headers_view(r@)),
        forall|k: Seq<char>|
            #[trigger] assoc::lookup(headers_view(r@), k) == if assoc::lookup(
                headers_view(extra@),
                k,
            ) is Some {
                assoc::lookup(headers_view(extra@), k)
            } else {
                assoc::lookup(headers_view(defaults@), k)
            },
{
    let mut r: Vec<(String, String)> = Vec::new();
    let n = extra.len();
    let mut i: usize = 0;
    while i < n
        invariant
            n == extra@.len(),
            i <= n,
            r@.len() == i,
            forall|j: int| 0 <= j < i ==> r@[j] == extra@[j],
        decreases n - i,
    {
        let pair = (extra[i].0.clone(), extra[i].1.clone());
        proof {
            assert(pair == extra@[i as int]);
        }
        r.push(pair);
        i = i + 1;
    }
    proof {
        assert(r@ =~= extra@);
        assert(headers_view(r@) == headers_view(extra@));
        assert(headers_view(defaults@.take(0)) =~= Seq::empty());
    }
    let m = defaults.len();
    let mut j: usize = 0;
    while j < m
        invariant
            m == defaults@.len(),
            j <= m,
            assoc::unique_keys(headers_view(defaults@)),
            assoc::unique_keys(headers_view(r@)),
            forall|k: Seq<char>|
                #[trigger] assoc::lookup(headers_view(r@), k) == if assoc::lookup(
                    headers_view(extra@),
                    k,
                ) is Some {
                    assoc::lookup(headers_view(extra@), k)
                } else {
                    assoc::lookup(headers_view(defaults@.take(j as int)), k)
                },
        decreases m - j,
    {
        let ghost rv0 = headers_view(r@);
        let ghost dkey = defaults@[j as int].0@;
        let ghost dval = defaults@[j as int].1@;
        let ghost dtake = headers_view(defaults@.take(j as int));
        let ghost single = seq![(dkey, dval)];
        proof {
            assert(defaults@.take(j + 1) =~= defaults@.take(j as int).push(defaults@[j as int]));
            assert(headers_view(defaults@.take(j + 1)) =~= dtake + single);
            assert forall|k: Seq<char>| true implies #[trigger] assoc::lookup(dtake + single, k)
                == if assoc::lookup(dtake, k) is Some {
                assoc::lookup(dtake, k)
            } else if k == dkey {
                Some(dval)
            } else {
                Option::<Seq<char>>::None
            } by {
                assoc::lemma_lookup_append(dtake, single, k);
                if k != dkey {
                    assert(forall|q: int| 0 <= q < single.len() ==> single[q].0 != k);
                    assoc::lemma_lookup_absent(single, k);
                }
            }
            // the processed prefix of the defaults never carries this key
            // again: key uniqueness of the defaults
            assert forall|q: int| 0 <= q < dtake.len() implies dtake[q].0 != dkey by {
                assert(dtake[q] == headers_view(defaults@)[q]);
                assert(headers_view(defaults@)[j as int].0 == dkey);
            }
            assoc::lemma_lookup_absent(dtake, dkey);
        }
        match find_header(&r, defaults[j].0.as_str()) {
            Some(_i) => {
                proof {
                    assert(rv0[_i as int].0 == dkey);
                    assoc::lemma_lookup_some_key(rv0, _i as int);
                }
            },
            None => {
                let pair = (defaults[j].0.clone(), defaults[j].1.clone());
                proof {
                    assert(pair == defaults@[j as int]);
                }
                r.push(pair);
                proof {
                    assert(headers_view(r@) =~= rv0 + single);
                    assert forall|k: Seq<char>| true implies #[trigger] assoc::lookup(
                        headers_view(r@),
                        k,
                    ) == if assoc::lookup(rv0, k) is Some {
                        assoc::lookup(rv0, k)
                    } else if k == dkey {
                        Some(dval)
                    } else {
                        Option::<Seq<char>>::None
                    } by {
                        assoc::lemma_lookup_append(rv0, single, k);
                        if k != dkey {
                            assert(forall|q: int| 0 <= q < single.len() ==> single[q].0 != k);
                            assoc::lemma_lookup_absent(single, k);
                        }
                    }
                    assoc::lemma_lookup_absent(rv0, dkey);
                    assert forall|a: int, b: int|
                        0 <= a < b < headers_view(r@).len() implies headers_view(r@)[a].0
                        != headers_view(r@)[b].0 by {
                        if b == headers_view(r@).len() - 1 {
                            assert(headers_view(r@)[a] == rv0[a]);
                            assoc::lemma_lookup_none_no_key(rv0, dkey);
                        } else {
                            assert(headers_view(r@)[a] == rv0[a]);
                            assert(headers_view(r@)[b] == rv0[b]);
                        }
                    }
                }
            },
        }
        j = j + 1;
    }
    proof {
        assert(defaults@.take(m as int) =~= defaults@);
    }
    r
}

/// What a successfully prepared call promises: the validated verb, the
/// resolved target's address with the endpoint appended, the merged header
/// mapping with the request's values taking precedence, the body attached
/// only for verbs that carry one, and the target's timeout and retry budget.
pub open spec fn prepared_ok(client: RestClient, req: DispatchRequest, call: PreparedCall) -> bool {
    &&& method_of(req.method@) == Some(call.method)
    &&& client.resolved(req.api_name_model()) matches Some(t) && {
        &&& call.url@ == resolved_url(t.base_url@, req.endpoint_path@)
        &&& call.timeout_ms == t.timeout_ms
        &&& call.retry_attempts == t.retry_attempts
        &&& assoc::unique_keys(headers_view(call.headers@))
        &&& forall|k: Seq<char>|
            #[trigger] assoc::lookup(headers_view(call.headers@), k) == if assoc::lookup(
                req.headers_model(),
                k,
            ) is Some {
                assoc::lookup(req.headers_model(), k)
            } else {
                assoc::lookup(headers_view(t.default_headers@), k)
            }
    }
    &&& call.body == if call.method.spec_carries_body() {
        req.body
    } else {
        Option::<String>::None
    }
}

/// What a refused preparation promises: it happens exactly on an unknown
/// verb or an unresolvable upstream, and surfaces a validation failure
/// naming which.
pub open spec fn prepare_failed(client: RestClient, req: DispatchRequest, res: DispatchResult) -> bool {
    &&& (method_of(req.method@) is None || client.resolved(req.api_name_model()) is None)
    &&& res.status == DispatchStatus::ValidationError
    &&& res.value is None
    &&& res.http_status is None
    &&& method_of(req.method@) is None ==> res.error_detail.deep_view() == Some(
        "Invalid HTTP method"@,
    )
    &&& (method_of(req.method@) is Some && client.resolved(req.api_name_model()) is None)
        ==> res.error_detail.deep_view() == Some("unknown upstream"@)
}

impl RestClient {
    /// Prepares one outbound call: validates the verb, resolves the target,
    /// builds the address, merges headers with the request's taking
    /// precedence, and attaches the body only for verbs that carry one. An
    /// unknown verb or an unresolvable upstream yields the validation
    /// failure instead, and nothing is dispatched.
    pub fn prepare(&self, req: &DispatchRequest) -> (r: Result<PreparedCall, DispatchResult>)
        requires
            self.wf(),
            req.wf(),
        ensures
            match r {
                Result::Ok(call) => prepared_ok(*self, *req, call),
                Result::Err(res) => prepare_failed(*self, *req, res),
            },
    {
        let method = match parse_method(req.method.as_str()) {
            Some(m) => m,
            None => {
                return Err(
                    DispatchResult {
                        status: DispatchStatus::ValidationError,
                        value: None,
                        error_detail: Some(String::from_str("Invalid HTTP method")),
                        http_status: None,
                    },
                );
            },
        };
        let target = match self.resolve(req.target_api_name.as_ref()) {
            Some(t) => t,
            None => {
                return Err(
                    DispatchResult {
                        status: DispatchStatus::ValidationError,
                        value: None,
                        error_detail: Some(String::from_str("unknown upstream")),
                        http_status: None,
                    },
                );
            },
        };
        proof {
            if req.api_name_model() is Some {
                assoc::lemma_lookup_some_in(self.reg_entries(), req.api_name_model()->Some_0);
                let i = choose|i: int|
                    0 <= i < self.reg_entries().len() && #[trigger] self.reg_entries()[i] == (
                        req.api_name_model()->Some_0,
                        assoc::lookup(
                            self.reg_entries(),
                            req.api_name_model()->Some_0,
                        )->Some_0,
                    );
                assert(self.targets()[i] == *target);
            }
        }
        let url = build_url(target, req.endpoint_path.as_str());
        let merged = match &req.headers {
            Some(hs) => merge_headers(&target.default_headers, hs),
            None => {
                let empty: Vec<(String, String)> = Vec::new();
                proof {
                    assert(headers_view(empty@) =~= Seq::empty());
                    assert(req.headers_model() =~= Seq::empty());
                }
                merge_headers(&target.default_headers, &empty)
            },
        };
        let body = if method.carries_body() {
            match &req.body {
                Some(b) => Some(b.clone()),
                None => None,
            }
        } else {
            None
        };
        Ok(
            PreparedCall {
                url,
                method,
                headers: merged,
                body,
                timeout_ms: target.timeout_ms,
                retry_attempts: target.retry_attempts,
            },
        )
    }
}

} // verus!
