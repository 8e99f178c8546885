use rustql::pipeline::GatewayPipeline;
use rustql::rest::{DispatchRequest, DispatchStatus, UpstreamTarget};
use rustql::retry::AttemptOutcome;

fn pipeline_with_api() -> GatewayPipeline {
    let mut p = GatewayPipeline::new(10, 60_000, 5_000);
    p.client.register(UpstreamTarget {
        name: String::from("users"),
        base_url: String::from("http://u/"),
        timeout_ms: 200,
        retry_attempts: 1,
        default_headers: Vec::new(),
    });
    p
}

fn request(method: &str, path: &str) -> DispatchRequest {
    DispatchRequest {
        request_id: String::from("r"),
        target_api_name: Some(String::from("users")),
        endpoint_path: String::from(path),
        method: String::from(method),
        body: None,
        headers: None,
    }
}

fn ok_answer() -> Vec<AttemptOutcome> {
    vec![
        AttemptOutcome::Response { status: 200, body: String::from("{\"id\": 1}") },
        AttemptOutcome::Response { status: 200, body: String::from("{\"id\": 1}") },
    ]
}

#[test]
fn read_round_trip_second_call_hits_cache() {
    // a successful read is retrievable from cache on an identical request:
    // the second resolution makes zero upstream attempts
    let mut p = pipeline_with_api();
    let req = request("GET", "v1/users");
    let (first, used_first) = p.resolve_with_transcript(&req, "client", 0, 100, &ok_answer());
    assert_eq!(first.status, DispatchStatus::Success);
    assert_eq!(used_first, 1);
    let (second, used_second) = p.resolve_with_transcript(&req, "client", 1_000, 100, &ok_answer());
    assert_eq!(second.status, DispatchStatus::Success);
    assert_eq!(second.value, Some(String::from("{\"id\": 1}")));
    assert_eq!(used_second, 0);
}

#[test]
fn cached_read_expires_and_dispatches_again() {
    let mut p = pipeline_with_api();
    let req = request("GET", "v1/users");
    let (_, used_first) = p.resolve_with_transcript(&req, "client", 0, 100, &ok_answer());
    assert_eq!(used_first, 1);
    // the default TTL is 5 s; at t = 6 s the entry has expired
    let (_, used_second) = p.resolve_with_transcript(&req, "client", 6_000, 100, &ok_answer());
    assert_eq!(used_second, 1);
}

#[test]
fn identical_mutations_both_reach_upstream() {
    // mutations never populate or consult the cache
    let mut p = pipeline_with_api();
    let mut req = request("POST", "v1/users");
    req.body = Some(String::from("{\"name\": \"n\"}"));
    let (first, used_first) = p.resolve_with_transcript(&req, "client", 0, 100, &ok_answer());
    assert_eq!(first.status, DispatchStatus::Success);
    assert_eq!(used_first, 1);
    let (second, used_second) = p.resolve_with_transcript(&req, "client", 1, 100, &ok_answer());
    assert_eq!(second.status, DispatchStatus::Success);
    assert_eq!(used_second, 1);
}

#[test]
fn denied_call_reaches_neither_cache_nor_upstream() {
    let mut p = GatewayPipeline::new(1, 60_000, 5_000);
    p.client.register(UpstreamTarget {
        name: String::from("users"),
        base_url: String::from("http://u/"),
        timeout_ms: 200,
        retry_attempts: 0,
        default_headers: Vec::new(),
    });
    let req = request("GET", "v1/users");
    let (first, _) = p.resolve_with_transcript(&req, "c", 0, 100, &ok_answer());
    assert_eq!(first.status, DispatchStatus::Success);
    let (denied, used) = p.resolve_with_transcript(&req, "c", 1, 100, &ok_answer());
    assert_eq!(denied.status, DispatchStatus::RateLimited);
    assert_eq!(denied.error_detail, Some(String::from("Rate limit exceeded")));
    assert_eq!(used, 0);
}

#[test]
fn failed_read_is_not_cached() {
    let mut p = pipeline_with_api();
    let req = request("GET", "v1/users");
    let failures = vec![
        AttemptOutcome::Response { status: 500, body: String::from("boom") },
        AttemptOutcome::Response { status: 500, body: String::from("boom") },
    ];
    let (first, used_first) = p.resolve_with_transcript(&req, "c", 0, 100, &failures);
    assert_eq!(first.status, DispatchStatus::UpstreamError);
    assert_eq!(used_first, 2);
    // the failure was not cached: the next identical read dispatches again
    let (second, used_second) = p.resolve_with_transcript(&req, "c", 1, 100, &ok_answer());
    assert_eq!(second.status, DispatchStatus::Success);
    assert_eq!(used_second, 1);
}

#[test]
fn invalid_method_is_refused_without_dispatch() {
    let mut p = pipeline_with_api();
    let req = request("FETCH", "v1/users");
    let (res, used) = p.resolve_with_transcript(&req, "c", 0, 100, &ok_answer());
    assert_eq!(res.status, DispatchStatus::ValidationError);
    assert_eq!(used, 0);
}

#[test]
fn rate_limit_applies_before_validation() {
    let mut p = GatewayPipeline::new(0, 60_000, 5_000);
    let req = request("FETCH", "v1/users");
    let (res, used) = p.resolve_with_transcript(&req, "c", 0, 100, &ok_answer());
    assert_eq!(res.status, DispatchStatus::RateLimited);
    assert_eq!(used, 0);
}
