use rustql::rest::{
    build_url, handle_response, merge_headers, parse_method, DispatchRequest, DispatchStatus,
    HttpMethod, RestClient, UpstreamTarget,
};

fn target(name: &str, base: &str) -> UpstreamTarget {
    UpstreamTarget {
        name: String::from(name),
        base_url: String::from(base),
        timeout_ms: 200,
        retry_attempts: 1,
        default_headers: Vec::new(),
    }
}

fn read_request(api: Option<&str>, path: &str) -> DispatchRequest {
    DispatchRequest {
        request_id: String::from("r1"),
        target_api_name: api.map(String::from),
        endpoint_path: String::from(path),
        method: String::from("GET"),
        body: None,
        headers: None,
    }
}

#[test]
fn method_strings_map_to_verbs() {
    assert_eq!(parse_method("GET"), Some(HttpMethod::Get));
    assert_eq!(parse_method("POST"), Some(HttpMethod::Post));
    assert_eq!(parse_method("PUT"), Some(HttpMethod::Put));
    assert_eq!(parse_method("DELETE"), Some(HttpMethod::Delete));
    assert_eq!(parse_method("PATCH"), Some(HttpMethod::Patch));
    assert_eq!(parse_method("HEAD"), Some(HttpMethod::Head));
    assert_eq!(parse_method("OPTIONS"), Some(HttpMethod::Options));
    assert_eq!(parse_method("get"), None);
    assert_eq!(parse_method("FETCH"), None);
}

#[test]
fn relative_endpoint_is_appended_to_base() {
    let t = target("users", "http://api.example/");
    assert_eq!(build_url(&t, "v1/users"), String::from("http://api.example/v1/users"));
}

#[test]
fn absolute_endpoint_passes_through() {
    let t = target("users", "http://api.example/");
    assert_eq!(build_url(&t, "https://other.example/x"), String::from("https://other.example/x"));
}

#[test]
fn request_headers_win_on_collision() {
    let defaults = vec![
        (String::from("accept"), String::from("application/json")),
        (String::from("x-tenant"), String::from("base")),
    ];
    let extra = vec![(String::from("x-tenant"), String::from("override"))];
    let merged = merge_headers(&defaults, &extra);
    let mut accept = None;
    let mut tenant = None;
    for (k, v) in &merged {
        if k == "accept" {
            accept = Some(v.clone());
        }
        if k == "x-tenant" {
            tenant = Some(v.clone());
        }
    }
    assert_eq!(accept, Some(String::from("application/json")));
    assert_eq!(tenant, Some(String::from("override")));
    assert_eq!(merged.len(), 2);
}

#[test]
fn success_response_with_document_succeeds() {
    let r = handle_response(200, "{\"id\": 1}");
    assert_eq!(r.status, DispatchStatus::Success);
    assert_eq!(r.value, Some(String::from("{\"id\": 1}")));
    assert_eq!(r.http_status, Some(200));
}

#[test]
fn success_response_with_malformed_body_surfaces() {
    let r = handle_response(200, "{\"id\":");
    assert_eq!(r.status, DispatchStatus::UpstreamError);
    assert_eq!(r.value, None);
    assert_eq!(r.error_detail, Some(String::from("malformed upstream body")));
}

#[test]
fn client_error_response_is_upstream_error() {
    let r = handle_response(404, "not found");
    assert_eq!(r.status, DispatchStatus::UpstreamError);
    assert_eq!(r.http_status, Some(404));
}

#[test]
fn registry_resolves_named_and_sole_target() {
    let mut client = RestClient::new();
    client.register(target("users", "http://u/"));
    assert!(client.resolve(Some(&String::from("users"))).is_some());
    assert!(client.resolve(Some(&String::from("orders"))).is_none());
    // exactly one target registered: a nameless request resolves to it
    assert!(client.resolve(None).is_some());
    client.register(target("orders", "http://o/"));
    // several targets: the gateway refuses to guess
    assert!(client.resolve(None).is_none());
}

#[test]
fn register_replaces_same_name() {
    let mut client = RestClient::new();
    client.register(target("users", "http://old/"));
    client.register(target("users", "http://new/"));
    let t = client.resolve(Some(&String::from("users"))).unwrap();
    assert_eq!(t.base_url, String::from("http://new/"));
}

#[test]
fn add_api_registers_bare_upstream() {
    let mut client = RestClient::new();
    client.add_api(String::from("users"), String::from("http://u/"));
    let t = client.resolve(Some(&String::from("users"))).unwrap();
    assert_eq!(t.base_url, String::from("http://u/"));
    assert_eq!(t.retry_attempts, 0);
}

#[test]
fn prepare_rejects_unknown_method() {
    let mut client = RestClient::new();
    client.register(target("users", "http://u/"));
    let mut req = read_request(Some("users"), "v1");
    req.method = String::from("FETCH");
    let r = client.prepare(&req);
    let res = r.err().unwrap();
    assert_eq!(res.status, DispatchStatus::ValidationError);
    assert_eq!(res.error_detail, Some(String::from("Invalid HTTP method")));
}

#[test]
fn prepare_rejects_unknown_upstream() {
    let client = RestClient::new();
    let req = read_request(Some("users"), "v1");
    let res = client.prepare(&req).err().unwrap();
    assert_eq!(res.status, DispatchStatus::ValidationError);
    assert_eq!(res.error_detail, Some(String::from("unknown upstream")));
}

#[test]
fn prepare_builds_call_without_body_for_get() {
    let mut client = RestClient::new();
    client.register(target("users", "http://u/"));
    let mut req = read_request(Some("users"), "v1/users");
    req.body = Some(String::from("{\"ignored\": true}"));
    let call = client.prepare(&req).ok().unwrap();
    assert_eq!(call.url, String::from("http://u/v1/users"));
    assert_eq!(call.method, HttpMethod::Get);
    assert_eq!(call.body, None);
    assert_eq!(call.timeout_ms, 200);
    assert_eq!(call.retry_attempts, 1);
}

#[test]
fn prepare_attaches_body_for_post() {
    let mut client = RestClient::new();
    client.register(target("users", "http://u/"));
    let mut req = read_request(Some("users"), "v1/users");
    req.method = String::from("POST");
    req.body = Some(String::from("{\"name\": \"n\"}"));
    let call = client.prepare(&req).ok().unwrap();
    assert_eq!(call.body, Some(String::from("{\"name\": \"n\"}")));
}
