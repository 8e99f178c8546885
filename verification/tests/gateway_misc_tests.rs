use std::sync::Arc;
use rustql::config::{ApisConfig, RestApiConfig, Settings};
use rustql::errors::RustQLError;
use rustql::resolvers::{
    sanitize_graphql_query, validate_query_complexity, DynamicResolver, ResolverContext,
};
use rustql::server::Server;
use rustql::utils::{format_duration, generate_request_id, sanitize_query};

#[test]
fn default_settings_validate() {
    let settings = Settings::default();
    assert!(settings.validate().is_ok());
    assert_eq!(settings.server.port, 8080);
    assert_eq!(settings.cache.default_ttl, 300);
    assert_eq!(settings.rate_limiting.requests_per_minute, 1000);
}

#[test]
fn zero_port_is_rejected() {
    let mut settings = Settings::default();
    settings.server.port = 0;
    assert_eq!(settings.validate(), Err(String::from("Server port cannot be 0")));
}

#[test]
fn zero_rate_ceiling_is_rejected() {
    let mut settings = Settings::default();
    settings.rate_limiting.requests_per_minute = 0;
    assert_eq!(
        settings.validate(),
        Err(String::from("Rate limit requests per minute cannot be 0"))
    );
}

#[test]
fn empty_base_url_is_rejected_by_name() {
    let mut settings = Settings::default();
    settings.apis = ApisConfig {
        rest: vec![RestApiConfig {
            name: String::from("users"),
            base_url: String::new(),
            schema_url: None,
            headers: None,
            timeout: None,
            retry_attempts: None,
        }],
    };
    assert_eq!(
        settings.validate(),
        Err(String::from("Base URL for API 'users' cannot be empty"))
    );
}

#[test]
fn server_holds_its_settings() {
    let server = Server::new(Settings::default());
    assert_eq!(server.settings.server.port, 8080);
}

#[test]
fn resolver_plumbing_keeps_fields() {
    let ctx = ResolverContext::new(Arc::new(Settings::default()), String::from("req-1"));
    assert_eq!(ctx.request_id, String::from("req-1"));
    let resolver = DynamicResolver::new(String::from("users"));
    assert_eq!(resolver.api_name, String::from("users"));
}

#[test]
fn request_ids_have_uuid_shape() {
    let a = generate_request_id();
    let b = generate_request_id();
    assert_eq!(a.len(), 36);
    assert_eq!(b.len(), 36);
    assert_ne!(a, b);
}

#[test]
fn durations_render_in_millis_or_micros() {
    assert_eq!(format_duration(1_500), String::from("1ms"));
    assert_eq!(format_duration(25_000), String::from("25ms"));
    assert_eq!(format_duration(500), String::from("500μs"));
    assert_eq!(format_duration(0), String::from("0μs"));
}

#[test]
fn sanitize_strips_comments_and_blank_lines() {
    let raw = "  query {\n\n  # a comment\n  user(id: 1) { name }  \n}\n";
    assert_eq!(sanitize_query(raw), String::from("query { user(id: 1) { name } }"));
}

#[test]
fn sanitize_of_empty_text_is_empty() {
    assert_eq!(sanitize_query(""), String::new());
    assert_eq!(sanitize_query("  \n # only a comment\n"), String::new());
}

#[test]
fn graphql_sanitizer_matches_plain_one() {
    let raw = "a\n# c\n b ";
    assert_eq!(sanitize_graphql_query(raw), String::from("a b"));
    assert_eq!(sanitize_graphql_query(raw), sanitize_query(raw));
}

#[test]
fn small_query_complexity_is_exact() {
    // one '{' doubled, plus five whitespace-separated tokens
    let c = validate_query_complexity("query { a b }").unwrap();
    assert_eq!(c, 7);
}

#[test]
fn oversized_query_is_refused_with_its_complexity() {
    let mut q = String::new();
    for _ in 0..60 {
        q.push_str("{ ");
    }
    match validate_query_complexity(&q) {
        Err(RustQLError::GraphQL(m)) => {
            assert_eq!(m, String::from("Query too complex: 180 (max: 100)"));
        }
        _ => panic!("a 180-point query must be refused"),
    }
}

#[test]
fn error_codes_and_statuses_match() {
    let e = RustQLError::RateLimit(String::from("slow down"));
    assert_eq!(e.status_code(), 429);
    assert_eq!(e.error_code(), "RATE_LIMIT_EXCEEDED");
    let e = RustQLError::Validation(String::from("bad"));
    assert_eq!(e.status_code(), 400);
    assert_eq!(e.error_code(), "VALIDATION_ERROR");
    let e = RustQLError::RestApi { message: String::from("m"), status: 503 };
    assert_eq!(e.status_code(), 503);
    assert_eq!(e.error_code(), "REST_API_ERROR");
    let e = RustQLError::Network(String::from("refused"));
    assert_eq!(e.status_code(), 502);
    assert_eq!(e.error_code(), "NETWORK_ERROR");
    let e = RustQLError::Auth(String::from("no"));
    assert_eq!(e.status_code(), 401);
    let e = RustQLError::Config(String::from("c"));
    assert_eq!(e.status_code(), 500);
    assert_eq!(e.error_code(), "CONFIG_ERROR");
    let e = RustQLError::GraphQL(String::from("g"));
    assert_eq!(e.status_code(), 400);
    let e = RustQLError::Cache(String::from("c"));
    assert_eq!(e.error_code(), "CACHE_ERROR");
    let e = RustQLError::Internal(String::from("i"));
    assert_eq!(e.status_code(), 500);
    let e = RustQLError::Json(String::from("j"));
    assert_eq!(e.error_code(), "JSON_PARSE_ERROR");
    let e = RustQLError::Redis(String::from("r"));
    assert_eq!(e.status_code(), 500);
    let e = RustQLError::Io(String::from("io"));
    assert_eq!(e.error_code(), "IO_ERROR");
}
