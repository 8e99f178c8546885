//! The gateway's error taxonomy, with its mapping to HTTP status codes and
//! machine-readable error codes.

use vstd::prelude::*;

verus! {

/// Every failure the gateway reports, each carrying a human-readable detail.
/// Failures that arise in outside collaborators (network, JSON decoding,
/// storage, I/O) are carried as their rendered messages.
#[derive(Debug)]
pub enum RustQLError {
    Config(String),
    GraphQL(String),
    RestApi { message: String, status: u16 },
    Cache(String),
    RateLimit(String),
    Auth(String),
    Validation(String),
    Internal(String),
    Network(String),
    Json(String),
    Redis(String),
    Io(String),
}

impl RustQLError {
    /// The HTTP status code a response for this error carries.
    pub open spec fn spec_status_code(&self) -> u16 {
        match self {
            RustQLError::Config(_) => 500,
            RustQLError::GraphQL(_) => 400,
            RustQLError::RestApi { status, .. } => *status,
            RustQLError::Cache(_) => 500,
            RustQLError::RateLimit(_) => 429,
            RustQLError::Auth(_) => 401,
            RustQLError::Validation(_) => 400,
            RustQLError::Internal(_) => 500,
            RustQLError::Network(_) => 502,
            RustQLError::Json(_) => 400,
            RustQLError::Redis(_) => 500,
            RustQLError::Io(_) => 500,
        }
    }

    pub fn status_code(&self) -> (code: u16)
        ensures
            code == self.spec_status_code(),
    {
        match self {
            RustQLError::Config(_) => 500,
            RustQLError::GraphQL(_) => 400,
            RustQLError::RestApi { status, .. } => *status,
            RustQLError::Cache(_) => 500,
            RustQLError::RateLimit(_) => 429,
            RustQLError::Auth(_) => 401,
            RustQLError::Validation(_) => 400,
            RustQLError::Internal(_) => 500,
            RustQLError::Network(_) => 502,
            RustQLError::Json(_) => 400,
            RustQLError::Redis(_) => 500,
            RustQLError::Io(_) => 500,
        }
    }

    pub fn error_code(&self) -> (code: &'static str)
        ensures
            code@ == self.spec_error_code(),
    {
        match self {
            RustQLError::Config(_) => "CONFIG_ERROR",
            RustQLError::GraphQL(_) => "GRAPHQL_ERROR",
            RustQLError::RestApi { .. } => "REST_API_ERROR",
            RustQLError::Cache(_) => "CACHE_ERROR",
            RustQLError::RateLimit(_) => "RATE_LIMIT_EXCEEDED",
            RustQLError::Auth(_) => "AUTHENTICATION_ERROR",
            RustQLError::Validation(_) => "VALIDATION_ERROR",
            RustQLError::Internal(_) => "INTERNAL_ERROR",
            RustQLError::Network(_) => "NETWORK_ERROR",
            RustQLError::Json(_) => "JSON_PARSE_ERROR",
            RustQLError::Redis(_) => "REDIS_ERROR",
            RustQLError::Io(_) => "IO_ERROR",
        }
    }

    /// The machine-readable code a response for this error carries.
    pub open spec fn spec_error_code(&self) -> Seq<char> {
        match self {
            RustQLError::Config(_) => "CONFIG_ERROR"@,
            RustQLError::GraphQL(_) => "GRAPHQL_ERROR"@,
            RustQLError::RestApi { .. } => "REST_API_ERROR"@,
            RustQLError::Cache(_) => "CACHE_ERROR"@,
            RustQLError::RateLimit(_) => "RATE_LIMIT_EXCEEDED"@,
            RustQLError::Auth(_) => "AUTHENTICATION_ERROR"@,
            RustQLError::Validation(_) => "VALIDATION_ERROR"@,
            RustQLError::Internal(_) => "INTERNAL_ERROR"@,
            RustQLError::Network(_) => "NETWORK_ERROR"@,
            RustQLError::Json(_) => "JSON_PARSE_ERROR"@,
            RustQLError::Redis(_) => "REDIS_ERROR"@,
            RustQLError::Io(_) => "IO_ERROR"@,
        }
    }
}

} // verus!
