//! Gateway configuration: the settings tree consumed at startup, and its
//! validation. Loading from the environment or a file happens outside the
//! library; the library receives the plain values.

use vstd::prelude::*;
use vstd::string::StrSliceExecFns;

verus! {

#[derive(Clone, Debug)]
pub struct ServerConfig {
    pub host: String,
    pub port: u16,
    pub workers: Option<usize>,
    pub max_connections: Option<usize>,
    pub request_timeout: Option<u64>,
    pub enable_playground: bool,
    pub cors_origins: Vec<String>,
}

#[derive(Clone, Debug)]
pub struct CacheConfig {
    pub redis_url: Option<String>,
    pub default_ttl: u64,
    pub max_size: String,
    pub enable_compression: bool,
}

#[derive(Clone, Debug)]
pub struct RateLimitConfig {
    pub requests_per_minute: u32,
    pub burst_size: u32,
    pub enable_per_ip: bool,
}

#[derive(Clone, Debug)]
pub struct RestApiConfig {
    pub name: String,
    pub base_url: String,
    pub schema_url: Option<String>,
    pub headers: Option<Vec<(String, String)>>,
    pub timeout: Option<u64>,
    pub retry_attempts: Option<u32>,
}

#[derive(Clone, Debug)]
pub struct ApisConfig {
    pub rest: Vec<RestApiConfig>,
}

#[derive(Clone, Debug)]
pub struct MonitoringConfig {
    pub enable_metrics: bool,
    pub enable_tracing: bool,
    pub metrics_port: u16,
    pub log_level: String,
}

/// The whole configuration tree.
#[derive(Clone, Debug)]
pub struct Settings {
    pub server: ServerConfig,
    pub cache: CacheConfig,
    pub rate_limiting: RateLimitConfig,
    pub apis: ApisConfig,
    pub monitoring: MonitoringConfig,
}

impl Settings {
    /// What validation accepts: a nonzero port, a nonzero rate ceiling, and
    /// no registered API with an empty base address.
    pub open spec fn spec_valid(self) -> bool {
        &&& self.server.port != 0
        &&& self.rate_limiting.requests_per_minute != 0
        &&& forall|i: int|
            0 <= i < self.apis.rest@.len() ==> (#[trigger] self.apis.rest@[i]).base_url@.len() > 0
    }

    /// Accepts exactly the configurations `spec_valid` describes; a refusal
    /// names the first check that failed.
    pub fn validate(&self) -> (r: Result<(), String>)
        ensures
            r is Ok <==> self.spec_valid(),
            self.server.port == 0 ==> (r matches Err(m) && m@ == "Server port cannot be 0"@),
            (self.server.port != 0 && self.rate_limiting.requests_per_minute == 0) ==> (r matches Err(
                m,
            ) && m@ == "Rate limit requests per minute cannot be 0"@),
            (self.server.port != 0 && self.rate_limiting.requests_per_minute != 0
                && !self.spec_valid()) ==> exists|i: int|
                {
                    &&& 0 <= i < self.apis.rest@.len()
                    &&& (#[trigger] self.apis.rest@[i]).base_url@.len() == 0
                    &&& forall|j: int| 0 <= j < i ==> self.apis.rest@[j].base_url@.len() > 0
                    &&& r matches Err(m) && m@ == "Base URL for API '"@ + self.apis.rest@[i].name@
                        + "' cannot be empty"@
                },
    {
        if self.server.port == 0 {
            return Err(String::from_str("Server port cannot be 0"));
        }
        if self.rate_limiting.requests_per_minute == 0 {
            return Err(String::from_str("Rate limit requests per minute cannot be 0"));
        }
        let n = self.apis.rest.len();
        let mut i: usize = 0;
        while i < n
            invariant
                n == self.apis.rest@.len(),
                i <= n,
                self.server.port != 0,
                self.rate_limiting.requests_per_minute != 0,
                forall|j: int| 0 <= j < i ==> (#[trigger] self.apis.rest@[j]).base_url@.len() > 0,
            decreases n - i,
        {
            if self.apis.rest[i].base_url.as_str().unicode_len() == 0 {
                let mut msg = String::from_str("Base URL for API '");
                msg.append(self.apis.rest[i].name.as_str());
                msg.append("' cannot be empty");
                return Err(msg);
            }
            i = i + 1;
        }
        Ok(())
    }
}

impl Default for Settings {
    /// The stock configuration: a gateway on port 8080 with a five-minute
    /// cache lifetime, a ceiling of a thousand calls per minute, and no
    /// upstreams registered yet.
    fn default() -> (r: Settings)
        ensures
            r.server.host@ == "0.0.0.0"@,
            r.server.port == 8080,
            r.server.workers is None,
            r.server.max_connections == Some(1000usize),
            r.server.request_timeout == Some(30u64),
            r.server.enable_playground,
            r.server.cors_origins@.len() == 1 && r.server.cors_origins@[0]@ == "*"@,
            r.cache.redis_url is None,
            r.cache.default_ttl == 300,
            r.cache.max_size@ == "100MB"@,
            r.cache.enable_compression,
            r.rate_limiting.requests_per_minute == 1000,
            r.rate_limiting.burst_size == 50,
            r.rate_limiting.enable_per_ip,
            r.apis.rest@.len() == 0,
            r.monitoring.enable_metrics,
            r.monitoring.enable_tracing,
            r.monitoring.metrics_port == 9090,
            r.monitoring.log_level@ == "info"@,
            r.spec_valid(),
    {
        let mut cors_origins: Vec<String> = Vec::new();
        cors_origins.push(String::from_str("*"));
        Settings {
            server: ServerConfig {
                host: String::from_str("0.0.0.0"),
                port: 8080,
                workers: None,
                max_connections: Some(1000),
                request_timeout: Some(30),
                enable_playground: true,
                cors_origins,
            },
            cache: CacheConfig {
                redis_url: None,
                default_ttl: 300,
                max_size: String::from_str("100MB"),
                enable_compression: true,
            },
            rate_limiting: RateLimitConfig {
                requests_per_minute: 1000,
                burst_size: 50,
                enable_per_ip: true,
            },
            apis: ApisConfig { rest: Vec::new() },
            monitoring: MonitoringConfig {
                enable_metrics: true,
                enable_tracing: true,
                metrics_port: 9090,
                log_level: String::from_str("info"),
            },
        }
    }
}

} // verus!
