//! A gateway core that resolves field requests against upstream REST APIs:
//! per-client rate limiting over a sliding window, short-lived response
//! caching with expiry, and a timeout-bounded, retrying dispatcher, composed
//! into one per-request decision pipeline.

pub mod assoc;
pub mod cache;
pub mod config;
pub mod errors;
pub mod json;
pub mod pipeline;
pub mod rate_limit;
pub mod resolvers;
pub mod rest;
pub mod retry;
pub mod server;
pub mod strutil;
pub mod utils;

pub use config::Settings;
pub use errors::RustQLError;
pub use server::Server;
