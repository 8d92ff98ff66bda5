//! Core of an HTTP reverse-proxy gateway.
//!
//! The library parses routing and policy directives embedded in a request
//! path, applies a middleware/transform pipeline, and keeps the bookkeeping
//! for a pooled, retrying forwarder: per-host client reuse, bounded in-flight
//! slots, sliding-window rate limiting and a TTL response cache.  All network
//! I/O is left to the embedding program; the library works on plain values
//! and is verified.

use vstd::prelude::*;

pub mod decorator;
pub mod handler;
pub mod json;
pub mod middleware;
pub mod parser;
pub mod pool;
pub mod router;
pub mod strutil;
pub mod types;
pub mod validate;

pub use handler::MiddlewareStage;
pub use handler::PipelineVerdict;
pub use handler::ProxyBuilder;
pub use handler::RequestHandler;
pub use middleware::CacheMiddleware;
pub use middleware::HeaderTransform;
pub use middleware::LoggingMiddleware;
pub use middleware::RateLimiter;
pub use parser::RequestParser;
pub use pool::ProxyPool;
pub use pool::ProxyPoolMetrics;
pub use router::Router;
pub use types::CacheConfig;
pub use types::ErrorKind;
pub use types::PathParams;
pub use types::ProxyConfig;
pub use types::ProxyError;
pub use types::ProxyRequest;
pub use types::ProxyResponse;
pub use types::ProxyResult;
pub use types::RateLimitConfig;
pub use types::RouteConfig;
pub use types::SerializableMethod;
pub use types::TransformConfig;
pub use types::TransformRules;

verus! {

/// A proxy with default settings: the stock configuration and a logging
/// stage.
pub fn create_proxy() -> (h: handler::RequestHandler)
    ensures
        h.middleware@.len() == 1,
        h.middleware@[0] matches handler::MiddlewareStage::Logging(l) && l.prefix@ == "proxy"@,
        h.transforms@.len() == 0,
        h.config.pool_size == 32u32,
        h.config.pool_timeout_secs == 60u64,
{
    handler::create_basic_proxy()
}

/// A proxy with production settings: a larger pool, a shorter timeout,
/// logging, rate limiting, caching and a version response header.
pub fn create_production_proxy() -> (h: handler::RequestHandler)
    ensures
        h.config.pool_size == 100u32,
        h.config.pool_timeout_secs == 30u64,
        h.middleware@.len() == 3,
        h.transforms@.len() == 1,
{
    handler::create_production_proxy()
}

} // verus!
