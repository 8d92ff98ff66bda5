use rust_router::decorator::zap_destination;
use rust_router::middleware::CacheMiddleware;
use rust_router::middleware::HeaderTransform;
use rust_router::middleware::LoggingMiddleware;
use rust_router::middleware::RateLimiter;
use rust_router::pool::run_forward_plan;
use rust_router::pool::AttemptOutcome;
use rust_router::pool::ProxyPool;
use rust_router::router::RouteKind;
use rust_router::router::Router;
use rust_router::types::ProxyConfig;
use rust_router::types::ProxyError;
use rust_router::types::ProxyResponse;

#[test]
fn rate_limiter_boundary() {
    // window of 60 s, ceiling 3: three calls inside the window pass, the
    // fourth is rejected, and a call past the window passes again
    let mut limiter = RateLimiter::new(60, 3);
    assert!(limiter.allow("client", 0));
    assert!(limiter.allow("client", 10));
    assert!(limiter.allow("client", 20));
    assert!(!limiter.allow("client", 30));
    assert!(limiter.allow("client", 100));
}

#[test]
fn rate_limiter_keys_are_independent() {
    let mut limiter = RateLimiter::new(60, 1);
    assert!(limiter.allow("a", 0));
    assert!(limiter.allow("b", 0));
    assert!(!limiter.allow("a", 1));
}

#[test]
fn cache_ttl_expiry() {
    // an entry with a one-second TTL answers at once and is absent two
    // seconds later; non-GET requests never populate or read the cache
    let mut cache = CacheMiddleware::new(1);
    let key = CacheMiddleware::generate_cache_key("GET", "http://localhost:3000/api/a");
    cache.store("GET", key.as_str(), b"payload".to_vec(), 10);
    assert_eq!(cache.lookup("GET", key.as_str(), 10), Some(b"payload".to_vec()));
    assert_eq!(cache.lookup("GET", key.as_str(), 11), Some(b"payload".to_vec()));
    assert_eq!(cache.lookup("GET", key.as_str(), 12), None);
    let mut cache2 = CacheMiddleware::new(60);
    cache2.store("POST", key.as_str(), b"other".to_vec(), 10);
    assert_eq!(cache2.lookup("GET", key.as_str(), 10), None);
    cache2.store("GET", key.as_str(), b"other".to_vec(), 10);
    assert_eq!(cache2.lookup("POST", key.as_str(), 10), None);
}

#[test]
fn cache_key_joins_method_and_uri() {
    let key = CacheMiddleware::generate_cache_key("GET", "http://h/x");
    assert_eq!(key, "GET:http://h/x");
}

#[test]
fn header_transform_skips_invalid_value() {
    // a rule with an invalid header value is skipped while the other rules
    // in the same batch still apply
    let rules = vec![
        ("X-Good".to_string(), "ok".to_string()),
        ("X-Bad".to_string(), "bad\nvalue".to_string()),
        ("X-Also".to_string(), "fine".to_string()),
    ];
    let out = HeaderTransform::apply_headers(&Vec::new(), &rules);
    assert_eq!(
        out,
        vec![
            ("X-Good".to_string(), "ok".to_string()),
            ("X-Also".to_string(), "fine".to_string()),
        ]
    );
}

#[test]
fn header_transform_skips_invalid_name() {
    let rules = vec![
        ("bad name".to_string(), "v".to_string()),
        ("X-Ok".to_string(), "v".to_string()),
    ];
    let out = HeaderTransform::apply_headers(&Vec::new(), &rules);
    assert_eq!(out, vec![("X-Ok".to_string(), "v".to_string())]);
}

#[test]
fn header_transform_overwrites_existing() {
    let existing = vec![("X-A".to_string(), "old".to_string())];
    let rules = vec![("X-A".to_string(), "new".to_string())];
    let out = HeaderTransform::apply_headers(&existing, &rules);
    assert_eq!(out, vec![("X-A".to_string(), "new".to_string())]);
}

#[test]
fn pool_reuses_client_per_host() {
    // two sequential requests to one host reuse the same pooled entry; a
    // new host creates exactly one new entry
    let mut pool = ProxyPool::new(ProxyConfig::default());
    let (i1, created1) = pool.client_for("a.example");
    assert_eq!((i1, created1), (0, true));
    let (i2, created2) = pool.client_for("a.example");
    assert_eq!((i2, created2), (0, false));
    assert_eq!(pool.hosts.len(), 1);
    let (i3, created3) = pool.client_for("b.example");
    assert_eq!((i3, created3), (1, true));
    assert_eq!(pool.hosts.len(), 2);
}

#[test]
fn pool_bounds_in_flight_slots() {
    let config = ProxyConfig {
        pool_size: 2,
        pool_timeout_secs: 30,
        default_transforms: None,
        global_middleware: Vec::new(),
    };
    let mut pool = ProxyPool::new(config);
    assert!(pool.try_acquire());
    assert!(pool.try_acquire());
    assert!(!pool.try_acquire());
    let m = pool.get_metrics();
    assert_eq!(m.available_connections, 0);
    assert_eq!(m.max_connections, 2);
    pool.release();
    assert!(pool.try_acquire());
}

#[test]
fn retry_succeeds_after_two_transport_failures() {
    // a target that fails transport twice then answers yields the answer,
    // with the recorded backoff delays non-decreasing
    let response = ProxyResponse { status: 200, headers: Vec::new(), body: b"ok".to_vec() };
    let outcomes = vec![
        AttemptOutcome::TransportError("reset".to_string()),
        AttemptOutcome::TransportError("reset".to_string()),
        AttemptOutcome::Response(response),
    ];
    let (result, delays) = run_forward_plan(&outcomes, 30);
    let got = result.unwrap();
    assert_eq!(got.status, 200);
    assert_eq!(got.body, b"ok".to_vec());
    assert_eq!(delays, vec![100, 200]);
    for w in delays.windows(2) {
        assert!(w[0] <= w[1]);
    }
}

#[test]
fn retry_exhaustion_surfaces_forward_error() {
    let outcomes = vec![
        AttemptOutcome::TransportError("reset".to_string()),
        AttemptOutcome::TransportError("reset".to_string()),
        AttemptOutcome::TransportError("reset".to_string()),
        AttemptOutcome::TransportError("reset".to_string()),
        AttemptOutcome::TransportError("reset".to_string()),
    ];
    let (result, delays) = run_forward_plan(&outcomes, 30);
    assert!(matches!(result, Err(ProxyError::ForwardError(_))));
    assert_eq!(delays, vec![100, 200, 300]);
}

#[test]
fn timeout_surfaces_timeout_error() {
    let outcomes = vec![
        AttemptOutcome::TimedOut,
        AttemptOutcome::TimedOut,
        AttemptOutcome::TimedOut,
        AttemptOutcome::TimedOut,
    ];
    let (result, _) = run_forward_plan(&outcomes, 30);
    assert!(matches!(result, Err(ProxyError::Timeout(_, 30))));
}

#[test]
fn router_classifies_by_first_matching_arm() {
    let router = Router::new();
    assert_eq!(router.route_of("GET", "/api/data/1"), RouteKind::DataRetrieval);
    // the data prefix subsumes search paths: the first arm wins
    assert_eq!(router.route_of("GET", "/api/data/search/q"), RouteKind::DataRetrieval);
    assert_eq!(router.route_of("POST", "/api/data/process"), RouteKind::DataProcess);
    assert_eq!(router.route_of("GET", "/api/metrics/aggregate/day"), RouteKind::MetricsAggregate);
    assert_eq!(router.route_of("POST", "/api/events/analyze"), RouteKind::EventsAnalyze);
    assert_eq!(router.route_of("GET", "/elsewhere"), RouteKind::NotFound);
    assert_eq!(router.route_of("POST", "/api/data/other"), RouteKind::NotFound);
}

#[test]
fn zap_destination_strips_prefix_and_keeps_query() {
    let d = zap_destination("/@zap/example.com/path", Some("a=1")).unwrap();
    assert_eq!(d, "https://example.com/patha=1");
    let d2 = zap_destination("/@zap/example.com/path", None).unwrap();
    assert_eq!(d2, "https://example.com/path");
    let bad = zap_destination("/other", None);
    assert!(matches!(bad, Err(ProxyError::InvalidUri(_))));
}

#[test]
fn logging_line_carries_prefix_method_and_destination() {
    let req = rust_router::parser::RequestParser::parse("GET", "/api/test").unwrap();
    let logger = LoggingMiddleware::new("proxy");
    assert_eq!(logger.line(&req), "proxy GET http://localhost:3000/api/test");
}
