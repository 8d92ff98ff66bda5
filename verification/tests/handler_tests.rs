use rust_router::create_production_proxy;
use rust_router::create_proxy;
use rust_router::handler::cache_key_for;
use rust_router::handler::error_body;
use rust_router::handler::MiddlewareStage;
use rust_router::handler::PipelineVerdict;
use rust_router::handler::ProxyBuilder;
use rust_router::middleware::CacheMiddleware;
use rust_router::middleware::HeaderTransform;
use rust_router::middleware::LoggingMiddleware;
use rust_router::middleware::RateLimiter;
use rust_router::types::CacheConfig;
use rust_router::types::ErrorKind;
use rust_router::types::ProxyError;
use rust_router::types::ProxyResponse;

#[test]
fn test_basic_proxy() {
    let mut handler = create_proxy();
    let r = handler.process_request("GET", "/api/test", Vec::new(), Vec::new(), 0);
    match r.unwrap() {
        PipelineVerdict::Forward(req, key) => {
            assert_eq!(req.destination, "http://localhost:3000/api/test");
            assert_eq!(key, "GET:http://localhost:3000/api/test");
        },
        PipelineVerdict::Cached(_) => panic!("nothing was cached"),
    }
}

#[test]
fn test_middleware_chain() {
    let mut handler = ProxyBuilder::new()
        .with_middleware(MiddlewareStage::Logging(LoggingMiddleware::new("test")))
        .build();
    let r = handler.process_request("GET", "/api/test", Vec::new(), Vec::new(), 0);
    assert!(r.is_ok());
}

#[test]
fn test_transform() {
    let mut headers = Vec::new();
    headers.push(("X-Test".to_string(), "test-value".to_string()));
    let mut handler = ProxyBuilder::new()
        .with_transform(HeaderTransform::new(headers.clone(), Vec::new()))
        .build();
    let r = handler.process_request("GET", "/api/test", Vec::new(), Vec::new(), 0);
    match r.unwrap() {
        PipelineVerdict::Forward(req, _) => {
            assert!(req.headers.contains(&("X-Test".to_string(), "test-value".to_string())));
        },
        PipelineVerdict::Cached(_) => panic!("nothing was cached"),
    }
}

#[test]
fn pipeline_rejects_fourth_request_in_window() {
    let mut handler = ProxyBuilder::new()
        .with_middleware(MiddlewareStage::RateLimit(RateLimiter::new(60, 3)))
        .build();
    let hs = vec![("x-forwarded-for".to_string(), "1.2.3.4".to_string())];
    for now in [0u64, 1, 2] {
        let r = handler.process_request("GET", "/api/test", hs.clone(), Vec::new(), now);
        assert!(matches!(r, Ok(PipelineVerdict::Forward(_, _))));
    }
    let r = handler.process_request("GET", "/api/test", hs.clone(), Vec::new(), 3);
    assert!(matches!(r, Err(ProxyError::RateLimitExceeded(_))));
    // absent the client header, the shared bucket is charged independently
    let r2 = handler.process_request("GET", "/api/test", Vec::new(), Vec::new(), 3);
    assert!(matches!(r2, Ok(PipelineVerdict::Forward(_, _))));
}

#[test]
fn pipeline_serves_stored_response_until_expiry() {
    let mut handler = ProxyBuilder::new()
        .with_middleware(MiddlewareStage::Cache(CacheMiddleware::new(1)))
        .build();
    let r = handler.process_request("GET", "/api/data", Vec::new(), Vec::new(), 10);
    let (req, key) = match r.unwrap() {
        PipelineVerdict::Forward(req, key) => (req, key),
        PipelineVerdict::Cached(_) => panic!("the cache starts empty"),
    };
    let response = ProxyResponse { status: 200, headers: Vec::new(), body: b"fresh".to_vec() };
    handler.finish_response(&req, key.as_str(), response, 10);
    // an immediate repeat is answered from the cache
    let hit = handler.process_request("GET", "/api/data", Vec::new(), Vec::new(), 10);
    assert!(matches!(hit, Ok(PipelineVerdict::Cached(p)) if p == b"fresh".to_vec()));
    // past the TTL the entry reads as absent
    let miss = handler.process_request("GET", "/api/data", Vec::new(), Vec::new(), 12);
    assert!(matches!(miss, Ok(PipelineVerdict::Forward(_, _))));
    // a POST to the same URI bypasses the cache entirely
    let post = handler.process_request("POST", "/api/data", Vec::new(), Vec::new(), 10);
    assert!(matches!(post, Ok(PipelineVerdict::Forward(_, _))));
}

#[test]
fn pipeline_applies_route_and_global_transforms_in_order() {
    // the route's rules apply first, the global transform after them, so
    // the global policy wins the overlapping name and sees route values
    let route_rules = vec![
        ("X-Proxy".to_string(), "route".to_string()),
        ("X-Route".to_string(), "yes".to_string()),
    ];
    let after_route = HeaderTransform::apply_headers(&Vec::new(), &route_rules);
    let globals = vec![("X-Proxy".to_string(), "global".to_string())];
    let after_global = HeaderTransform::apply_headers(&after_route, &globals);
    assert_eq!(
        after_global,
        vec![
            ("X-Proxy".to_string(), "global".to_string()),
            ("X-Route".to_string(), "yes".to_string()),
        ]
    );
    // end to end, a global transform reaches the forwarded request
    let mut handler = ProxyBuilder::new()
        .with_transform(HeaderTransform::new(
            vec![("X-Proxy".to_string(), "global".to_string())],
            Vec::new(),
        ))
        .build();
    let r = handler.process_request("GET", "/api/svc", Vec::new(), Vec::new(), 0);
    match r.unwrap() {
        PipelineVerdict::Forward(req, _) => {
            assert!(req.headers.contains(&("X-Proxy".to_string(), "global".to_string())));
        },
        PipelineVerdict::Cached(_) => panic!("nothing was cached"),
    }
}

#[test]
fn finish_response_applies_response_rules() {
    let mut rules = Vec::new();
    rules.push(("X-Resp".to_string(), "v".to_string()));
    let mut handler = ProxyBuilder::new()
        .with_transform(HeaderTransform::new(Vec::new(), rules))
        .build();
    let (req, key) = match handler
        .process_request("POST", "/api/x", Vec::new(), Vec::new(), 0)
        .unwrap()
    {
        PipelineVerdict::Forward(req, key) => (req, key),
        PipelineVerdict::Cached(_) => panic!("nothing was cached"),
    };
    let response = ProxyResponse { status: 201, headers: Vec::new(), body: b"b".to_vec() };
    let out = handler.finish_response(&req, key.as_str(), response, 0);
    assert_eq!(out.status, 201);
    assert_eq!(out.body, b"b".to_vec());
    assert_eq!(out.headers, vec![("X-Resp".to_string(), "v".to_string())]);
}

#[test]
fn cache_key_extends_with_vary_by_fields() {
    let cache = Some(CacheConfig {
        ttl_seconds: 5,
        vary_by: vec!["x-user".to_string(), "x-region".to_string()],
    });
    let headers = vec![("x-user".to_string(), "u1".to_string())];
    let key = cache_key_for("GET", "http://h/x", &cache, &headers);
    assert_eq!(key, "GET:http://h/x:x-user=u1:x-region=");
    let plain = cache_key_for("GET", "http://h/x", &None, &headers);
    assert_eq!(plain, "GET:http://h/x");
}

#[test]
fn errors_map_to_status_and_json_body() {
    let handler = create_proxy();
    let cases = [
        (ProxyError::InvalidPath("m".to_string()), 400),
        (ProxyError::InvalidUri("m".to_string()), 400),
        (ProxyError::InvalidDecorator("m".to_string()), 400),
        (ProxyError::RateLimitExceeded("m".to_string()), 429),
        (ProxyError::RequestBuildError("m".to_string()), 500),
        (ProxyError::ForwardError("m".to_string()), 502),
        (ProxyError::Timeout("m".to_string(), 30), 504),
        (ProxyError::MiddlewareError("m".to_string()), 500),
        (ProxyError::TransformError("m".to_string()), 500),
    ];
    for (e, status) in cases {
        let (s, _) = handler.handle_error(&e, "2020-01-01T00:00:00Z");
        assert_eq!(s, status);
    }
}

#[test]
fn error_body_is_exact_json() {
    let body = error_body(ErrorKind::InvalidPath, "2020-01-01T00:00:00Z");
    assert_eq!(
        body,
        "{\"error\": \"Invalid request path\", \"code\": 400, \"timestamp\": \"2020-01-01T00:00:00Z\"}"
    );
    let body2 = error_body(ErrorKind::RateLimitExceeded, "t");
    assert_eq!(body2, "{\"error\": \"Rate limit exceeded\", \"code\": 429, \"timestamp\": \"t\"}");
}

#[test]
fn route_middleware_registry_runs_registered_stages() {
    let mut handler = ProxyBuilder::new().build();
    handler.register_middleware(
        "throttle",
        MiddlewareStage::RateLimit(RateLimiter::new(60, 1)),
    );
    let names = rust_router::parser::parse_middleware(
        "x(middleware = [\"throttle\", \"nope\"])",
    )
    .unwrap();
    // the registered stage runs; the unknown name is skipped, not fatal
    let first = handler.apply_route_stages(&names, &Vec::new(), "GET", "GET:http://h/x", 0);
    assert!(matches!(first, Ok(None)));
    let second = handler.apply_route_stages(&names, &Vec::new(), "GET", "GET:http://h/x", 1);
    assert!(matches!(second, Err(ProxyError::RateLimitExceeded(_))));
    // a list of only unknown names passes and changes nothing
    let unknown = vec!["nope".to_string()];
    let third = handler.apply_route_stages(&unknown, &Vec::new(), "GET", "GET:http://h/x", 2);
    assert!(matches!(third, Ok(None)));
}

#[test]
fn registry_cache_stage_serves_hits() {
    let mut handler = ProxyBuilder::new().build();
    let mut cache = CacheMiddleware::new(60);
    cache.store("GET", "GET:http://h/x", b"stored".to_vec(), 0);
    handler.register_middleware("cached", MiddlewareStage::Cache(cache));
    let names = vec!["cached".to_string()];
    let hit = handler.apply_route_stages(&names, &Vec::new(), "GET", "GET:http://h/x", 0);
    assert!(matches!(hit, Ok(Some(p)) if p == b"stored".to_vec()));
    let miss = handler.apply_route_stages(&names, &Vec::new(), "GET", "GET:http://h/y", 0);
    assert!(matches!(miss, Ok(None)));
}

#[test]
fn header_transform_drops_invalid_names_at_construction() {
    let t = HeaderTransform::new(
        vec![
            ("bad name".to_string(), "v".to_string()),
            ("X-Ok".to_string(), "v".to_string()),
        ],
        vec![("also bad\u{7f}".to_string(), "w".to_string())],
    );
    assert_eq!(t.request_headers, vec![("X-Ok".to_string(), "v".to_string())]);
    assert!(t.response_headers.is_empty());
}

#[test]
fn stats_reports_pool_and_stage_occupancy() {
    let mut handler = create_production_proxy();
    let s = handler.stats();
    assert_eq!(s.pool.available_connections, 100);
    assert_eq!(s.pool.max_connections, 100);
    assert_eq!(s.rate_limit_keys, Some(0));
    assert_eq!(s.cache_entries, Some(0));
    // one admitted request charges one limiter key
    let r = handler.process_request("GET", "/api/test", Vec::new(), Vec::new(), 0);
    assert!(r.is_ok());
    let s2 = handler.stats();
    assert_eq!(s2.rate_limit_keys, Some(1));
}

#[test]
fn production_proxy_has_expected_stages() {
    let h = create_production_proxy();
    assert_eq!(h.config.pool_size, 100);
    assert_eq!(h.config.pool_timeout_secs, 30);
    assert_eq!(h.middleware.len(), 3);
    assert_eq!(h.transforms.len(), 1);
    assert!(matches!(&h.middleware[0], MiddlewareStage::Logging(_)));
    assert!(matches!(&h.middleware[1], MiddlewareStage::RateLimit(_)));
    assert!(matches!(&h.middleware[2], MiddlewareStage::Cache(_)));
}
