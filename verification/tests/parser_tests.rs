use rust_router::parser::build_destination_uri;
use rust_router::parser::extract_path_params;
use rust_router::parser::parse_cache_config;
use rust_router::parser::parse_middleware;
use rust_router::parser::parse_rate_limit;
use rust_router::parser::parse_transforms;
use rust_router::parser::RequestParser;
use rust_router::types::PathParams;
use rust_router::types::ProxyError;

#[test]
fn parse_rejects_path_without_prefix() {
    let r = RequestParser::parse("GET", "/other/thing");
    assert!(matches!(r, Err(ProxyError::InvalidPath(_))));
}

#[test]
fn parse_plain_path_builds_destination() {
    let r = RequestParser::parse("GET", "/api/test").unwrap();
    assert_eq!(r.destination, "http://localhost:3000/api/test");
    assert_eq!(r.original_path, "test");
    assert_eq!(r.method.name, "GET");
    let cfg = r.route_config.unwrap();
    assert_eq!(cfg.method_wrapper.name, "GET");
    assert_eq!(cfg.path, "test");
    assert!(cfg.middleware.is_empty());
    assert!(cfg.cache.is_none());
    assert!(cfg.rate_limit.is_none());
}

#[test]
fn parse_is_deterministic() {
    let plain = RequestParser::parse("GET", "/api/users/[id]/detail").unwrap();
    let again = RequestParser::parse("GET", "/api/users/[id]/detail").unwrap();
    assert_eq!(plain.route_config, again.route_config);
    assert_eq!(plain.path_params, again.path_params);
    assert_eq!(plain.destination, again.destination);
    // a directive-bearing path reads the same policy out every time
    let path = "users(cache = {\"ttl_seconds\": 5, \"vary_by\": [\"h\"]})(rateLimit = {\"requests_per_second\": 10, \"burst\": 2})";
    let a = RequestParser::parse_route_config("GET", path).unwrap();
    let b = RequestParser::parse_route_config("GET", path).unwrap();
    assert_eq!(a, b);
    let cache = a.0.cache.unwrap();
    assert_eq!(cache.ttl_seconds, 5);
    let rl = a.0.rate_limit.unwrap();
    assert_eq!((rl.requests_per_second, rl.burst), (10, 2));
}

#[test]
fn malformed_decorator_rejects_only_that_request() {
    let bad = RequestParser::parse("GET", "/api/test/transform(transform = {not valid json})");
    assert!(matches!(bad, Err(ProxyError::InvalidDecorator(_))));
    // an unrelated well-formed request still succeeds: nothing was corrupted
    let good = RequestParser::parse("GET", "/api/test");
    assert!(good.is_ok());
}

#[test]
fn parse_rejects_destination_that_is_no_uri() {
    // a space cannot stand in a URI, so the built destination is rejected
    let r = RequestParser::parse("GET", "/api/a b");
    assert!(matches!(r, Err(ProxyError::InvalidUri(_))));
}

#[test]
fn transform_body_rule_keeps_its_json_text() {
    let t = parse_transforms("x(transform = {\"request\": {\"body\": {\"k\": 1}}})").unwrap();
    let req = t.request.unwrap();
    assert_eq!(req.body, Some("{\"k\":1}".to_string()));
}

#[test]
fn cache_directive_parses() {
    let c = parse_cache_config("users(cache = {\"ttl_seconds\": 30, \"vary_by\": [\"x\", \"y\"]})")
        .unwrap()
        .unwrap();
    assert_eq!(c.ttl_seconds, 30);
    assert_eq!(c.vary_by, vec!["x".to_string(), "y".to_string()]);
}

#[test]
fn cache_directive_rejects_bad_shape() {
    let r = parse_cache_config("users(cache = {\"ttl_seconds\": \"soon\", \"vary_by\": []})");
    assert!(matches!(r, Err(ProxyError::InvalidDecorator(_))));
    let r2 = parse_cache_config("users(cache = {\"ttl_seconds\": 30})");
    assert!(matches!(r2, Err(ProxyError::InvalidDecorator(_))));
}

#[test]
fn rate_limit_directive_parses_and_checks_range() {
    let r = parse_rate_limit("x(rateLimit = {\"requests_per_second\": 10, \"burst\": 5})")
        .unwrap()
        .unwrap();
    assert_eq!(r.requests_per_second, 10);
    assert_eq!(r.burst, 5);
    let too_big = parse_rate_limit(
        "x(rateLimit = {\"requests_per_second\": 5000000000, \"burst\": 5})",
    );
    assert!(matches!(too_big, Err(ProxyError::InvalidDecorator(_))));
}

#[test]
fn middleware_directive_parses_names() {
    let names = parse_middleware("x(middleware = [\"auth\", \"log\"])").unwrap();
    assert_eq!(names, vec!["auth".to_string(), "log".to_string()]);
    let none = parse_middleware("x/no/directive").unwrap();
    assert!(none.is_empty());
    let bad = parse_middleware("x(middleware = [3])");
    assert!(matches!(bad, Err(ProxyError::InvalidDecorator(_))));
}

#[test]
fn transform_directive_parses_rules() {
    let t = parse_transforms(
        "x(transform = {\"request\": {\"headers\": {\"X-A\": \"1\"}, \"query\": {\"q\": \"v\"}}})",
    )
    .unwrap();
    let req = t.request.unwrap();
    assert_eq!(req.headers, vec![("X-A".to_string(), "1".to_string())]);
    assert_eq!(req.query, vec![("q".to_string(), "v".to_string())]);
    assert!(req.body.is_none());
    assert!(t.response.is_none());
}

#[test]
fn transform_directive_rejects_bad_rules() {
    let r = parse_transforms("x(transform = {\"request\": {\"headers\": {\"X-A\": 3}}})");
    assert!(matches!(r, Err(ProxyError::InvalidDecorator(_))));
}

#[test]
fn extract_params_collects_unique_names() {
    let p = extract_path_params("users/[id]/posts/[id]/[slug]");
    assert_eq!(
        p.params,
        vec![("id".to_string(), String::new()), ("slug".to_string(), String::new())]
    );
    assert!(p.wildcard.is_none());
}

#[test]
fn extract_params_finds_wildcard_name() {
    let p = extract_path_params("users/[id]/posts/[...rest]");
    assert_eq!(p.params, vec![("id".to_string(), String::new())]);
    assert_eq!(p.wildcard, Some("rest".to_string()));
}

#[test]
fn resolve_params_round_trip() {
    // the path-parameter round trip: template values are captured, and
    // substitution rebuilds a URI carrying them with the wildcard token gone
    let template = "/users/[id]/posts/[...rest]";
    let p = RequestParser::resolve_params(template, "/users/42/posts/a/b").unwrap();
    assert_eq!(p.params, vec![("id".to_string(), "42".to_string())]);
    assert_eq!(p.wildcard, Some("a/b".to_string()));
    let dest = build_destination_uri(template, &p).unwrap();
    assert_eq!(dest, "http://localhost:3000/api//users/42/posts/");
    assert!(dest.contains("42"));
    assert!(!dest.contains("[...rest]"));
}

#[test]
fn resolve_params_rejects_wrong_shape() {
    assert!(RequestParser::resolve_params("/users/[id]", "/posts/42").is_none());
    assert!(RequestParser::resolve_params("/users/[id]", "/users").is_none());
    assert!(RequestParser::resolve_params("/users/[id]", "/users/42/extra").is_none());
}

#[test]
fn destination_substitutes_parameter_values() {
    let params = PathParams {
        params: vec![("id".to_string(), "42".to_string())],
        wildcard: None,
    };
    let dest = build_destination_uri("users/[id]/detail", &params).unwrap();
    assert_eq!(dest, "http://localhost:3000/api/users/42/detail");
}
