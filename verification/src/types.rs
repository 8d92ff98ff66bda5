//! Data model of the gateway: errors, route policy, requests and responses.

use vstd::prelude::*;

verus! {

/// Failure taxonomy of the gateway.  The `String` payload carries a free-form
/// diagnostic message; contracts speak only of the variant, through
/// [`ErrorKind`].
#[derive(Debug, Clone, PartialEq, Eq)]
pub enum ProxyError {
    /// The request path does not start with the API prefix.
    InvalidPath(String),
    /// The forwarding destination is not a well-formed URI.
    InvalidUri(String),
    /// A policy directive in the path carries a malformed payload.
    InvalidDecorator(String),
    /// The sliding-window rate limiter rejected the request.
    RateLimitExceeded(String),
    /// The outbound request could not be constructed.
    RequestBuildError(String),
    /// Transport-level forwarding failure after the retry budget ran out.
    ForwardError(String),
    /// A forwarding attempt exceeded the configured deadline; the second
    /// field carries that deadline, in seconds.
    Timeout(String, u64),
    /// A middleware stage failed.
    MiddlewareError(String),
    /// A transform stage failed.
    TransformError(String),
}

/// The variant of a [`ProxyError`], without its message.
#[derive(Debug, Clone, Copy, PartialEq, Eq, Structural)]
pub enum ErrorKind {
    InvalidPath,
    InvalidUri,
    InvalidDecorator,
    RateLimitExceeded,
    RequestBuildError,
    ForwardError,
    Timeout,
    MiddlewareError,
    TransformError,
}

impl ProxyError {
    /// The variant of this error, as a spec value.
    pub open spec fn spec_kind(&self) -> ErrorKind {
        match self {
            ProxyError::InvalidPath(_) => ErrorKind::InvalidPath,
            ProxyError::InvalidUri(_) => ErrorKind::InvalidUri,
            ProxyError::InvalidDecorator(_) => ErrorKind::InvalidDecorator,
            ProxyError::RateLimitExceeded(_) => ErrorKind::RateLimitExceeded,
            ProxyError::RequestBuildError(_) => ErrorKind::RequestBuildError,
            ProxyError::ForwardError(_) => ErrorKind::ForwardError,
            ProxyError::Timeout(_, _) => ErrorKind::Timeout,
            ProxyError::MiddlewareError(_) => ErrorKind::MiddlewareError,
            ProxyError::TransformError(_) => ErrorKind::TransformError,
        }
    }

    /// The variant of this error.
    pub fn kind(&self) -> (k: ErrorKind)
        ensures
            k == self.spec_kind(),
    {
        match self {
            ProxyError::InvalidPath(_) => ErrorKind::InvalidPath,
            ProxyError::InvalidUri(_) => ErrorKind::InvalidUri,
            ProxyError::InvalidDecorator(_) => ErrorKind::InvalidDecorator,
            ProxyError::RateLimitExceeded(_) => ErrorKind::RateLimitExceeded,
            ProxyError::RequestBuildError(_) => ErrorKind::RequestBuildError,
            ProxyError::ForwardError(_) => ErrorKind::ForwardError,
            ProxyError::Timeout(_, _) => ErrorKind::Timeout,
            ProxyError::MiddlewareError(_) => ErrorKind::MiddlewareError,
            ProxyError::TransformError(_) => ErrorKind::TransformError,
        }
    }
}

/// The HTTP status that each error kind maps to, at spec level.
pub open spec fn spec_status_for(k: ErrorKind) -> u16 {
    match k {
        ErrorKind::InvalidPath => 400u16,
        ErrorKind::InvalidUri => 400u16,
        ErrorKind::InvalidDecorator => 400u16,
        ErrorKind::RateLimitExceeded => 429u16,
        ErrorKind::RequestBuildError => 500u16,
        ErrorKind::ForwardError => 502u16,
        ErrorKind::Timeout => 504u16,
        ErrorKind::MiddlewareError => 500u16,
        ErrorKind::TransformError => 500u16,
    }
}

/// The HTTP status that each error kind maps to.
pub fn status_for(k: ErrorKind) -> (s: u16)
    ensures
        s == spec_status_for(k),
{
    match k {
        ErrorKind::InvalidPath => 400,
        ErrorKind::InvalidUri => 400,
        ErrorKind::InvalidDecorator => 400,
        ErrorKind::RateLimitExceeded => 429,
        ErrorKind::RequestBuildError => 500,
        ErrorKind::ForwardError => 502,
        ErrorKind::Timeout => 504,
        ErrorKind::MiddlewareError => 500,
        ErrorKind::TransformError => 500,
    }
}

/// Outcome type of the gateway's fallible operations.
pub type ProxyResult<T> = Result<T, ProxyError>;

/// An HTTP method, kept as its token ("GET", "POST", ...).
#[derive(Debug, Clone, PartialEq, Eq)]
pub struct SerializableMethod {
    pub name: String,
}

impl View for SerializableMethod {
    type V = Seq<char>;

    open spec fn view(&self) -> Seq<char> {
        self.name@
    }
}

impl DeepView for SerializableMethod {
    type V = Seq<char>;

    open spec fn deep_view(&self) -> Seq<char> {
        self.name@
    }
}

impl SerializableMethod {
    /// Wraps a method token.
    pub fn new(name: &str) -> (r: SerializableMethod)
        ensures
            r@ == name@,
    {
        SerializableMethod { name: name.to_owned() }
    }

    /// The method token as a string slice.
    pub fn as_str(&self) -> (r: &str)
        ensures
            r@ == self@,
    {
        self.name.as_str()
    }

    /// Whether this is the GET method.
    pub fn is_get(&self) -> (r: bool)
        ensures
            r == (self@ == "GET"@),
    {
        crate::strutil::str_eq(self.name.as_str(), "GET")
    }
}

/// One side of a transform rule set: header rewrites, query-parameter
/// rewrites, and an optional body rule kept as its JSON text.
#[derive(Debug, Clone, PartialEq, Eq)]
pub struct TransformRules {
    pub headers: Vec<(String, String)>,
    pub query: Vec<(String, String)>,
    pub body: Option<String>,
}

/// Spec view of [`TransformRules`].
#[verifier::ext_equal]
pub struct TransformRulesV {
    pub headers: Seq<(Seq<char>, Seq<char>)>,
    pub query: Seq<(Seq<char>, Seq<char>)>,
    pub body: Option<Seq<char>>,
}

impl View for TransformRules {
    type V = TransformRulesV;

    open spec fn view(&self) -> TransformRulesV {
        TransformRulesV {
            headers: self.headers.deep_view(),
            query: self.query.deep_view(),
            body: self.body.deep_view(),
        }
    }
}

impl DeepView for TransformRules {
    type V = TransformRulesV;

    open spec fn deep_view(&self) -> TransformRulesV {
        self.view()
    }
}

/// Declarative request- and response-side transform rules of a route.
#[derive(Debug, Clone, PartialEq, Eq)]
pub struct TransformConfig {
    pub request: Option<TransformRules>,
    pub response: Option<TransformRules>,
}

/// Spec view of [`TransformConfig`].
#[verifier::ext_equal]
pub struct TransformConfigV {
    pub request: Option<TransformRulesV>,
    pub response: Option<TransformRulesV>,
}

impl View for TransformConfig {
    type V = TransformConfigV;

    open spec fn view(&self) -> TransformConfigV {
        TransformConfigV { request: self.request.deep_view(), response: self.response.deep_view() }
    }
}

impl DeepView for TransformConfig {
    type V = TransformConfigV;

    open spec fn deep_view(&self) -> TransformConfigV {
        self.view()
    }
}

impl TransformConfig {
    /// A transform configuration with no rules on either side.
    pub fn none() -> (r: TransformConfig)
        ensures
            r@.request is None,
            r@.response is None,
    {
        TransformConfig { request: None, response: None }
    }
}

/// Caching policy of a route: time-to-live and the names whose values join
/// the cache key.
#[derive(Debug, Clone, PartialEq, Eq)]
pub struct CacheConfig {
    pub ttl_seconds: u64,
    pub vary_by: Vec<String>,
}

/// Spec view of [`CacheConfig`].
#[verifier::ext_equal]
pub struct CacheConfigV {
    pub ttl_seconds: u64,
    pub vary_by: Seq<Seq<char>>,
}

impl View for CacheConfig {
    type V = CacheConfigV;

    open spec fn view(&self) -> CacheConfigV {
        CacheConfigV { ttl_seconds: self.ttl_seconds, vary_by: self.vary_by.deep_view() }
    }
}

impl DeepView for CacheConfig {
    type V = CacheConfigV;

    open spec fn deep_view(&self) -> CacheConfigV {
        self.view()
    }
}

/// Rate-limiting intent declared by a route.
#[derive(Debug, Clone, Copy, PartialEq, Eq, Structural)]
pub struct RateLimitConfig {
    pub requests_per_second: u32,
    pub burst: u32,
}

/// Parameters extracted from a path template: named values and an optional
/// wildcard capture.
#[derive(Debug, Clone, PartialEq, Eq)]
pub struct PathParams {
    pub params: Vec<(String, String)>,
    pub wildcard: Option<String>,
}

/// Spec view of [`PathParams`].
#[verifier::ext_equal]
pub struct PathParamsV {
    pub params: Seq<(Seq<char>, Seq<char>)>,
    pub wildcard: Option<Seq<char>>,
}

impl View for PathParams {
    type V = PathParamsV;

    open spec fn view(&self) -> PathParamsV {
        PathParamsV { params: self.params.deep_view(), wildcard: self.wildcard.deep_view() }
    }
}

impl DeepView for PathParams {
    type V = PathParamsV;

    open spec fn deep_view(&self) -> PathParamsV {
        self.view()
    }
}

/// Route policy read out of a request path: method, the path itself, the
/// declared middleware names, transform rules, and optional cache and
/// rate-limit policy.
#[derive(Debug, Clone, PartialEq, Eq)]
pub struct RouteConfig {
    pub method_wrapper: SerializableMethod,
    pub path: String,
    pub middleware: Vec<String>,
    pub transforms: TransformConfig,
    pub cache: Option<CacheConfig>,
    pub rate_limit: Option<RateLimitConfig>,
}

/// Spec view of [`RouteConfig`].
#[verifier::ext_equal]
pub struct RouteConfigV {
    pub method: Seq<char>,
    pub path: Seq<char>,
    pub middleware: Seq<Seq<char>>,
    pub transforms: TransformConfigV,
    pub cache: Option<CacheConfigV>,
    pub rate_limit: Option<RateLimitConfig>,
}

impl View for RouteConfig {
    type V = RouteConfigV;

    open spec fn view(&self) -> RouteConfigV {
        RouteConfigV {
            method: self.method_wrapper@,
            path: self.path@,
            middleware: self.middleware.deep_view(),
            transforms: self.transforms@,
            cache: self.cache.deep_view(),
            rate_limit: self.rate_limit,
        }
    }
}

impl RouteConfig {
    /// The route's method.
    pub fn method(&self) -> (r: &SerializableMethod)
        ensures
            r@ == self@.method,
    {
        &self.method_wrapper
    }
}

/// A request travelling through the pipeline, reduced to plain values.
#[derive(Debug, Clone, PartialEq, Eq)]
pub struct ProxyRequest {
    pub method: SerializableMethod,
    pub headers: Vec<(String, String)>,
    pub body: Vec<u8>,
    pub destination: String,
    pub original_path: String,
    pub route_config: Option<RouteConfig>,
    pub path_params: Option<PathParams>,
}

/// Spec view of [`ProxyRequest`].
#[verifier::ext_equal]
pub struct ProxyRequestV {
    pub method: Seq<char>,
    pub headers: Seq<(Seq<char>, Seq<char>)>,
    pub body: Seq<u8>,
    pub destination: Seq<char>,
    pub original_path: Seq<char>,
    pub route_config: Option<RouteConfigV>,
    pub path_params: Option<PathParamsV>,
}

impl View for ProxyRequest {
    type V = ProxyRequestV;

    open spec fn view(&self) -> ProxyRequestV {
        ProxyRequestV {
            method: self.method@,
            headers: self.headers.deep_view(),
            body: self.body@,
            destination: self.destination@,
            original_path: self.original_path@,
            route_config: match self.route_config {
                Some(c) => Some(c@),
                None => None,
            },
            path_params: match self.path_params {
                Some(p) => Some(p@),
                None => None,
            },
        }
    }
}

/// A response travelling back through the pipeline, reduced to plain
/// values.
#[derive(Debug, Clone, PartialEq, Eq)]
pub struct ProxyResponse {
    pub status: u16,
    pub headers: Vec<(String, String)>,
    pub body: Vec<u8>,
}

/// Spec view of [`ProxyResponse`].
#[verifier::ext_equal]
pub struct ProxyResponseV {
    pub status: u16,
    pub headers: Seq<(Seq<char>, Seq<char>)>,
    pub body: Seq<u8>,
}

impl View for ProxyResponse {
    type V = ProxyResponseV;

    open spec fn view(&self) -> ProxyResponseV {
        ProxyResponseV { status: self.status, headers: self.headers.deep_view(), body: self.body@ }
    }
}

/// Static configuration of the gateway: pool capacity, per-attempt timeout,
/// default transforms and the global middleware names.
#[derive(Debug, Clone)]
pub struct ProxyConfig {
    pub pool_size: u32,
    pub pool_timeout_secs: u64,
    pub default_transforms: Option<TransformConfig>,
    pub global_middleware: Vec<String>,
}

/// Spec view of [`ProxyConfig`].
#[verifier::ext_equal]
pub struct ProxyConfigV {
    pub pool_size: u32,
    pub pool_timeout_secs: u64,
    pub default_transforms: Option<TransformConfigV>,
    pub global_middleware: Seq<Seq<char>>,
}

impl View for ProxyConfig {
    type V = ProxyConfigV;

    open spec fn view(&self) -> ProxyConfigV {
        ProxyConfigV {
            pool_size: self.pool_size,
            pool_timeout_secs: self.pool_timeout_secs,
            default_transforms: match self.default_transforms {
                Some(t) => Some(t@),
                None => None,
            },
            global_middleware: self.global_middleware.deep_view(),
        }
    }
}

impl Default for ProxyConfig {
    /// The stock configuration: 32 pooled slots, a 60 second per-attempt
    /// timeout, no default transforms and no global middleware.
    fn default() -> (r: ProxyConfig)
        ensures
            r.pool_size == 32u32,
            r.pool_timeout_secs == 60u64,
            r.default_transforms is None,
            r.global_middleware.deep_view() == Seq::<Seq<char>>::empty(),
    {
        ProxyConfig {
            pool_size: 32,
            pool_timeout_secs: 60,
            default_transforms: None,
            global_middleware: Vec::new(),
        }
    }
}

/// A copy of a string list.
pub fn clone_string_vec(v: &Vec<String>) -> (r: Vec<String>)
    ensures
        r@ == v@,
{
    let mut out: Vec<String> = Vec::new();
    let mut i: usize = 0;
    while i < v.len()
        invariant
            i <= v@.len(),
            out@ == v@.take(i as int),
        decreases v@.len() - i,
    {
        out.push(v[i].clone());
        proof {
            assert(out@ =~= v@.take(i as int + 1));
        }
        i = i + 1;
    }
    proof {
        assert(v@.take(v@.len() as int) =~= v@);
    }
    out
}

/// A copy of a string-pair list.
pub fn clone_pair_vec(v: &Vec<(String, String)>) -> (r: Vec<(String, String)>)
    ensures
        r@ == v@,
{
    let mut out: Vec<(String, String)> = Vec::new();
    let mut i: usize = 0;
    while i < v.len()
        invariant
            i <= v@.len(),
            out@ == v@.take(i as int),
        decreases v@.len() - i,
    {
        out.push((v[i].0.clone(), v[i].1.clone()));
        proof {
            assert((v@[i as int].0, v@[i as int].1) == v@[i as int]);
            assert(out@ =~= v@.take(i as int + 1));
        }
        i = i + 1;
    }
    proof {
        assert(v@.take(v@.len() as int) =~= v@);
    }
    out
}

/// A copy of a rule set.
pub fn clone_rules(r: &TransformRules) -> (c: TransformRules)
    ensures
        c@ == r@,
{
    let c = TransformRules {
        headers: clone_pair_vec(&r.headers),
        query: clone_pair_vec(&r.query),
        body: match &r.body {
            Some(b) => Some(b.clone()),
            None => None,
        },
    };
    proof {
        assert(c@ =~~= r@);
    }
    c
}

/// A copy of a transform configuration.
pub fn clone_transform_config(t: &TransformConfig) -> (c: TransformConfig)
    ensures
        c@ == t@,
{
    let c = TransformConfig {
        request: match &t.request {
            Some(r) => Some(clone_rules(r)),
            None => None,
        },
        response: match &t.response {
            Some(r) => Some(clone_rules(r)),
            None => None,
        },
    };
    proof {
        assert(c@ =~~= t@);
    }
    c
}

/// A copy of a gateway configuration.
pub fn clone_config(c: &ProxyConfig) -> (r: ProxyConfig)
    ensures
        r@ == c@,
{
    let r = ProxyConfig {
        pool_size: c.pool_size,
        pool_timeout_secs: c.pool_timeout_secs,
        default_transforms: match &c.default_transforms {
            Some(t) => Some(clone_transform_config(t)),
            None => None,
        },
        global_middleware: clone_string_vec(&c.global_middleware),
    };
    proof {
        assert(r@ =~~= c@);
    }
    r
}

} // verus!
