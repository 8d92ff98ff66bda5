//! The request orchestrator: sequences parsing, admission (rate limit and
//! cache), header and query transforms, and maps every failure to a status
//! and a structured JSON error body.
//!
//! Forwarding itself is network work and belongs to the embedding program:
//! it calls [`RequestHandler::process_request`], performs the send when the
//! verdict says to forward, and hands the response back through
//! [`RequestHandler::finish_response`].

use vstd::prelude::*;

use crate::middleware::apply_rules;
use crate::middleware::assoc_lookup;
use crate::middleware::assoc_set;
use crate::middleware::entry_fresh;
use crate::middleware::header_get;
use crate::middleware::spec_allow;
use crate::middleware::CacheMiddleware;
use crate::middleware::HeaderTransform;
use crate::middleware::LoggingMiddleware;
use crate::middleware::RateLimiter;
use crate::parser::spec_parse;
use crate::parser::RequestParser;
use crate::pool::ProxyPool;
use crate::types::spec_status_for;
use crate::types::status_for;
use crate::types::ErrorKind;
use crate::types::ProxyConfig;
use crate::types::ProxyError;
use crate::types::ProxyRequest;
use crate::types::ProxyResponse;
use crate::types::TransformRulesV;

verus! {

/// Spec view of a [`RateLimiter`].
#[verifier::ext_equal]
pub struct RateLimiterV {
    pub window_secs: u64,
    pub max_requests: usize,
    pub entries: Seq<(Seq<char>, Seq<u64>)>,
}

impl View for RateLimiter {
    type V = RateLimiterV;

    open spec fn view(&self) -> RateLimiterV {
        RateLimiterV {
            window_secs: self.window_secs,
            max_requests: self.max_requests,
            entries: self.entries.deep_view(),
        }
    }
}

/// Spec view of a [`CacheMiddleware`].
#[verifier::ext_equal]
pub struct CacheV {
    pub ttl_secs: u64,
    pub entries: Seq<(Seq<char>, (Seq<u8>, u64))>,
}

impl View for CacheMiddleware {
    type V = CacheV;

    open spec fn view(&self) -> CacheV {
        CacheV { ttl_secs: self.ttl_secs, entries: self.entries.deep_view() }
    }
}

/// One stage of the global middleware chain.
#[derive(Debug, Clone, PartialEq, Eq)]
pub enum MiddlewareStage {
    /// Records a line per request; the sink is the embedding program's.
    Logging(LoggingMiddleware),
    /// Sliding-window admission control.
    RateLimit(RateLimiter),
    /// TTL response cache.
    Cache(CacheMiddleware),
}

/// Spec view of a [`MiddlewareStage`].
#[verifier::ext_equal]
pub enum StageV {
    Logging(Seq<char>),
    RateLimit(RateLimiterV),
    Cache(CacheV),
}

/// The view of one stage.
pub open spec fn stage_view(s: MiddlewareStage) -> StageV {
    match s {
        MiddlewareStage::Logging(l) => StageV::Logging(l.prefix@),
        MiddlewareStage::RateLimit(l) => StageV::RateLimit(l@),
        MiddlewareStage::Cache(c) => StageV::Cache(c@),
    }
}

/// The views of a stage list.
pub open spec fn stage_views(stages: Seq<MiddlewareStage>) -> Seq<StageV> {
    stages.map_values(|s: MiddlewareStage| stage_view(s))
}

/// A cache-key base extended by the vary-by fields from position `i` on:
/// each named request header's value is joined onto the key.
pub open spec fn spec_vary_key(
    base: Seq<char>,
    names: Seq<Seq<char>>,
    hdrs: Seq<(Seq<char>, Seq<char>)>,
    i: int,
) -> Seq<char>
    decreases names.len() - i,
{
    if i < 0 || i >= names.len() {
        base
    } else {
        spec_vary_key(
            base + ":"@ + names[i] + "="@ + (match assoc_lookup(hdrs, names[i]) {
                Some(v) => v,
                None => Seq::empty(),
            }),
            names,
            hdrs,
            i + 1,
        )
    }
}

/// The cache key of a request: method and full destination URI, extended
/// by the route's vary-by fields when a cache policy declares them.
pub open spec fn spec_cache_key(
    method: Seq<char>,
    dest: Seq<char>,
    cache: Option<crate::types::CacheConfigV>,
    hdrs: Seq<(Seq<char>, Seq<char>)>,
) -> Seq<char> {
    let base = method + ":"@ + dest;
    match cache {
        None => base,
        Some(c) => spec_vary_key(base, c.vary_by, hdrs, 0),
    }
}

/// Builds the cache key of a request.
pub fn cache_key_for(
    method: &str,
    destination: &str,
    cache: &Option<crate::types::CacheConfig>,
    headers: &Vec<(String, String)>,
) -> (r: String)
    ensures
        r@ == spec_cache_key(method@, destination@, cache.deep_view(), headers.deep_view()),
{
    let mut key = CacheMiddleware::generate_cache_key(method, destination);
    match cache {
        None => key,
        Some(c) => {
            let ghost names = c.vary_by.deep_view();
            let ghost hdrs = headers.deep_view();
            let n = c.vary_by.len();
            let mut i: usize = 0;
            while i < n
                invariant
                    i <= n,
                    n == c.vary_by@.len(),
                    names == c.vary_by.deep_view(),
                    names.len() == n,
                    hdrs == headers.deep_view(),
                    spec_vary_key(key@, names, hdrs, i as int) == spec_vary_key(
                        method@ + ":"@ + destination@,
                        names,
                        hdrs,
                        0,
                    ),
                decreases n - i,
            {
                let ghost before = key@;
                key.append(":");
                key.append(c.vary_by[i].as_str());
                key.append("=");
                match header_get(headers, c.vary_by[i].as_str()) {
                    Some(v) => {
                        key.append(v.as_str());
                    },
                    None => {},
                }
                proof {
                    assert(names[i as int] == c.vary_by@[i as int]@);
                    assert(key@ =~= before + ":"@ + names[i as int] + "="@ + (
                    match assoc_lookup(hdrs, names[i as int]) {
                        Some(v) => v,
                        None => Seq::<char>::empty(),
                    }));
                }
                i = i + 1;
            }
            key
        },
    }
}

/// The rate-limit key of a request: the `x-forwarded-for` header, or the
/// shared `unknown` bucket.
pub open spec fn spec_limit_key(hdrs: Seq<(Seq<char>, Seq<char>)>) -> Seq<char> {
    match assoc_lookup(hdrs, "x-forwarded-for"@) {
        Some(v) => v,
        None => "unknown"@,
    }
}

/// What one admission stage does, given the request's limiter key, method,
/// cache key and the time: the stage's new state, and either a cached
/// payload, a pass, or the error that aborts the pipeline.
pub open spec fn spec_stage_step(
    s: StageV,
    limit_key: Seq<char>,
    method: Seq<char>,
    cache_key: Seq<char>,
    now: u64,
) -> (StageV, Result<Option<Seq<u8>>, ErrorKind>) {
    match s {
        StageV::Logging(p) => (s, Ok(None)),
        StageV::RateLimit(l) => {
            let (a, new_entries) = spec_allow(
                l.entries,
                limit_key,
                now,
                l.window_secs,
                l.max_requests,
            );
            (
                StageV::RateLimit(
                    RateLimiterV {
                        window_secs: l.window_secs,
                        max_requests: l.max_requests,
                        entries: new_entries,
                    },
                ),
                if a {
                    Ok(None)
                } else {
                    Err(ErrorKind::RateLimitExceeded)
                },
            )
        },
        StageV::Cache(c) => {
            let hit = match assoc_lookup(c.entries, cache_key) {
                Some(e) => if method == "GET"@ && entry_fresh(e.1, now, c.ttl_secs) {
                    Some(e.0)
                } else {
                    None::<Seq<u8>>
                },
                None => None::<Seq<u8>>,
            };
            (s, Ok(hit))
        },
    }
}

/// The admission chain run in order: each stage steps; a rate-limit
/// rejection or a cache hit stops the chain, and the stages after the stop
/// are left untouched.
pub open spec fn spec_authorize(
    stages: Seq<StageV>,
    hdrs: Seq<(Seq<char>, Seq<char>)>,
    method: Seq<char>,
    cache_key: Seq<char>,
    now: u64,
) -> (Seq<StageV>, Result<Option<Seq<u8>>, ErrorKind>)
    decreases stages.len(),
{
    if stages.len() == 0 {
        (stages, Ok(None))
    } else {
        let (st, eff) = spec_stage_step(stages[0], spec_limit_key(hdrs), method, cache_key, now);
        match eff {
            Err(k) => (seq![st] + stages.skip(1), Err(k)),
            Ok(Some(payload)) => (seq![st] + stages.skip(1), Ok(Some(payload))),
            Ok(None) => {
                let rest = spec_authorize(stages.skip(1), hdrs, method, cache_key, now);
                (seq![st] + rest.0, rest.1)
            },
        }
    }
}

/// The views of a named-stage registry.
pub open spec fn registry_views(reg: Seq<(String, MiddlewareStage)>) -> Seq<(Seq<char>, StageV)> {
    reg.map_values(|e: (String, MiddlewareStage)| (e.0@, stage_view(e.1)))
}

/// The index of the first registry entry bound to `name`.
pub open spec fn registry_index(reg: Seq<(Seq<char>, StageV)>, name: Seq<char>) -> Option<int>
    decreases reg.len(),
{
    if reg.len() == 0 {
        None
    } else if reg[0].0 == name {
        Some(0)
    } else {
        match registry_index(reg.skip(1), name) {
            Some(j) => Some(j + 1),
            None => None,
        }
    }
}

/// Characterization of [`registry_index`]: it is the first match.
pub proof fn lemma_registry_index(reg: Seq<(Seq<char>, StageV)>, name: Seq<char>)
    ensures
        match registry_index(reg, name) {
            Some(j) => 0 <= j < reg.len() && reg[j].0 == name && (forall|k: int|
                0 <= k < j ==> reg[k].0 != name),
            None => forall|k: int| 0 <= k < reg.len() ==> reg[k].0 != name,
        },
    decreases reg.len(),
{
    if reg.len() == 0 {
    } else if reg[0].0 == name {
    } else {
        let tail = reg.skip(1);
        lemma_registry_index(tail, name);
        match registry_index(tail, name) {
            Some(j2) => {
                assert(reg[j2 + 1] == tail[j2]);
                assert forall|k: int| 0 <= k < j2 + 1 implies reg[k].0 != name by {
                    if k > 0 {
                        assert(reg[k] == tail[k - 1]);
                    }
                }
            },
            None => {
                assert forall|k: int| 0 <= k < reg.len() implies reg[k].0 != name by {
                    if k > 0 {
                        assert(reg[k] == tail[k - 1]);
                    }
                }
            },
        }
    }
}

/// The route-declared middleware pass: each declared name in order looks
/// its stage up in the registry; a registered stage steps (a rejection or
/// a cache hit stops the pass); an unknown name is skipped, never fatal.
pub open spec fn spec_route_stages(
    reg: Seq<(Seq<char>, StageV)>,
    names: Seq<Seq<char>>,
    limit_key: Seq<char>,
    method: Seq<char>,
    cache_key: Seq<char>,
    now: u64,
    k: int,
) -> (Seq<(Seq<char>, StageV)>, Result<Option<Seq<u8>>, ErrorKind>)
    decreases names.len() - k,
{
    if k < 0 || k >= names.len() {
        (reg, Ok(None))
    } else {
        match registry_index(reg, names[k]) {
            None => spec_route_stages(reg, names, limit_key, method, cache_key, now, k + 1),
            Some(j) => {
                let (st, eff) = spec_stage_step(reg[j].1, limit_key, method, cache_key, now);
                let reg2 = reg.update(j, (reg[j].0, st));
                match eff {
                    Err(e) => (reg2, Err(e)),
                    Ok(Some(p)) => (reg2, Ok(Some(p))),
                    Ok(None) => spec_route_stages(
                        reg2,
                        names,
                        limit_key,
                        method,
                        cache_key,
                        now,
                        k + 1,
                    ),
                }
            },
        }
    }
}

/// Every cache stage stores the payload under the key at time `now` (GET
/// only); other stages are untouched.
pub open spec fn spec_store_all(
    stages: Seq<StageV>,
    method: Seq<char>,
    key: Seq<char>,
    payload: Seq<u8>,
    now: u64,
) -> Seq<StageV> {
    stages.map_values(
        |s: StageV|
            match s {
                StageV::Cache(c) => if method == "GET"@ {
                    StageV::Cache(
                        CacheV {
                            ttl_secs: c.ttl_secs,
                            entries: assoc_set(c.entries, key, (payload, now)),
                        },
                    )
                } else {
                    s
                },
                _ => s,
            },
    )
}

/// The cache admission law: a cache stage answers exactly the fresh GET
/// hits — the stored payload comes back and forwarding is short-circuited
/// (see [`spec_authorize`]) — an expired or absent entry and every non-GET
/// request pass on, and a lookup never changes the stage.
pub proof fn lemma_cache_stage_reads(
    c: CacheV,
    limit_key: Seq<char>,
    method: Seq<char>,
    cache_key: Seq<char>,
    now: u64,
)
    ensures
        ({
            let (st, eff) = spec_stage_step(StageV::Cache(c), limit_key, method, cache_key, now);
            st == StageV::Cache(c) && (match assoc_lookup(c.entries, cache_key) {
                Some(e) => if method == "GET"@ && entry_fresh(e.1, now, c.ttl_secs) {
                    eff == Ok::<Option<Seq<u8>>, ErrorKind>(Some(e.0))
                } else {
                    eff == Ok::<Option<Seq<u8>>, ErrorKind>(None)
                },
                None => eff == Ok::<Option<Seq<u8>>, ErrorKind>(None),
            })
        }),
{
}

/// Non-GET requests never populate the cache: storing under any other
/// method leaves every stage exactly as it was.
pub proof fn lemma_non_get_store_is_noop(
    stages: Seq<StageV>,
    method: Seq<char>,
    key: Seq<char>,
    payload: Seq<u8>,
    now: u64,
)
    requires
        method != "GET"@,
    ensures
        spec_store_all(stages, method, key, payload, now) == stages,
{
    assert(spec_store_all(stages, method, key, payload, now) =~= stages);
}

/// The header rules of an optional rule set.
pub open spec fn spec_opt_rule_headers(t: Option<TransformRulesV>) -> Seq<(Seq<char>, Seq<char>)> {
    match t {
        Some(ru) => ru.headers,
        None => Seq::empty(),
    }
}

/// The query rules of an optional rule set.
pub open spec fn spec_opt_rule_query(t: Option<TransformRulesV>) -> Seq<(Seq<char>, Seq<char>)> {
    match t {
        Some(ru) => ru.query,
        None => Seq::empty(),
    }
}

/// The response-side header rules a route declares, none without a route.
pub open spec fn spec_route_response_rules(rc: Option<crate::types::RouteConfigV>) -> Seq<
    (Seq<char>, Seq<char>),
> {
    match rc {
        Some(c) => spec_opt_rule_headers(c.transforms.response),
        None => Seq::empty(),
    }
}

/// The request-side header rules of the global transforms, applied in
/// order from position `i`.
pub open spec fn spec_apply_request_transforms(
    hs: Seq<(Seq<char>, Seq<char>)>,
    ts: Seq<HeaderTransform>,
    i: int,
) -> Seq<(Seq<char>, Seq<char>)>
    decreases ts.len() - i,
{
    if i < 0 || i >= ts.len() {
        hs
    } else {
        spec_apply_request_transforms(
            apply_rules(hs, ts[i].request_headers.deep_view(), 0),
            ts,
            i + 1,
        )
    }
}

/// The response-side header rules of the global transforms, applied in
/// order from position `i`.
pub open spec fn spec_apply_response_transforms(
    hs: Seq<(Seq<char>, Seq<char>)>,
    ts: Seq<HeaderTransform>,
    i: int,
) -> Seq<(Seq<char>, Seq<char>)>
    decreases ts.len() - i,
{
    if i < 0 || i >= ts.len() {
        hs
    } else {
        spec_apply_response_transforms(
            apply_rules(hs, ts[i].response_headers.deep_view(), 0),
            ts,
            i + 1,
        )
    }
}

/// The query string of a rule list from position `k`: `name=value` pairs
/// joined by `&`.
pub open spec fn spec_query_string(q: Seq<(Seq<char>, Seq<char>)>, k: int) -> Seq<char>
    decreases q.len() - k,
{
    if k < 0 || k >= q.len() {
        Seq::empty()
    } else {
        let piece = q[k].0 + "="@ + q[k].1;
        if k + 1 >= q.len() {
            piece
        } else {
            piece + "&"@ + spec_query_string(q, k + 1)
        }
    }
}

/// A destination with a query-rule list applied: unchanged when the list
/// is empty, else the query string appended after `?`.
pub open spec fn spec_with_query(dest: Seq<char>, q: Seq<(Seq<char>, Seq<char>)>) -> Seq<char> {
    if q.len() == 0 {
        dest
    } else {
        dest + "?"@ + spec_query_string(q, 0)
    }
}

/// The human message of each error kind.
pub open spec fn spec_error_message(k: ErrorKind) -> Seq<char> {
    match k {
        ErrorKind::InvalidPath => "Invalid request path"@,
        ErrorKind::InvalidUri => "Invalid request URI"@,
        ErrorKind::InvalidDecorator => "Invalid route directive"@,
        ErrorKind::RateLimitExceeded => "Rate limit exceeded"@,
        ErrorKind::RequestBuildError => "Failed to process request"@,
        ErrorKind::ForwardError => "Failed to forward request"@,
        ErrorKind::Timeout => "Gateway timeout"@,
        ErrorKind::MiddlewareError => "Middleware error"@,
        ErrorKind::TransformError => "Transform error"@,
    }
}

/// The decimal text of each error kind's status.
pub open spec fn spec_status_text(k: ErrorKind) -> Seq<char> {
    match k {
        ErrorKind::InvalidPath => "400"@,
        ErrorKind::InvalidUri => "400"@,
        ErrorKind::InvalidDecorator => "400"@,
        ErrorKind::RateLimitExceeded => "429"@,
        ErrorKind::RequestBuildError => "500"@,
        ErrorKind::ForwardError => "502"@,
        ErrorKind::Timeout => "504"@,
        ErrorKind::MiddlewareError => "500"@,
        ErrorKind::TransformError => "500"@,
    }
}

/// The structured JSON error body: message, numeric status and timestamp.
pub open spec fn spec_error_body(k: ErrorKind, ts: Seq<char>) -> Seq<char> {
    "{\"error\": \""@ + spec_error_message(k) + "\", \"code\": "@ + spec_status_text(k)
        + ", \"timestamp\": \""@ + ts + "\"}"@
}

/// The human message of an error kind.
pub fn error_message(k: ErrorKind) -> (m: &'static str)
    ensures
        m@ == spec_error_message(k),
{
    match k {
        ErrorKind::InvalidPath => "Invalid request path",
        ErrorKind::InvalidUri => "Invalid request URI",
        ErrorKind::InvalidDecorator => "Invalid route directive",
        ErrorKind::RateLimitExceeded => "Rate limit exceeded",
        ErrorKind::RequestBuildError => "Failed to process request",
        ErrorKind::ForwardError => "Failed to forward request",
        ErrorKind::Timeout => "Gateway timeout",
        ErrorKind::MiddlewareError => "Middleware error",
        ErrorKind::TransformError => "Transform error",
    }
}

/// The decimal text of an error kind's status.
pub fn status_text(k: ErrorKind) -> (m: &'static str)
    ensures
        m@ == spec_status_text(k),
{
    match k {
        ErrorKind::InvalidPath => "400",
        ErrorKind::InvalidUri => "400",
        ErrorKind::InvalidDecorator => "400",
        ErrorKind::RateLimitExceeded => "429",
        ErrorKind::RequestBuildError => "500",
        ErrorKind::ForwardError => "502",
        ErrorKind::Timeout => "504",
        ErrorKind::MiddlewareError => "500",
        ErrorKind::TransformError => "500",
    }
}

/// Builds the structured JSON error body for an error kind and timestamp.
pub fn error_body(k: ErrorKind, timestamp: &str) -> (r: String)
    ensures
        r@ == spec_error_body(k, timestamp@),
{
    let mut out = "{\"error\": \"".to_owned();
    out.append(error_message(k));
    out.append("\", \"code\": ");
    out.append(status_text(k));
    out.append(", \"timestamp\": \"");
    out.append(timestamp);
    out.append("\"}");
    out
}

/// Point-in-time occupancy of the gateway, for an external metrics
/// exporter: the pool's slots, and the entry counts of the first
/// rate-limit and first cache stage of the global chain, when they exist.
#[derive(Debug, Clone, Copy, PartialEq, Eq)]
pub struct HandlerStats {
    pub pool: crate::pool::ProxyPoolMetrics,
    pub rate_limit_keys: Option<usize>,
    pub cache_entries: Option<usize>,
}

/// The tracked key count of the first rate-limit stage.
pub open spec fn spec_first_limiter_keys(stages: Seq<StageV>) -> Option<int>
    decreases stages.len(),
{
    if stages.len() == 0 {
        None
    } else {
        match stages[0] {
            StageV::RateLimit(l) => Some(l.entries.len() as int),
            _ => spec_first_limiter_keys(stages.skip(1)),
        }
    }
}

/// The entry count of the first cache stage.
pub open spec fn spec_first_cache_entries(stages: Seq<StageV>) -> Option<int>
    decreases stages.len(),
{
    if stages.len() == 0 {
        None
    } else {
        match stages[0] {
            StageV::Cache(c) => Some(c.entries.len() as int),
            _ => spec_first_cache_entries(stages.skip(1)),
        }
    }
}

/// The verdict of the pre-forwarding pipeline.
#[derive(Debug, Clone, PartialEq, Eq)]
pub enum PipelineVerdict {
    /// A fresh cached payload answers the request; nothing is forwarded.
    Cached(Vec<u8>),
    /// The prepared request is to be forwarded to its destination; the
    /// cache key it was looked up under rides along, so that the fresh
    /// response is stored under the same key.
    Forward(ProxyRequest, String),
}

/// Steps one stage: logging passes, rate limiting admits or aborts, the
/// cache answers fresh GET hits.
fn step_stage(
    stage: &mut MiddlewareStage,
    limit_key: &str,
    method: &str,
    cache_key: &str,
    now: u64,
) -> (r: Result<Option<Vec<u8>>, ProxyError>)
    ensures
        ({
            let (st, eff) = spec_stage_step(
                stage_view(*old(stage)),
                limit_key@,
                method@,
                cache_key@,
                now,
            );
            stage_view(*final(stage)) == st && (match eff {
                Err(k) => r matches Err(e) && e.spec_kind() == k,
                Ok(Some(payload)) => r matches Ok(Some(pl)) && pl@ == payload,
                Ok(None) => r matches Ok(None),
            })
        }),
{
    match stage {
        MiddlewareStage::Logging(_) => Ok(None),
        MiddlewareStage::RateLimit(l) => {
            if l.allow(limit_key, now) {
                Ok(None)
            } else {
                Err(ProxyError::RateLimitExceeded("Rate limit exceeded".to_owned()))
            }
        },
        MiddlewareStage::Cache(c) => Ok(c.lookup(method, cache_key, now)),
    }
}

/// The orchestrator: owns the pool bookkeeping, the global middleware
/// chain, the global transforms and the registry of named route stages,
/// and sequences one request's pipeline.
#[derive(Debug, Clone)]
pub struct RequestHandler {
    pub pool: ProxyPool,
    pub config: ProxyConfig,
    pub middleware: Vec<MiddlewareStage>,
    pub transforms: Vec<HeaderTransform>,
    pub registry: Vec<(String, MiddlewareStage)>,
}

impl RequestHandler {
    /// A handler over the stock configuration, with no stages.
    pub fn new() -> (r: RequestHandler)
        ensures
            r.config.pool_size == 32u32,
            r.config.pool_timeout_secs == 60u64,
            r.middleware@ == Seq::<MiddlewareStage>::empty(),
            r.transforms@ == Seq::<HeaderTransform>::empty(),
            r.registry@ == Seq::<(String, MiddlewareStage)>::empty(),
            r.pool.wf(),
            r.pool.in_flight == 0,
            r.pool.hosts.deep_view() == Seq::<Seq<char>>::empty(),
    {
        Self::with_config(ProxyConfig::default())
    }

    /// A handler over the given configuration, with no stages.
    pub fn with_config(config: ProxyConfig) -> (r: RequestHandler)
        ensures
            r.config == config,
            r.middleware@ == Seq::<MiddlewareStage>::empty(),
            r.transforms@ == Seq::<HeaderTransform>::empty(),
            r.registry@ == Seq::<(String, MiddlewareStage)>::empty(),
            r.pool.wf(),
            r.pool.config@ == config@,
            r.pool.in_flight == 0,
            r.pool.hosts.deep_view() == Seq::<Seq<char>>::empty(),
    {
        let pool = ProxyPool::new(crate::types::clone_config(&config));
        let middleware: Vec<MiddlewareStage> = Vec::new();
        let transforms: Vec<HeaderTransform> = Vec::new();
        let registry: Vec<(String, MiddlewareStage)> = Vec::new();
        proof {
            assert(middleware@ =~= Seq::<MiddlewareStage>::empty());
            assert(transforms@ =~= Seq::<HeaderTransform>::empty());
            assert(registry@ =~= Seq::<(String, MiddlewareStage)>::empty());
        }
        RequestHandler { pool, config, middleware, transforms, registry }
    }

    /// Appends a middleware stage; stages run in the order added.
    pub fn add_middleware(&mut self, stage: MiddlewareStage)
        ensures
            final(self).middleware@ == old(self).middleware@.push(stage),
            final(self).transforms == old(self).transforms,
            final(self).config == old(self).config,
            final(self).pool == old(self).pool,
            final(self).registry == old(self).registry,
    {
        self.middleware.push(stage);
    }

    /// Appends a transform; transforms run in the order added.
    pub fn add_transform(&mut self, transform: HeaderTransform)
        ensures
            final(self).transforms@ == old(self).transforms@.push(transform),
            final(self).middleware == old(self).middleware,
            final(self).config == old(self).config,
            final(self).pool == old(self).pool,
            final(self).registry == old(self).registry,
    {
        self.transforms.push(transform);
    }

    /// Binds a stage to a route-middleware name.  Route-declared names are
    /// looked up here, the earliest binding of a name winning.
    pub fn register_middleware(&mut self, name: &str, stage: MiddlewareStage)
        ensures
            registry_views(final(self).registry@) == registry_views(old(self).registry@).push(
                (name@, stage_view(stage)),
            ),
            final(self).middleware == old(self).middleware,
            final(self).transforms == old(self).transforms,
            final(self).config == old(self).config,
            final(self).pool == old(self).pool,
    {
        let ghost prev = registry_views(self.registry@);
        let ghost st = stage_view(stage);
        self.registry.push((name.to_owned(), stage));
        proof {
            assert(registry_views(self.registry@) =~~= prev.push((name@, st)));
        }
    }

    /// Maps an error to its HTTP status and structured JSON body.
    pub fn handle_error(&self, error: &ProxyError, timestamp: &str) -> (r: (u16, String))
        ensures
            r.0 == spec_status_for(error.spec_kind()),
            r.1@ == spec_error_body(error.spec_kind(), timestamp@),
    {
        let k = error.kind();
        (status_for(k), error_body(k, timestamp))
    }

    /// Maps an error to its HTTP status and structured JSON body, stamped
    /// with the clock's current time: whatever the clock returned, the body
    /// is the exact error body for that timestamp.
    pub fn handle_error_now(&self, error: &ProxyError) -> (r: (u16, String))
        ensures
            r.0 == spec_status_for(error.spec_kind()),
            exists|ts: Seq<char>| r.1@ == #[trigger] spec_error_body(error.spec_kind(), ts),
    {
        let ts = crate::validate::now_rfc3339();
        let r = self.handle_error(error, ts.as_str());
        proof {
            assert(r.1@ == spec_error_body(error.spec_kind(), ts@));
        }
        r
    }

    /// The tracked key count of the first rate-limit stage.
    fn first_limiter_keys(stages: &Vec<MiddlewareStage>) -> (r: Option<usize>)
        ensures
            match spec_first_limiter_keys(stage_views(stages@)) {
                Some(n) => r matches Some(m) && m as int == n,
                None => r is None,
            },
    {
        let ghost views = stage_views(stages@);
        let n = stages.len();
        let mut i: usize = 0;
        proof {
            assert(views.skip(0) =~= views);
        }
        while i < n
            invariant
                i <= n,
                n == stages@.len(),
                views == stage_views(stages@),
                views.len() == n,
                spec_first_limiter_keys(views) == spec_first_limiter_keys(views.skip(i as int)),
            decreases n - i,
        {
            proof {
                assert(views.skip(i as int)[0] == views[i as int]);
                assert(views.skip(i as int).skip(1) =~= views.skip(i as int + 1));
            }
            match &stages[i] {
                MiddlewareStage::RateLimit(l) => {
                    return Some(l.entries.len());
                },
                _ => {},
            }
            i = i + 1;
        }
        proof {
            assert(views.skip(n as int).len() == 0);
        }
        None
    }

    /// The entry count of the first cache stage.
    fn first_cache_entries(stages: &Vec<MiddlewareStage>) -> (r: Option<usize>)
        ensures
            match spec_first_cache_entries(stage_views(stages@)) {
                Some(n) => r matches Some(m) && m as int == n,
                None => r is None,
            },
    {
        let ghost views = stage_views(stages@);
        let n = stages.len();
        let mut i: usize = 0;
        proof {
            assert(views.skip(0) =~= views);
        }
        while i < n
            invariant
                i <= n,
                n == stages@.len(),
                views == stage_views(stages@),
                views.len() == n,
                spec_first_cache_entries(views) == spec_first_cache_entries(views.skip(i as int)),
            decreases n - i,
        {
            proof {
                assert(views.skip(i as int)[0] == views[i as int]);
                assert(views.skip(i as int).skip(1) =~= views.skip(i as int + 1));
            }
            match &stages[i] {
                MiddlewareStage::Cache(c) => {
                    return Some(c.entries.len());
                },
                _ => {},
            }
            i = i + 1;
        }
        proof {
            assert(views.skip(n as int).len() == 0);
        }
        None
    }

    /// Point-in-time occupancy of the gateway: free and maximum pool
    /// slots, the first rate-limit stage's tracked key count, and the
    /// first cache stage's entry count.
    pub fn stats(&self) -> (s: HandlerStats)
        requires
            self.pool.wf(),
        ensures
            s.pool.available_connections == self.pool.config.pool_size as usize
                - self.pool.in_flight,
            s.pool.max_connections == self.pool.config.pool_size as usize,
            match spec_first_limiter_keys(stage_views(self.middleware@)) {
                Some(n) => s.rate_limit_keys matches Some(m) && m as int == n,
                None => s.rate_limit_keys is None,
            },
            match spec_first_cache_entries(stage_views(self.middleware@)) {
                Some(n) => s.cache_entries matches Some(m) && m as int == n,
                None => s.cache_entries is None,
            },
    {
        HandlerStats {
            pool: self.pool.get_metrics(),
            rate_limit_keys: Self::first_limiter_keys(&self.middleware),
            cache_entries: Self::first_cache_entries(&self.middleware),
        }
    }

    /// Runs the admission chain in order: logging stages pass, rate-limit
    /// stages admit or abort, cache stages answer fresh GET hits.
    fn authorize(
        &mut self,
        headers: &Vec<(String, String)>,
        method: &str,
        cache_key: &str,
        now: u64,
    ) -> (r: Result<Option<Vec<u8>>, ProxyError>)
        ensures
            ({
                let (stages1, auth) = spec_authorize(
                    stage_views(old(self).middleware@),
                    headers.deep_view(),
                    method@,
                    cache_key@,
                    now,
                );
                stage_views(final(self).middleware@) == stages1 && (match auth {
                    Err(k) => r matches Err(e) && e.spec_kind() == k,
                    Ok(Some(payload)) => r matches Ok(Some(pl)) && pl@ == payload,
                    Ok(None) => r matches Ok(None),
                })
            }),
            final(self).transforms == old(self).transforms,
            final(self).config == old(self).config,
            final(self).pool == old(self).pool,
            final(self).registry == old(self).registry,
    {
        let ghost stages0 = stage_views(old(self).middleware@);
        let ghost hdrs = headers.deep_view();
        let limit_key: String = match header_get(headers, "x-forwarded-for") {
            Some(v) => v.clone(),
            None => "unknown".to_owned(),
        };
        let n = self.middleware.len();
        let mut i: usize = 0;
        proof {
            assert(stage_views(self.middleware@).skip(0) =~= stage_views(self.middleware@));
            assert(stage_views(self.middleware@).take(0) + stage_views(self.middleware@) =~=
            stage_views(self.middleware@));
        }
        while i < n
            invariant
                i <= n,
                n == self.middleware@.len(),
                limit_key@ == spec_limit_key(hdrs),
                hdrs == headers.deep_view(),
                stages0 == stage_views(old(self).middleware@),
                stages0.len() == n,
                stage_views(self.middleware@).skip(i as int) == stages0.skip(i as int),
                spec_authorize(stages0, hdrs, method@, cache_key@, now) == ({
                    let rest = spec_authorize(
                        stage_views(self.middleware@).skip(i as int),
                        hdrs,
                        method@,
                        cache_key@,
                        now,
                    );
                    (stage_views(self.middleware@).take(i as int) + rest.0, rest.1)
                }),
                self.transforms == old(self).transforms,
                self.config == old(self).config,
                self.pool == old(self).pool,
                self.registry == old(self).registry,
            decreases n - i,
        {
            let ghost views_before = stage_views(self.middleware@);
            proof {
                assert(views_before.skip(i as int)[0] == views_before[i as int]);
                assert(views_before.skip(i as int).skip(1) =~= views_before.skip(i as int + 1));
            }
            let stage = &mut self.middleware[i];
            match stage {
                MiddlewareStage::Logging(_) => {
                    proof {
                        assert(stage_views(self.middleware@) =~= views_before);
                        assert(stage_views(self.middleware@).take(i as int + 1) =~= stage_views(
                            self.middleware@,
                        ).take(i as int) + seq![views_before[i as int]]);
                        assert(stage_views(self.middleware@).skip(i as int + 1) =~=
                        views_before.skip(i as int + 1));
                    }
                },
                MiddlewareStage::RateLimit(l) => {
                    let ok = l.allow(limit_key.as_str(), now);
                    proof {
                        assert(stage_views(self.middleware@) =~= views_before.update(
                            i as int,
                            spec_stage_step(
                                views_before[i as int],
                                spec_limit_key(hdrs),
                                method@,
                                cache_key@,
                                now,
                            ).0,
                        ));
                        assert(stage_views(self.middleware@).take(i as int) =~= views_before.take(
                            i as int,
                        ));
                        assert(stage_views(self.middleware@).take(i as int + 1) =~= stage_views(
                            self.middleware@,
                        ).take(i as int) + seq![stage_views(self.middleware@)[i as int]]);
                        assert(stage_views(self.middleware@).skip(i as int + 1) =~=
                        views_before.skip(i as int + 1));
                    }
                    if !ok {
                        proof {
                            assert(stage_views(self.middleware@).skip(i as int) =~= seq![
                                stage_views(self.middleware@)[i as int],
                            ] + views_before.skip(i as int + 1));
                        }
                        return Err(
                            ProxyError::RateLimitExceeded("Rate limit exceeded".to_owned()),
                        );
                    }
                },
                MiddlewareStage::Cache(c) => {
                    let hit = c.lookup(method, cache_key, now);
                    proof {
                        assert(stage_views(self.middleware@) =~= views_before);
                        assert(stage_views(self.middleware@).take(i as int + 1) =~= stage_views(
                            self.middleware@,
                        ).take(i as int) + seq![views_before[i as int]]);
                        assert(stage_views(self.middleware@).skip(i as int + 1) =~=
                        views_before.skip(i as int + 1));
                    }
                    match hit {
                        Some(payload) => {
                            proof {
                                assert(stage_views(self.middleware@).skip(i as int) =~= seq![
                                    views_before[i as int],
                                ] + views_before.skip(i as int + 1));
                            }
                            return Ok(Some(payload));
                        },
                        None => {},
                    }
                },
            }
            proof {
                assert(views_before.skip(i as int + 1) =~= views_before.skip(i as int).skip(1));
                assert(stages0.skip(i as int + 1) =~= stages0.skip(i as int).skip(1));
            }
            i = i + 1;
        }
        proof {
            assert(stage_views(self.middleware@).skip(n as int) =~= Seq::<StageV>::empty());
            assert(stage_views(self.middleware@).take(n as int) =~= stage_views(self.middleware@));
            assert(stage_views(self.middleware@) + Seq::<StageV>::empty() =~= stage_views(
                self.middleware@,
            ));
        }
        Ok(None)
    }

    /// The first registry entry bound to `name`.
    fn registry_find(registry: &Vec<(String, MiddlewareStage)>, name: &str) -> (r: Option<usize>)
        ensures
            match r {
                Some(idx) => registry_index(registry_views(registry@), name@) == Some(idx as int)
                    && idx < registry@.len(),
                None => registry_index(registry_views(registry@), name@) is None,
            },
    {
        let ghost reg = registry_views(registry@);
        let m = registry.len();
        let mut j: usize = 0;
        while j < m
            invariant
                j <= m,
                m == registry@.len(),
                reg == registry_views(registry@),
                reg.len() == m,
                forall|t: int| 0 <= t < j ==> (#[trigger] reg[t]).0 != name@,
            decreases m - j,
        {
            if crate::strutil::str_eq(registry[j].0.as_str(), name) {
                proof {
                    lemma_registry_index(reg, name@);
                    assert(reg[j as int].0 == name@);
                    match registry_index(reg, name@) {
                        Some(j2) => {
                            if j2 < j {
                                assert(reg[j2].0 != name@);
                            }
                            if j2 > j {
                                assert(reg[j as int].0 != name@);
                            }
                            assert(j2 == j);
                        },
                        None => {
                            assert(reg[j as int].0 != name@);
                        },
                    }
                }
                return Some(j);
            }
            j = j + 1;
        }
        proof {
            lemma_registry_index(reg, name@);
        }
        None
    }

    /// Runs the route-declared middleware pass: each declared name in
    /// order looks its stage up in the registry; a registered stage steps,
    /// and an unknown name is skipped, never fatal.
    pub fn apply_route_stages(
        &mut self,
        names: &Vec<String>,
        headers: &Vec<(String, String)>,
        method: &str,
        cache_key: &str,
        now: u64,
    ) -> (r: Result<Option<Vec<u8>>, ProxyError>)
        ensures
            ({
                let (reg1, eff) = spec_route_stages(
                    registry_views(old(self).registry@),
                    names.deep_view(),
                    spec_limit_key(headers.deep_view()),
                    method@,
                    cache_key@,
                    now,
                    0,
                );
                registry_views(final(self).registry@) == reg1 && (match eff {
                    Err(k) => r matches Err(e) && e.spec_kind() == k,
                    Ok(Some(payload)) => r matches Ok(Some(pl)) && pl@ == payload,
                    Ok(None) => r matches Ok(None),
                })
            }),
            final(self).middleware == old(self).middleware,
            final(self).transforms == old(self).transforms,
            final(self).config == old(self).config,
            final(self).pool == old(self).pool,
    {
        let ghost reg0 = registry_views(old(self).registry@);
        let ghost namesv = names.deep_view();
        let ghost lk = spec_limit_key(headers.deep_view());
        let limit_key: String = match header_get(headers, "x-forwarded-for") {
            Some(v) => v.clone(),
            None => "unknown".to_owned(),
        };
        let n = names.len();
        let mut k: usize = 0;
        while k < n
            invariant
                k <= n,
                n == names@.len(),
                namesv == names.deep_view(),
                namesv.len() == n,
                limit_key@ == lk,
                lk == spec_limit_key(headers.deep_view()),
                reg0 == registry_views(old(self).registry@),
                spec_route_stages(reg0, namesv, lk, method@, cache_key@, now, 0)
                    == spec_route_stages(
                    registry_views(self.registry@),
                    namesv,
                    lk,
                    method@,
                    cache_key@,
                    now,
                    k as int,
                ),
                self.middleware == old(self).middleware,
                self.transforms == old(self).transforms,
                self.config == old(self).config,
                self.pool == old(self).pool,
            decreases n - k,
        {
            let ghost reg_before = registry_views(self.registry@);
            proof {
                assert(namesv[k as int] == names@[k as int]@);
            }
            let name = &names[k];
            match Self::registry_find(&self.registry, name.as_str()) {
                None => {},
                Some(idx) => {
                    let entry = &mut self.registry[idx];
                    let step = step_stage(
                        &mut entry.1,
                        limit_key.as_str(),
                        method,
                        cache_key,
                        now,
                    );
                    proof {
                        let step_spec = spec_stage_step(
                            reg_before[idx as int].1,
                            lk,
                            method@,
                            cache_key@,
                            now,
                        );
                        assert(registry_views(self.registry@) =~= reg_before.update(
                            idx as int,
                            (reg_before[idx as int].0, step_spec.0),
                        ));
                        if !(step_spec.1 matches Ok(None)) {
                            assert(spec_route_stages(
                                reg_before,
                                namesv,
                                lk,
                                method@,
                                cache_key@,
                                now,
                                k as int,
                            ) == (registry_views(self.registry@), step_spec.1));
                        } else {
                            assert(spec_route_stages(
                                reg_before,
                                namesv,
                                lk,
                                method@,
                                cache_key@,
                                now,
                                k as int,
                            ) == spec_route_stages(
                                registry_views(self.registry@),
                                namesv,
                                lk,
                                method@,
                                cache_key@,
                                now,
                                k as int + 1,
                            ));
                        }
                    }
                    match step {
                        Err(e) => {
                            return Err(e);
                        },
                        Ok(Some(payload)) => {
                            return Ok(Some(payload));
                        },
                        Ok(None) => {},
                    }
                },
            }
            k = k + 1;
        }
        Ok(None)
    }

    /// Appends the route's query rules to a destination.
    fn apply_query(destination: &str, query: &Vec<(String, String)>) -> (r: String)
        ensures
            r@ == spec_with_query(destination@, query.deep_view()),
    {
        let ghost qv = query.deep_view();
        if query.len() == 0 {
            return destination.to_owned();
        }
        let mut qs = String::new();
        let mut k: usize = 0;
        while k < query.len()
            invariant
                k <= query@.len(),
                qv == query.deep_view(),
                qv.len() == query@.len(),
                qv.len() > 0,
                k == 0 ==> qs@ == Seq::<char>::empty(),
                0 < k < qv.len() ==> spec_query_string(qv, 0) == qs@ + "&"@ + spec_query_string(
                    qv,
                    k as int,
                ),
                k == qv.len() ==> qs@ == spec_query_string(qv, 0),
            decreases query@.len() - k,
        {
            let ghost before = qs@;
            if k > 0 {
                qs.append("&");
            }
            qs.append(query[k].0.as_str());
            qs.append("=");
            qs.append(query[k].1.as_str());
            proof {
                assert(qv[k as int] == (query@[k as int].0@, query@[k as int].1@));
                if k == 0 {
                    assert(qs@ =~= qv[0].0 + "="@ + qv[0].1);
                } else {
                    assert(qs@ =~= before + "&"@ + (qv[k as int].0 + "="@ + qv[k as int].1));
                }
            }
            k = k + 1;
        }
        let mut out = destination.to_owned();
        out.append("?");
        out.append(qs.as_str());
        proof {
            assert(out@ =~= spec_with_query(destination@, qv));
        }
        out
    }

    /// Runs the pre-forwarding pipeline for one request: parse, the
    /// route's query rules on the destination, admission (rate limit and
    /// cache, keyed on the full destination and the route's vary-by
    /// fields), the route's request-header rules, and the global
    /// transforms, in that order.  The verdict is either a cached payload
    /// or the prepared request to forward.
    pub fn process_request(
        &mut self,
        method: &str,
        path: &str,
        headers: Vec<(String, String)>,
        body: Vec<u8>,
        now: u64,
    ) -> (r: Result<PipelineVerdict, ProxyError>)
        ensures
            ({
                match spec_parse(method@, path@) {
                    Err(k) => r matches Err(e) && e.spec_kind() == k && *final(self) == *old(self),
                    Ok(p) => ({
                        let dest = spec_with_query(
                            p.destination,
                            spec_opt_rule_query(p.config.transforms.request),
                        );
                        let key = spec_cache_key(method@, dest, p.config.cache, headers.deep_view());
                        let (stages1, auth) = spec_authorize(
                            stage_views(old(self).middleware@),
                            headers.deep_view(),
                            method@,
                            key,
                            now,
                        );
                        stage_views(final(self).middleware@) == stages1 && final(self).transforms
                            == old(self).transforms && final(self).config == old(self).config
                            && final(self).pool == old(self).pool && (match auth {
                            Err(k) => r matches Err(e) && e.spec_kind() == k && final(self).registry == old(self).registry,
                            Ok(Some(payload)) => r matches Ok(v) && v matches
                                PipelineVerdict::Cached(pl) && pl@ == payload && final(self).registry == old(self).registry,
                            Ok(None) => ({
                                let (reg1, auth2) = spec_route_stages(
                                    registry_views(old(self).registry@),
                                    p.config.middleware,
                                    spec_limit_key(headers.deep_view()),
                                    method@,
                                    key,
                                    now,
                                    0,
                                );
                                registry_views(final(self).registry@) == reg1 && (match auth2 {
                                    Err(k) => r matches Err(e) && e.spec_kind() == k,
                                    Ok(Some(payload)) => r matches Ok(v) && v matches
                                        PipelineVerdict::Cached(pl) && pl@ == payload,
                                    Ok(None) => r matches Ok(v) && v matches
                                        PipelineVerdict::Forward(req, ck) && ck@ == key
                                        && req@.method == method@ && req@.destination == dest
                                        && req@.original_path == p.rest && req@.route_config
                                        == Some(p.config) && req@.path_params == Some(p.params)
                                        && req@.body == body@ && req@.headers
                                        == spec_apply_request_transforms(
                                        apply_rules(
                                            headers.deep_view(),
                                            spec_opt_rule_headers(p.config.transforms.request),
                                            0,
                                        ),
                                        old(self).transforms@,
                                        0,
                                    ),
                                })
                            }),
                        })
                    }),
                }
            }),
    {
        let mut req = match RequestParser::parse(method, path) {
            Ok(pr) => pr,
            Err(e) => {
                return Err(e);
            },
        };
        req.headers = headers;
        req.body = body;
        // the route's query rules extend the destination before admission,
        // so that the cache is keyed on the full forwarding URI
        match &req.route_config {
            Some(cfg) => match &cfg.transforms.request {
                Some(rules) => {
                    req.destination = Self::apply_query(req.destination.as_str(), &rules.query);
                },
                None => {
                    proof {
                        assert(req@.destination =~= spec_with_query(
                            req@.destination,
                            Seq::<(Seq<char>, Seq<char>)>::empty(),
                        ));
                    }
                },
            },
            None => {},
        }
        let none_cache: Option<crate::types::CacheConfig> = None;
        let route_cache: &Option<crate::types::CacheConfig> = match &req.route_config {
            Some(cfg) => &cfg.cache,
            None => &none_cache,
        };
        let key = cache_key_for(method, req.destination.as_str(), route_cache, &req.headers);
        match self.authorize(&req.headers, method, key.as_str(), now) {
            Ok(Some(payload)) => {
                return Ok(PipelineVerdict::Cached(payload));
            },
            Ok(None) => {},
            Err(e) => {
                return Err(e);
            },
        }
        let empty_names: Vec<String> = Vec::new();
        let route_names: &Vec<String> = match &req.route_config {
            Some(cfg) => &cfg.middleware,
            None => &empty_names,
        };
        match self.apply_route_stages(route_names, &req.headers, method, key.as_str(), now) {
            Ok(Some(payload)) => {
                return Ok(PipelineVerdict::Cached(payload));
            },
            Ok(None) => {},
            Err(e) => {
                return Err(e);
            },
        }
        // route-declared header rules first, global transforms after them,
        // so that global policy sees and may override route-applied values
        match &req.route_config {
            Some(cfg) => match &cfg.transforms.request {
                Some(rules) => {
                    req.headers = HeaderTransform::apply_headers(&req.headers, &rules.headers);
                },
                None => {},
            },
            None => {},
        }
        let ghost hs1 = req@.headers;
        let ghost req0 = req;
        let ghost mid_after = self.middleware@;
        let ghost reg_after = self.registry@;
        let n = self.transforms.len();
        let mut k: usize = 0;
        while k < n
            invariant
                k <= n,
                n == self.transforms@.len(),
                spec_apply_request_transforms(req@.headers, self.transforms@, k as int)
                    == spec_apply_request_transforms(hs1, self.transforms@, 0),
                req@.method == req0@.method,
                req@.destination == req0@.destination,
                req@.body == req0@.body,
                req@.original_path == req0@.original_path,
                req.route_config == req0.route_config,
                req.path_params == req0.path_params,
                self.middleware@ == mid_after,
                self.registry@ == reg_after,
                self.transforms == old(self).transforms,
                self.config == old(self).config,
                self.pool == old(self).pool,
            decreases n - k,
        {
            let t = &self.transforms[k];
            t.transform_request(&mut req);
            k = k + 1;
        }
        Ok(PipelineVerdict::Forward(req, key))
    }

    /// Runs the post-forwarding pipeline on a response: the global
    /// transforms first, then the route's response-header rules, so that
    /// route rules see globally applied values on the way out; every cache
    /// stage then stores the payload (GET only) under the key the request
    /// was looked up under.
    pub fn finish_response(
        &mut self,
        req: &ProxyRequest,
        cache_key: &str,
        response: ProxyResponse,
        now: u64,
    ) -> (r: ProxyResponse)
        ensures
            r@.status == response@.status,
            r@.body == response@.body,
            r@.headers == apply_rules(
                spec_apply_response_transforms(response@.headers, old(self).transforms@, 0),
                spec_route_response_rules(req@.route_config),
                0,
            ),
            stage_views(final(self).middleware@) == spec_store_all(
                stage_views(old(self).middleware@),
                req@.method,
                cache_key@,
                response@.body,
                now,
            ),
            final(self).transforms == old(self).transforms,
            final(self).config == old(self).config,
            final(self).pool == old(self).pool,
            final(self).registry == old(self).registry,
    {
        let mut res = response;
        let ghost hs0 = res@.headers;
        let ghost res0 = res;
        let n = self.transforms.len();
        let mut k: usize = 0;
        while k < n
            invariant
                k <= n,
                n == self.transforms@.len(),
                spec_apply_response_transforms(res@.headers, self.transforms@, k as int)
                    == spec_apply_response_transforms(hs0, self.transforms@, 0),
                res@.status == res0@.status,
                res@.body == res0@.body,
                *self == *old(self),
            decreases n - k,
        {
            let t = &self.transforms[k];
            t.transform_response(&mut res);
            k = k + 1;
        }
        match &req.route_config {
            Some(cfg) => match &cfg.transforms.response {
                Some(rules) => {
                    res.headers = HeaderTransform::apply_headers(&res.headers, &rules.headers);
                },
                None => {},
            },
            None => {},
        }
        let ghost stages0 = stage_views(self.middleware@);
        let ghost stored = spec_store_all(stages0, req@.method, cache_key@, res0@.body, now);
        let m = self.middleware.len();
        let mut i: usize = 0;
        proof {
            assert(stored.len() == stages0.len());
        }
        while i < m
            invariant
                i <= m,
                m == self.middleware@.len(),
                stages0.len() == m,
                stored.len() == m,
                stored == spec_store_all(stages0, req@.method, cache_key@, res0@.body, now),
                res@.body == res0@.body,
                forall|j: int|
                    0 <= j < i ==> stage_views(self.middleware@)[j] == stored[j],
                forall|j: int|
                    i <= j < m ==> stage_views(self.middleware@)[j] == stages0[j],
                res@.status == res0@.status,
                self.transforms == old(self).transforms,
                self.config == old(self).config,
                self.pool == old(self).pool,
                self.registry == old(self).registry,
            decreases m - i,
        {
            let ghost views_before = stage_views(self.middleware@);
            let stage = &mut self.middleware[i];
            match stage {
                MiddlewareStage::Logging(_) => {
                    proof {
                        assert(stage_views(self.middleware@) =~= views_before);
                    }
                },
                MiddlewareStage::RateLimit(_) => {
                    proof {
                        assert(stage_views(self.middleware@) =~= views_before);
                    }
                },
                MiddlewareStage::Cache(c) => {
                    let payload = crate::middleware::copy_bytes(&res.body);
                    c.store(req.method.as_str(), cache_key, payload, now);
                    proof {
                        assert(forall|j: int|
                            0 <= j < m && j != i ==> stage_views(self.middleware@)[j]
                                == views_before[j]);
                        assert(stage_views(self.middleware@)[i as int] == stored[i as int]);
                    }
                },
            }
            i = i + 1;
        }
        proof {
            assert(stage_views(self.middleware@) =~= stored);
        }
        res
    }
}

/// Step-by-step construction of a [`RequestHandler`].
#[derive(Debug, Clone)]
pub struct ProxyBuilder {
    pub config: ProxyConfig,
    pub middleware: Vec<MiddlewareStage>,
    pub transforms: Vec<HeaderTransform>,
    pub request_headers: Vec<(String, String)>,
    pub response_headers: Vec<(String, String)>,
}

impl Default for ProxyBuilder {
    /// A builder over the stock configuration, with nothing added.
    fn default() -> (r: ProxyBuilder)
        ensures
            r.config.pool_size == 32u32,
            r.config.pool_timeout_secs == 60u64,
            r.middleware@ == Seq::<MiddlewareStage>::empty(),
            r.transforms@ == Seq::<HeaderTransform>::empty(),
            r.request_headers@ == Seq::<(String, String)>::empty(),
            r.response_headers@ == Seq::<(String, String)>::empty(),
    {
        let middleware: Vec<MiddlewareStage> = Vec::new();
        let transforms: Vec<HeaderTransform> = Vec::new();
        let request_headers: Vec<(String, String)> = Vec::new();
        let response_headers: Vec<(String, String)> = Vec::new();
        proof {
            assert(middleware@ =~= Seq::<MiddlewareStage>::empty());
            assert(transforms@ =~= Seq::<HeaderTransform>::empty());
            assert(request_headers@ =~= Seq::<(String, String)>::empty());
            assert(response_headers@ =~= Seq::<(String, String)>::empty());
        }
        ProxyBuilder {
            config: ProxyConfig::default(),
            middleware,
            transforms,
            request_headers,
            response_headers,
        }
    }
}

impl ProxyBuilder {
    /// A fresh builder.
    pub fn new() -> (r: ProxyBuilder)
        ensures
            r.config.pool_size == 32u32,
            r.config.pool_timeout_secs == 60u64,
            r.middleware@ == Seq::<MiddlewareStage>::empty(),
            r.transforms@ == Seq::<HeaderTransform>::empty(),
            r.request_headers@ == Seq::<(String, String)>::empty(),
            r.response_headers@ == Seq::<(String, String)>::empty(),
    {
        Self::default()
    }

    /// Sets the pool capacity.
    pub fn with_pool_size(self, size: u32) -> (r: ProxyBuilder)
        ensures
            r.config.pool_size == size,
            r.config.pool_timeout_secs == self.config.pool_timeout_secs,
            r.middleware == self.middleware,
            r.transforms == self.transforms,
            r.request_headers == self.request_headers,
            r.response_headers == self.response_headers,
    {
        let mut b = self;
        b.config.pool_size = size;
        b
    }

    /// Sets the per-attempt forwarding timeout, in seconds.
    pub fn with_timeout(self, timeout_secs: u64) -> (r: ProxyBuilder)
        ensures
            r.config.pool_timeout_secs == timeout_secs,
            r.config.pool_size == self.config.pool_size,
            r.middleware == self.middleware,
            r.transforms == self.transforms,
            r.request_headers == self.request_headers,
            r.response_headers == self.response_headers,
    {
        let mut b = self;
        b.config.pool_timeout_secs = timeout_secs;
        b
    }

    /// Appends a middleware stage.
    pub fn with_middleware(self, stage: MiddlewareStage) -> (r: ProxyBuilder)
        ensures
            r.middleware@ == self.middleware@.push(stage),
            r.config == self.config,
            r.transforms == self.transforms,
            r.request_headers == self.request_headers,
            r.response_headers == self.response_headers,
    {
        let mut b = self;
        b.middleware.push(stage);
        b
    }

    /// Appends a transform.
    pub fn with_transform(self, transform: HeaderTransform) -> (r: ProxyBuilder)
        ensures
            r.transforms@ == self.transforms@.push(transform),
            r.config == self.config,
            r.middleware == self.middleware,
            r.request_headers == self.request_headers,
            r.response_headers == self.response_headers,
    {
        let mut b = self;
        b.transforms.push(transform);
        b
    }

    /// Adds one static request-header rule.
    pub fn with_request_header(self, key: &str, value: &str) -> (r: ProxyBuilder)
        ensures
            r.request_headers.deep_view() == self.request_headers.deep_view().push((key@, value@)),
            r.config == self.config,
            r.middleware == self.middleware,
            r.transforms == self.transforms,
            r.response_headers == self.response_headers,
    {
        let mut b = self;
        let ghost prev = b.request_headers.deep_view();
        b.request_headers.push((key.to_owned(), value.to_owned()));
        proof {
            assert(b.request_headers.deep_view() =~~= prev.push((key@, value@)));
        }
        b
    }

    /// Adds one static response-header rule.
    pub fn with_response_header(self, key: &str, value: &str) -> (r: ProxyBuilder)
        ensures
            r.response_headers.deep_view() == self.response_headers.deep_view().push(
                (key@, value@),
            ),
            r.config == self.config,
            r.middleware == self.middleware,
            r.transforms == self.transforms,
            r.request_headers == self.request_headers,
    {
        let mut b = self;
        let ghost prev = b.response_headers.deep_view();
        b.response_headers.push((key.to_owned(), value.to_owned()));
        proof {
            assert(b.response_headers.deep_view() =~~= prev.push((key@, value@)));
        }
        b
    }

    /// Builds the handler: a header transform from the builder's static
    /// rules first (when any were given), then the added transforms, then
    /// the middleware stages, all in order.
    pub fn build(self) -> (h: RequestHandler)
        ensures
            h.config == self.config,
            h.pool.wf(),
            h.pool.config@ == self.config@,
            h.pool.in_flight == 0,
            h.registry@.len() == 0,
            h.middleware@ == self.middleware@,
            if self.request_headers@.len() > 0 || self.response_headers@.len() > 0 {
                h.transforms@.len() == self.transforms@.len() + 1 && h.transforms@.skip(1)
                    == self.transforms@ && h.transforms@[0].request_headers.deep_view()
                    == crate::middleware::valid_named(self.request_headers.deep_view())
                    && h.transforms@[0].response_headers.deep_view()
                    == crate::middleware::valid_named(self.response_headers.deep_view())
            } else {
                h.transforms@ == self.transforms@
            },
    {
        let ProxyBuilder { config, middleware, transforms, request_headers, response_headers } =
            self;
        let mut handler = RequestHandler::with_config(config);
        let added_static = request_headers.len() > 0 || response_headers.len() > 0;
        if added_static {
            handler.add_transform(HeaderTransform::new(request_headers, response_headers));
        }
        let mut ts = transforms;
        let ghost ts0 = ts@;
        let ghost base = handler.transforms@;
        while ts.len() > 0
            invariant
                handler.transforms@ == base + ts0.take(ts0.len() - ts@.len()),
                ts@ == ts0.skip(ts0.len() - ts@.len()),
                ts@.len() <= ts0.len(),
                handler.middleware@ == Seq::<MiddlewareStage>::empty(),
                handler.registry@.len() == 0,
                handler.config == self.config,
                handler.pool.wf(),
                handler.pool.config@ == self.config@,
                handler.pool.in_flight == 0,
            decreases ts@.len(),
    {
            let ghost k = ts0.len() - ts@.len();
            let t = ts.remove(0);
            proof {
                assert(t == ts0[k]);
                assert(ts@ =~= ts0.skip(k + 1));
            }
            handler.add_transform(t);
            proof {
                assert(handler.transforms@ =~= base + ts0.take(k + 1));
            }
        }
        proof {
            assert(ts0.take(ts0.len() as int) =~= ts0);
        }
        let mut ms = middleware;
        let ghost ms0 = ms@;
        while ms.len() > 0
            invariant
                handler.middleware@ == ms0.take(ms0.len() - ms@.len()),
                ms@ == ms0.skip(ms0.len() - ms@.len()),
                ms@.len() <= ms0.len(),
                handler.transforms@ == base + ts0,
                handler.registry@.len() == 0,
                handler.config == self.config,
                handler.pool.wf(),
                handler.pool.config@ == self.config@,
                handler.pool.in_flight == 0,
            decreases ms@.len(),
        {
            let ghost k = ms0.len() - ms@.len();
            let m = ms.remove(0);
            proof {
                assert(m == ms0[k]);
                assert(ms@ =~= ms0.skip(k + 1));
            }
            handler.add_middleware(m);
            proof {
                assert(handler.middleware@ =~= ms0.take(k + 1));
            }
        }
        proof {
            assert(ms0.take(ms0.len() as int) =~= ms0);
            if self.request_headers@.len() > 0 || self.response_headers@.len() > 0 {
                assert(handler.transforms@.skip(1) =~= ts0);
            }
            assert(base + ts0 =~= if base.len() == 0 {
                ts0
            } else {
                base + ts0
            });
        }
        handler
    }
}

/// A proxy with logging only.
pub fn create_basic_proxy() -> (h: RequestHandler)
    ensures
        h.middleware@.len() == 1,
        h.middleware@[0] matches MiddlewareStage::Logging(l) && l.prefix@ == "proxy"@,
        h.transforms@.len() == 0,
        h.config.pool_size == 32u32,
        h.config.pool_timeout_secs == 60u64,
{
    ProxyBuilder::new().with_middleware(
        MiddlewareStage::Logging(LoggingMiddleware::new("proxy")),
    ).build()
}

/// A proxy with common production settings: a larger pool, a shorter
/// timeout, logging, a thousand requests per minute per key, a five-minute
/// cache, and a version response header.
pub fn create_production_proxy() -> (h: RequestHandler)
    ensures
        h.config.pool_size == 100u32,
        h.config.pool_timeout_secs == 30u64,
        h.middleware@.len() == 3,
        h.middleware@[0] matches MiddlewareStage::Logging(l) && l.prefix@ == "production"@,
        h.middleware@[1] matches MiddlewareStage::RateLimit(rl) && rl.window_secs == 60u64
            && rl.max_requests == 1000usize && rl.entries.deep_view().len() == 0,
        h.middleware@[2] matches MiddlewareStage::Cache(c) && c.ttl_secs == 300u64
            && c.entries.deep_view().len() == 0,
        h.transforms@.len() == 1,
        h.transforms@[0].response_headers.deep_view() == crate::middleware::valid_named(
            seq![("X-Proxy-Version"@, "0.1.0"@)],
        ),
        h.transforms@[0].request_headers.deep_view() == Seq::<(Seq<char>, Seq<char>)>::empty(),
{
    let b = ProxyBuilder::new();
    proof {
        assert(b.response_headers.deep_view() =~= Seq::<(Seq<char>, Seq<char>)>::empty());
    }
    let b = b.with_pool_size(100).with_timeout(30).with_middleware(
        MiddlewareStage::Logging(LoggingMiddleware::new("production")),
    ).with_middleware(MiddlewareStage::RateLimit(RateLimiter::new(60, 1000))).with_middleware(
        MiddlewareStage::Cache(CacheMiddleware::new(300)),
    ).with_response_header("X-Proxy-Version", "0.1.0");
    proof {
        assert(b.response_headers.deep_view() =~= seq![("X-Proxy-Version"@, "0.1.0"@)]);
    }
    let h = b.build();
    h
}

} // verus!
