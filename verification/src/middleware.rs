//! Pipeline components: header transforms, logging, sliding-window rate
//! limiting and the TTL response cache.
//!
//! Header sets and the limiter's and cache's keyed state are association
//! lists over plain strings; every operation is pinned to a spec-level
//! twin over [`assoc_lookup`] and [`assoc_set`].

use vstd::prelude::*;

use crate::strutil::str_eq;
use crate::types::ErrorKind;
use crate::types::ProxyError;
use crate::types::ProxyRequest;
use crate::types::ProxyResponse;
use crate::validate::check_header_name;
use crate::validate::check_header_value;
use crate::validate::header_name_ok;
use crate::validate::header_value_ok;

verus! {

/// The value under `key` in an association list, first match.
pub open spec fn assoc_lookup<W>(entries: Seq<(Seq<char>, W)>, key: Seq<char>) -> Option<W>
    decreases entries.len(),
{
    if entries.len() == 0 {
        None
    } else if entries[0].0 == key {
        Some(entries[0].1)
    } else {
        assoc_lookup(entries.skip(1), key)
    }
}

/// The association list with `key` set to `value`: the first entry under
/// the key is replaced, or the pair appended.
pub open spec fn assoc_set<W>(entries: Seq<(Seq<char>, W)>, key: Seq<char>, value: W) -> Seq<
    (Seq<char>, W),
>
    decreases entries.len(),
{
    if entries.len() == 0 {
        seq![(key, value)]
    } else if entries[0].0 == key {
        seq![(key, value)] + entries.skip(1)
    } else {
        seq![entries[0]] + assoc_set(entries.skip(1), key, value)
    }
}


/// A copy of a timestamp list.
pub(crate) fn copy_u64s(v: &Vec<u64>) -> (r: Vec<u64>)
    ensures
        r@ == v@,
{
    let mut out: Vec<u64> = Vec::new();
    let mut i: usize = 0;
    while i < v.len()
        invariant
            i <= v@.len(),
            out@ == v@.take(i as int),
        decreases v@.len() - i,
    {
        out.push(v[i]);
        proof {
            assert(out@ =~= v@.take(i as int + 1));
        }
        i = i + 1;
    }
    proof {
        assert(v@.take(v@.len() as int) =~= v@);
    }
    out
}

/// A copy of a payload.
pub(crate) fn copy_bytes(v: &Vec<u8>) -> (r: Vec<u8>)
    ensures
        r@ == v@,
{
    let mut out: Vec<u8> = Vec::new();
    let mut i: usize = 0;
    while i < v.len()
        invariant
            i <= v@.len(),
            out@ == v@.take(i as int),
        decreases v@.len() - i,
    {
        out.push(v[i]);
        proof {
            assert(out@ =~= v@.take(i as int + 1));
        }
        i = i + 1;
    }
    proof {
        assert(v@.take(v@.len() as int) =~= v@);
    }
    out
}

/// A copy of a header or rule list.
pub(crate) fn copy_pairs(v: &Vec<(String, String)>) -> (r: Vec<(String, String)>)
    ensures
        r.deep_view() == v.deep_view(),
{
    let mut out: Vec<(String, String)> = Vec::new();
    let mut i: usize = 0;
    while i < v.len()
        invariant
            i <= v@.len(),
            out.deep_view() == v.deep_view().take(i as int),
        decreases v@.len() - i,
    {
        let ghost prev = out.deep_view();
        out.push((v[i].0.clone(), v[i].1.clone()));
        proof {
            assert(v.deep_view()[i as int] == (v@[i as int].0@, v@[i as int].1@));
            assert(out.deep_view() =~~= prev.push(v.deep_view()[i as int]));
            assert(v.deep_view().take(i as int + 1) =~~= prev.push(v.deep_view()[i as int]));
        }
        i = i + 1;
    }
    proof {
        assert(v.deep_view().take(v.deep_view().len() as int) =~= v.deep_view());
        assert(v.deep_view().len() == v@.len());
    }
    out
}

/// Looks a header up by exact name, first match.
pub fn header_get<'a>(headers: &'a Vec<(String, String)>, name: &str) -> (r: Option<&'a String>)
    ensures
        match r {
            Some(v) => assoc_lookup(headers.deep_view(), name@) == Some(v@),
            None => assoc_lookup(headers.deep_view(), name@) is None,
        },
{
    let ghost dv = headers.deep_view();
    let mut i: usize = 0;
    proof {
        assert(dv.skip(0) =~= dv);
    }
    while i < headers.len()
        invariant
            i <= headers@.len(),
            dv == headers.deep_view(),
            dv.len() == headers@.len(),
            assoc_lookup(dv, name@) == assoc_lookup(dv.skip(i as int), name@),
        decreases headers@.len() - i,
    {
        proof {
            assert(dv.skip(i as int)[0] == dv[i as int]);
            assert(dv.skip(i as int).skip(1) =~= dv.skip(i as int + 1));
        }
        if str_eq(headers[i].0.as_str(), name) {
            return Some(&headers[i].1);
        }
        i = i + 1;
    }
    proof {
        assert(dv.skip(headers@.len() as int) =~= Seq::<(Seq<char>, Seq<char>)>::empty());
    }
    None
}

/// A copy of the header list with `name` set to `value`.
pub fn header_insert(headers: &Vec<(String, String)>, name: &str, value: &str) -> (r: Vec<
    (String, String),
>)
    ensures
        r.deep_view() == assoc_set(headers.deep_view(), name@, value@),
{
    let ghost dv = headers.deep_view();
    let mut out: Vec<(String, String)> = Vec::new();
    let mut replaced: bool = false;
    let mut i: usize = 0;
    proof {
        assert(dv.skip(0) =~= dv);
        assert(out.deep_view() + assoc_set(dv, name@, value@) =~= assoc_set(dv, name@, value@));
    }
    while i < headers.len()
        invariant
            i <= headers@.len(),
            dv == headers.deep_view(),
            dv.len() == headers@.len(),
            !replaced ==> assoc_set(dv, name@, value@) == out.deep_view() + assoc_set(
                dv.skip(i as int),
                name@,
                value@,
            ),
            replaced ==> assoc_set(dv, name@, value@) == out.deep_view() + dv.skip(i as int),
        decreases headers@.len() - i,
    {
        proof {
            assert(dv.skip(i as int)[0] == dv[i as int]);
            assert(dv.skip(i as int).skip(1) =~= dv.skip(i as int + 1));
        }
        let ghost prev = out.deep_view();
        if !replaced && str_eq(headers[i].0.as_str(), name) {
            out.push((name.to_owned(), value.to_owned()));
            replaced = true;
            proof {
                assert(out.deep_view() =~= prev.push((name@, value@)));
                assert(assoc_set(dv, name@, value@) =~= out.deep_view() + dv.skip(i as int + 1));
            }
        } else {
            out.push((headers[i].0.clone(), headers[i].1.clone()));
            proof {
                assert(out.deep_view() =~= prev.push(dv[i as int]));
                if replaced {
                    assert(assoc_set(dv, name@, value@) =~= out.deep_view() + dv.skip(
                        i as int + 1,
                    ));
                } else {
                    assert(assoc_set(dv, name@, value@) =~= out.deep_view() + assoc_set(
                        dv.skip(i as int + 1),
                        name@,
                        value@,
                    ));
                }
            }
        }
        i = i + 1;
    }
    proof {
        assert(dv.skip(dv.len() as int) =~= Seq::<(Seq<char>, Seq<char>)>::empty());
    }
    if !replaced {
        let ghost prev = out.deep_view();
        out.push((name.to_owned(), value.to_owned()));
        proof {
            assert(out.deep_view() =~= prev.push((name@, value@)));
            assert(assoc_set(Seq::<(Seq<char>, Seq<char>)>::empty(), name@, value@) =~= seq![
                (name@, value@),
            ]);
            assert(out.deep_view() =~= assoc_set(dv, name@, value@));
        }
    }
    out
}

/// Header rules applied in order from position `k`: a rule whose name and
/// value are both valid sets the header; any other rule is skipped.
pub open spec fn apply_rules(
    hs: Seq<(Seq<char>, Seq<char>)>,
    rules: Seq<(Seq<char>, Seq<char>)>,
    k: int,
) -> Seq<(Seq<char>, Seq<char>)>
    decreases rules.len() - k,
{
    if k < 0 || k >= rules.len() {
        hs
    } else {
        apply_rules(
            if header_name_ok(rules[k].0) && header_value_ok(rules[k].1) {
                assoc_set(hs, rules[k].0, rules[k].1)
            } else {
                hs
            },
            rules,
            k + 1,
        )
    }
}

/// The rules whose names are valid header names, in order, values kept as
/// given.
pub open spec fn valid_named(rules: Seq<(Seq<char>, Seq<char>)>) -> Seq<(Seq<char>, Seq<char>)>
    decreases rules.len(),
{
    if rules.len() == 0 {
        Seq::empty()
    } else {
        let rest = valid_named(rules.drop_last());
        if header_name_ok(rules.last().0) {
            rest.push(rules.last())
        } else {
            rest
        }
    }
}

/// Keeps the rules whose names are valid header names; values are not
/// examined here, only at application time.
fn filter_valid_names(rules: &Vec<(String, String)>) -> (r: Vec<(String, String)>)
    ensures
        r.deep_view() == valid_named(rules.deep_view()),
{
    let ghost dv = rules.deep_view();
    let mut out: Vec<(String, String)> = Vec::new();
    let mut i: usize = 0;
    proof {
        assert(dv.take(0) =~= Seq::<(Seq<char>, Seq<char>)>::empty());
        assert(out.deep_view() =~= valid_named(dv.take(0)));
    }
    while i < rules.len()
        invariant
            i <= rules@.len(),
            dv == rules.deep_view(),
            dv.len() == rules@.len(),
            out.deep_view() == valid_named(dv.take(i as int)),
        decreases rules@.len() - i,
    {
        proof {
            assert(dv.take(i as int + 1).drop_last() =~= dv.take(i as int));
            assert(dv.take(i as int + 1).last() == dv[i as int]);
        }
        if check_header_name(rules[i].0.as_str()) {
            let ghost prev = out.deep_view();
            out.push((rules[i].0.clone(), rules[i].1.clone()));
            proof {
                assert(out.deep_view() =~~= prev.push(dv[i as int]));
            }
        }
        i = i + 1;
    }
    proof {
        assert(dv.take(dv.len() as int) =~= dv);
    }
    out
}

/// Static header rewrites for the request and response sides.
#[derive(Debug, Clone, PartialEq, Eq)]
pub struct HeaderTransform {
    pub request_headers: Vec<(String, String)>,
    pub response_headers: Vec<(String, String)>,
}

impl HeaderTransform {
    /// Builds the two rule tables, dropping every pair whose name is not a
    /// valid header name; the retained tables hold exactly the validly
    /// named pairs with their values unmodified.
    pub fn new(
        request_headers: Vec<(String, String)>,
        response_headers: Vec<(String, String)>,
    ) -> (r: HeaderTransform)
        ensures
            r.request_headers.deep_view() == valid_named(request_headers.deep_view()),
            r.response_headers.deep_view() == valid_named(response_headers.deep_view()),
    {
        HeaderTransform {
            request_headers: filter_valid_names(&request_headers),
            response_headers: filter_valid_names(&response_headers),
        }
    }

    /// Applies a batch of header rules: every rule with a valid name and
    /// value is set, and every other rule is skipped without failing.
    pub fn apply_headers(headers: &Vec<(String, String)>, to_apply: &Vec<(String, String)>) -> (r:
        Vec<(String, String)>)
        ensures
            r.deep_view() == apply_rules(headers.deep_view(), to_apply.deep_view(), 0),
    {
        let ghost rv = to_apply.deep_view();
        let mut current: Vec<(String, String)> = copy_pairs(headers);
        let mut k: usize = 0;
        while k < to_apply.len()
            invariant
                k <= to_apply@.len(),
                rv == to_apply.deep_view(),
                rv.len() == to_apply@.len(),
                apply_rules(current.deep_view(), rv, k as int) == apply_rules(
                    headers.deep_view(),
                    rv,
                    0,
                ),
            decreases to_apply@.len() - k,
        {
            let name = &to_apply[k].0;
            let value = &to_apply[k].1;
            proof {
                assert(rv[k as int] == (name@, value@));
            }
            if check_header_name(name.as_str()) && check_header_value(value.as_str()) {
                current = header_insert(&current, name.as_str(), value.as_str());
            }
            k = k + 1;
        }
        current
    }

    /// Rewrites a request's headers by the request-side rules.
    pub fn transform_request(&self, req: &mut ProxyRequest)
        ensures
            final(req)@.headers == apply_rules(
                old(req)@.headers,
                self.request_headers.deep_view(),
                0,
            ),
            final(req).method == old(req).method,
            final(req).body == old(req).body,
            final(req).destination == old(req).destination,
            final(req).original_path == old(req).original_path,
            final(req).route_config == old(req).route_config,
            final(req).path_params == old(req).path_params,
    {
        req.headers = Self::apply_headers(&req.headers, &self.request_headers);
    }

    /// Rewrites a response's headers by the response-side rules.
    pub fn transform_response(&self, res: &mut ProxyResponse)
        ensures
            final(res)@.headers == apply_rules(
                old(res)@.headers,
                self.response_headers.deep_view(),
                0,
            ),
            final(res).status == old(res).status,
            final(res).body == old(res).body,
    {
        res.headers = Self::apply_headers(&res.headers, &self.response_headers);
    }
}

/// A rule with an invalid name or value changes nothing: applying a batch
/// equals applying the batch with that rule removed.  This holds wherever
/// the bad rule stands, so the valid rules around it still apply.
pub proof fn lemma_invalid_rule_skipped(
    hs: Seq<(Seq<char>, Seq<char>)>,
    rules: Seq<(Seq<char>, Seq<char>)>,
    j: int,
)
    requires
        0 <= j < rules.len(),
        !(header_name_ok(rules[j].0) && header_value_ok(rules[j].1)),
    ensures
        apply_rules(hs, rules, 0) == apply_rules(hs, rules.remove(j), 0),
{
    lemma_skip_rule(hs, rules, j, 0);
}

proof fn lemma_skip_rule(
    hs: Seq<(Seq<char>, Seq<char>)>,
    rules: Seq<(Seq<char>, Seq<char>)>,
    j: int,
    k: int,
)
    requires
        0 <= k <= j < rules.len(),
        !(header_name_ok(rules[j].0) && header_value_ok(rules[j].1)),
    ensures
        apply_rules(hs, rules, k) == apply_rules(hs, rules.remove(j), k),
    decreases j - k,
{
    let shorter = rules.remove(j);
    if k == j {
        lemma_tail_aligned(hs, rules, j, j);
    } else {
        assert(shorter[k] == rules[k]);
        let hs2 = if header_name_ok(rules[k].0) && header_value_ok(rules[k].1) {
            assoc_set(hs, rules[k].0, rules[k].1)
        } else {
            hs
        };
        lemma_skip_rule(hs2, rules, j, k + 1);
    }
}

proof fn lemma_tail_aligned(
    hs: Seq<(Seq<char>, Seq<char>)>,
    rules: Seq<(Seq<char>, Seq<char>)>,
    j: int,
    m: int,
)
    requires
        0 <= j <= m <= rules.len() - 1,
        !(header_name_ok(rules[j].0) && header_value_ok(rules[j].1)),
    ensures
        apply_rules(hs, rules, if m == j {
            j + 1
        } else {
            m + 1
        }) == apply_rules(hs, rules.remove(j), m),
    decreases rules.len() - m,
{
    let shorter = rules.remove(j);
    if m == j {
        // the bad rule itself: the left side starts at j + 1, the right at
        // j, and shorter[j] == rules[j + 1]
        if j + 1 >= rules.len() {
        } else {
            assert(shorter[j] == rules[j + 1]);
            let hs2 = if header_name_ok(rules[j + 1].0) && header_value_ok(rules[j + 1].1) {
                assoc_set(hs, rules[j + 1].0, rules[j + 1].1)
            } else {
                hs
            };
            lemma_tail_aligned(hs2, rules, j, j + 1);
        }
    } else {
        if m >= shorter.len() {
        } else {
            assert(shorter[m] == rules[m + 1]);
            let hs2 = if header_name_ok(rules[m + 1].0) && header_value_ok(rules[m + 1].1) {
                assoc_set(hs, rules[m + 1].0, rules[m + 1].1)
            } else {
                hs
            };
            lemma_tail_aligned(hs2, rules, j, m + 1);
        }
    }
}

/// Middleware that records one line per request; the line itself is built
/// here, the sink that receives it is the embedding program's.
#[derive(Debug, Clone, PartialEq, Eq)]
pub struct LoggingMiddleware {
    pub prefix: String,
}

impl LoggingMiddleware {
    /// A logging stage with the given line prefix.
    pub fn new(prefix: &str) -> (r: LoggingMiddleware)
        ensures
            r.prefix@ == prefix@,
    {
        LoggingMiddleware { prefix: prefix.to_owned() }
    }

    /// The log line for a request: prefix, method and destination.
    pub fn line(&self, req: &ProxyRequest) -> (r: String)
        ensures
            r@ == self.prefix@ + " "@ + req@.method + " "@ + req@.destination,
    {
        let mut out = self.prefix.clone();
        out.append(" ");
        out.append(req.method.as_str());
        out.append(" ");
        out.append(req.destination.as_str());
        out
    }
}

/// A timestamp still lies inside the trailing window ending at `now`.  A
/// stamp in the future reads as inside it.
pub open spec fn in_window(t: u64, now: u64, window: u64) -> bool {
    t >= now || now - t <= window
}

/// The timestamps of `ts` that still lie inside the window, in order.
pub open spec fn pruned(ts: Seq<u64>, now: u64, window: u64) -> Seq<u64>
    decreases ts.len(),
{
    if ts.len() == 0 {
        Seq::empty()
    } else {
        let rest = pruned(ts.drop_last(), now, window);
        if in_window(ts.last(), now, window) {
            rest.push(ts.last())
        } else {
            rest
        }
    }
}

/// What one admission check does: the key's history is pruned to the
/// window; the request is admitted when the pruned count is under the
/// ceiling, and only then is `now` recorded.
pub open spec fn spec_allow(
    entries: Seq<(Seq<char>, Seq<u64>)>,
    key: Seq<char>,
    now: u64,
    window: u64,
    max: usize,
) -> (bool, Seq<(Seq<char>, Seq<u64>)>) {
    let hist = match assoc_lookup(entries, key) {
        Some(h) => h,
        None => Seq::empty(),
    };
    let kept = pruned(hist, now, window);
    if kept.len() < max {
        (true, assoc_set(entries, key, kept.push(now)))
    } else {
        (false, assoc_set(entries, key, kept))
    }
}

/// Sliding-window admission control, keyed by a caller-supplied string.
#[derive(Debug, Clone, PartialEq, Eq)]
pub struct RateLimiter {
    pub window_secs: u64,
    pub max_requests: usize,
    pub entries: Vec<(String, Vec<u64>)>,
}

impl RateLimiter {
    /// A limiter admitting at most `max_requests` per key within any
    /// trailing window of `window_secs` seconds.
    pub fn new(window_secs: u64, max_requests: usize) -> (r: RateLimiter)
        ensures
            r.window_secs == window_secs,
            r.max_requests == max_requests,
            r.entries.deep_view() == Seq::<(Seq<char>, Seq<u64>)>::empty(),
    {
        let entries: Vec<(String, Vec<u64>)> = Vec::new();
        proof {
            assert(entries.deep_view() =~= Seq::<(Seq<char>, Seq<u64>)>::empty());
        }
        RateLimiter { window_secs, max_requests, entries }
    }

    /// One admission check for `key` at time `now` (seconds): prune, admit
    /// under the ceiling, record only when admitted.  The prune, the check
    /// and the record are one atomic step on the limiter's state.
    pub fn allow(&mut self, key: &str, now: u64) -> (allowed: bool)
        ensures
            ({
                let (a, new_entries) = spec_allow(
                    old(self).entries.deep_view(),
                    key@,
                    now,
                    old(self).window_secs,
                    old(self).max_requests,
                );
                allowed == a && final(self).entries.deep_view() == new_entries && final(self).window_secs == old(self).window_secs && final(self).max_requests == old(self).max_requests
            }),
    {
        let hist: Vec<u64> = match Self::find_history(&self.entries, key) {
            Some(h) => h,
            None => Vec::new(),
        };
        let kept = Self::prune(&hist, now, self.window_secs);
        let allowed = kept.len() < self.max_requests;
        let mut new_hist = kept;
        if allowed {
            new_hist.push(now);
        }
        self.entries = Self::set_history(&self.entries, key, new_hist);
        allowed
    }

    /// Derives the limiter key from a request: the `x-forwarded-for`
    /// header, or the shared `unknown` bucket without it.  Admits or
    /// rejects with a rate-limit error.
    pub fn handle(&mut self, req: &ProxyRequest, now: u64) -> (r: Result<(), ProxyError>)
        ensures
            ({
                let key = match assoc_lookup(req@.headers, "x-forwarded-for"@) {
                    Some(v) => v,
                    None => "unknown"@,
                };
                let (a, new_entries) = spec_allow(
                    old(self).entries.deep_view(),
                    key,
                    now,
                    old(self).window_secs,
                    old(self).max_requests,
                );
                (r is Ok <==> a) && (r is Err ==> r->Err_0.spec_kind()
                    == ErrorKind::RateLimitExceeded) && final(self).entries.deep_view()
                    == new_entries && final(self).window_secs == old(self).window_secs && final(self).max_requests == old(self).max_requests
            }),
    {
        let allowed = match header_get(&req.headers, "x-forwarded-for") {
            Some(v) => {
                let key = v.clone();
                self.allow(key.as_str(), now)
            },
            None => self.allow("unknown", now),
        };
        if allowed {
            Ok(())
        } else {
            Err(ProxyError::RateLimitExceeded("Rate limit exceeded".to_owned()))
        }
    }

    /// The recorded history of a key, cloned out.
    fn find_history(entries: &Vec<(String, Vec<u64>)>, key: &str) -> (r: Option<Vec<u64>>)
        ensures
            match r {
                Some(h) => assoc_lookup(entries.deep_view(), key@) == Some(h@),
                None => assoc_lookup(entries.deep_view(), key@) is None,
            },
    {
        let ghost dv = entries.deep_view();
        let mut i: usize = 0;
        proof {
            assert(dv.skip(0) =~= dv);
        }
        while i < entries.len()
            invariant
                i <= entries@.len(),
                dv == entries.deep_view(),
                dv.len() == entries@.len(),
                assoc_lookup(dv, key@) == assoc_lookup(dv.skip(i as int), key@),
            decreases entries@.len() - i,
        {
            proof {
                assert(dv.skip(i as int)[0] == dv[i as int]);
                assert(dv.skip(i as int).skip(1) =~= dv.skip(i as int + 1));
            }
            if str_eq(entries[i].0.as_str(), key) {
                let h = copy_u64s(&entries[i].1);
                proof {
                    assert(h@ =~= dv[i as int].1);
                }
                return Some(h);
            }
            i = i + 1;
        }
        proof {
            assert(dv.skip(dv.len() as int) =~= Seq::<(Seq<char>, Seq<u64>)>::empty());
        }
        None
    }

    /// The timestamps still inside the window, in order.
    fn prune(ts: &Vec<u64>, now: u64, window: u64) -> (r: Vec<u64>)
        ensures
            r@ == pruned(ts@, now, window),
    {
        let mut out: Vec<u64> = Vec::new();
        let mut i: usize = 0;
        proof {
            assert(ts@.take(0) =~= Seq::<u64>::empty());
        }
        while i < ts.len()
            invariant
                i <= ts@.len(),
                out@ == pruned(ts@.take(i as int), now, window),
            decreases ts@.len() - i,
        {
            let t = ts[i];
            proof {
                assert(ts@.take(i as int + 1).drop_last() =~= ts@.take(i as int));
                assert(ts@.take(i as int + 1).last() == ts@[i as int]);
            }
            if t >= now || now - t <= window {
                out.push(t);
            }
            i = i + 1;
        }
        proof {
            assert(ts@.take(ts@.len() as int) =~= ts@);
        }
        out
    }

    /// A copy of the entry list with `key`'s history replaced.
    fn set_history(entries: &Vec<(String, Vec<u64>)>, key: &str, hist: Vec<u64>) -> (r: Vec<
        (String, Vec<u64>),
    >)
        ensures
            r.deep_view() == assoc_set(entries.deep_view(), key@, hist@),
    {
        let ghost dv = entries.deep_view();
        let mut out: Vec<(String, Vec<u64>)> = Vec::new();
        let mut replaced: bool = false;
        let mut i: usize = 0;
        proof {
            assert(dv.skip(0) =~= dv);
            assert(out.deep_view() + assoc_set(dv, key@, hist@) =~= assoc_set(dv, key@, hist@));
        }
        while i < entries.len()
            invariant
                i <= entries@.len(),
                dv == entries.deep_view(),
                dv.len() == entries@.len(),
                !replaced ==> assoc_set(dv, key@, hist@) == out.deep_view() + assoc_set(
                    dv.skip(i as int),
                    key@,
                    hist@,
                ),
                replaced ==> assoc_set(dv, key@, hist@) == out.deep_view() + dv.skip(i as int),
            decreases entries@.len() - i,
        {
            proof {
                assert(dv.skip(i as int)[0] == dv[i as int]);
                assert(dv.skip(i as int).skip(1) =~= dv.skip(i as int + 1));
            }
            let ghost prev = out.deep_view();
            if !replaced && str_eq(entries[i].0.as_str(), key) {
                out.push((key.to_owned(), copy_u64s(&hist)));
                replaced = true;
                proof {
                    assert(out.deep_view() =~~= prev.push((key@, hist@)));
                    assert(assoc_set(dv, key@, hist@) =~= out.deep_view() + dv.skip(i as int + 1));
                }
            } else {
                out.push((entries[i].0.clone(), copy_u64s(&entries[i].1)));
                proof {
                    assert(out.deep_view() =~= prev.push(dv[i as int]));
                    if replaced {
                        assert(assoc_set(dv, key@, hist@) =~= out.deep_view() + dv.skip(
                            i as int + 1,
                        ));
                    } else {
                        assert(assoc_set(dv, key@, hist@) =~= out.deep_view() + assoc_set(
                            dv.skip(i as int + 1),
                            key@,
                            hist@,
                        ));
                    }
                }
            }
            i = i + 1;
        }
        proof {
            assert(dv.skip(dv.len() as int) =~= Seq::<(Seq<char>, Seq<u64>)>::empty());
        }
        if !replaced {
            let ghost prev = out.deep_view();
            out.push((key.to_owned(), copy_u64s(&hist)));
            proof {
                assert(out.deep_view() =~~= prev.push((key@, hist@)));
                assert(assoc_set(Seq::<(Seq<char>, Seq<u64>)>::empty(), key@, hist@) =~= seq![
                    (key@, hist@),
                ]);
                assert(out.deep_view() =~= assoc_set(dv, key@, hist@));
            }
        }
        out
    }
}

/// A cache entry is fresh while `now - stored_at <= ttl`; an entry stamped
/// in the future reads as fresh.
pub open spec fn entry_fresh(stored_at: u64, now: u64, ttl: u64) -> bool {
    stored_at >= now || now - stored_at <= ttl
}

/// TTL-keyed cache of response payloads for idempotent requests.
#[derive(Debug, Clone, PartialEq, Eq)]
pub struct CacheMiddleware {
    pub ttl_secs: u64,
    pub entries: Vec<(String, (Vec<u8>, u64))>,
}

impl CacheMiddleware {
    /// A cache whose entries live `ttl_secs` seconds.
    pub fn new(ttl_secs: u64) -> (r: CacheMiddleware)
        ensures
            r.ttl_secs == ttl_secs,
            r.entries.deep_view() == Seq::<(Seq<char>, (Seq<u8>, u64))>::empty(),
    {
        let entries: Vec<(String, (Vec<u8>, u64))> = Vec::new();
        proof {
            assert(entries.deep_view() =~= Seq::<(Seq<char>, (Seq<u8>, u64))>::empty());
        }
        CacheMiddleware { ttl_secs, entries }
    }

    /// The cache key of a request: method and full URI.
    pub fn generate_cache_key(method: &str, uri: &str) -> (r: String)
        ensures
            r@ == method@ + ":"@ + uri@,
    {
        let mut k = method.to_owned();
        k.append(":");
        k.append(uri);
        k
    }

    /// Looks a stored payload up: only GET requests read the cache, and an
    /// entry older than the TTL reads as absent.
    pub fn lookup(&self, method: &str, key: &str, now: u64) -> (r: Option<Vec<u8>>)
        ensures
            ({
                let hit = match assoc_lookup(self.entries.deep_view(), key@) {
                    Some(e) => if method@ == "GET"@ && entry_fresh(e.1, now, self.ttl_secs) {
                        Some(e.0)
                    } else {
                        None::<Seq<u8>>
                    },
                    None => None::<Seq<u8>>,
                };
                match r {
                    Some(payload) => hit == Some(payload@),
                    None => hit is None,
                }
            }),
    {
        if !str_eq(method, "GET") {
            return None;
        }
        match Self::find_entry(&self.entries, key) {
            Some((payload, stored_at)) => {
                if stored_at >= now || now - stored_at <= self.ttl_secs {
                    Some(payload)
                } else {
                    None
                }
            },
            None => None,
        }
    }

    /// Stores a payload under a key at time `now`; non-GET requests never
    /// populate the cache.
    pub fn store(&mut self, method: &str, key: &str, payload: Vec<u8>, now: u64)
        ensures
            final(self).ttl_secs == old(self).ttl_secs,
            method@ == "GET"@ ==> final(self).entries.deep_view() == assoc_set(
                old(self).entries.deep_view(),
                key@,
                (payload@, now),
            ),
            method@ != "GET"@ ==> final(self).entries.deep_view() == old(self).entries.deep_view(),
    {
        if !str_eq(method, "GET") {
            return ;
        }
        self.entries = Self::set_entry(&self.entries, key, payload, now);
    }

    /// The stored pair under a key, cloned out.
    fn find_entry(entries: &Vec<(String, (Vec<u8>, u64))>, key: &str) -> (r: Option<(Vec<u8>, u64)>)
        ensures
            match r {
                Some(e) => assoc_lookup(entries.deep_view(), key@) == Some((e.0@, e.1)),
                None => assoc_lookup(entries.deep_view(), key@) is None,
            },
    {
        let ghost dv = entries.deep_view();
        let mut i: usize = 0;
        proof {
            assert(dv.skip(0) =~= dv);
        }
        while i < entries.len()
            invariant
                i <= entries@.len(),
                dv == entries.deep_view(),
                dv.len() == entries@.len(),
                assoc_lookup(dv, key@) == assoc_lookup(dv.skip(i as int), key@),
            decreases entries@.len() - i,
        {
            proof {
                assert(dv.skip(i as int)[0] == dv[i as int]);
                assert(dv.skip(i as int).skip(1) =~= dv.skip(i as int + 1));
            }
            if str_eq(entries[i].0.as_str(), key) {
                let payload = copy_bytes(&entries[i].1.0);
                let stored_at = entries[i].1.1;
                proof {
                    assert(payload@ =~= dv[i as int].1.0);
                }
                return Some((payload, stored_at));
            }
            i = i + 1;
        }
        proof {
            assert(dv.skip(dv.len() as int) =~= Seq::<(Seq<char>, (Seq<u8>, u64))>::empty());
        }
        None
    }

    /// A copy of the entry list with `key` bound to the payload and stamp.
    fn set_entry(
        entries: &Vec<(String, (Vec<u8>, u64))>,
        key: &str,
        payload: Vec<u8>,
        now: u64,
    ) -> (r: Vec<(String, (Vec<u8>, u64))>)
        ensures
            r.deep_view() == assoc_set(entries.deep_view(), key@, (payload@, now)),
    {
        let ghost dv = entries.deep_view();
        let ghost value = (payload@, now);
        let mut out: Vec<(String, (Vec<u8>, u64))> = Vec::new();
        let mut replaced: bool = false;
        let mut i: usize = 0;
        proof {
            assert(dv.skip(0) =~= dv);
            assert(out.deep_view() + assoc_set(dv, key@, value) =~= assoc_set(dv, key@, value));
        }
        while i < entries.len()
            invariant
                i <= entries@.len(),
                dv == entries.deep_view(),
                dv.len() == entries@.len(),
                value == (payload@, now),
                !replaced ==> assoc_set(dv, key@, value) == out.deep_view() + assoc_set(
                    dv.skip(i as int),
                    key@,
                    value,
                ),
                replaced ==> assoc_set(dv, key@, value) == out.deep_view() + dv.skip(i as int),
            decreases entries@.len() - i,
        {
            proof {
                assert(dv.skip(i as int)[0] == dv[i as int]);
                assert(dv.skip(i as int).skip(1) =~= dv.skip(i as int + 1));
            }
            let ghost prev = out.deep_view();
            if !replaced && str_eq(entries[i].0.as_str(), key) {
                out.push((key.to_owned(), (copy_bytes(&payload), now)));
                replaced = true;
                proof {
                    assert(out.deep_view() =~~= prev.push((key@, value)));
                    assert(assoc_set(dv, key@, value) =~= out.deep_view() + dv.skip(i as int + 1));
                }
            } else {
                let name = entries[i].0.clone();
                let stored = copy_bytes(&entries[i].1.0);
                let at = entries[i].1.1;
                out.push((name, (stored, at)));
                proof {
                    assert(out.deep_view() =~= prev.push(dv[i as int]));
                    if replaced {
                        assert(assoc_set(dv, key@, value) =~= out.deep_view() + dv.skip(
                            i as int + 1,
                        ));
                    } else {
                        assert(assoc_set(dv, key@, value) =~= out.deep_view() + assoc_set(
                            dv.skip(i as int + 1),
                            key@,
                            value,
                        ));
                    }
                }
            }
            i = i + 1;
        }
        proof {
            assert(dv.skip(dv.len() as int) =~= Seq::<(Seq<char>, (Seq<u8>, u64))>::empty());
        }
        if !replaced {
            let ghost prev = out.deep_view();
            out.push((key.to_owned(), (payload, now)));
            proof {
                assert(out.deep_view() =~~= prev.push((key@, value)));
                assert(assoc_set(Seq::<(Seq<char>, (Seq<u8>, u64))>::empty(), key@, value) =~= seq![
                    (key@, value),
                ]);
                assert(out.deep_view() =~= assoc_set(dv, key@, value));
            }
        }
        out
    }
}

} // verus!
