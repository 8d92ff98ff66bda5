//! Bookkeeping of the connection pool: the per-host client registry, the
//! bounded in-flight slot count, and the retry-with-backoff policy.
//!
//! The network calls themselves are the embedding program's; it keeps one
//! reusable client per registered host (by the index this module hands
//! out), asks [`ProxyPool::next_decision`] what to do after every attempt,
//! and performs the waits and sends it is told to.

use vstd::prelude::*;

use crate::strutil::str_eq;
use crate::types::ErrorKind;
use crate::types::ProxyConfig;
use crate::types::ProxyError;
use crate::types::ProxyResponse;

verus! {

/// Most retries after the first attempt of a forwarded request.
pub const MAX_RETRIES: u32 = 3;

/// Base backoff delay; the wait before retry `n` is `n` times this.
pub const RETRY_DELAY_MS: u64 = 100;

/// Point-in-time occupancy of the pool.
#[derive(Debug, Clone, Copy, PartialEq, Eq, Structural)]
pub struct ProxyPoolMetrics {
    pub available_connections: usize,
    pub max_connections: usize,
}

/// What one forwarding attempt came back with.
#[derive(Debug, Clone, PartialEq, Eq)]
pub enum AttemptOutcome {
    /// The destination answered.  Its status is passed through unchanged,
    /// error statuses included.
    Response(ProxyResponse),
    /// The transport failed before a response arrived.
    TransportError(String),
    /// The attempt ran past the per-attempt deadline.
    TimedOut,
}

/// What the pool does after an attempt.
#[derive(Debug, Clone, PartialEq, Eq)]
pub enum ForwardDecision {
    /// Hand this response back.
    Respond(ProxyResponse),
    /// Wait this many milliseconds, then try again.
    RetryAfter(u64),
    /// Give up with this error.
    Fail(ProxyError),
}

/// The index of the first entry equal to `host`.
pub open spec fn host_index(hosts: Seq<Seq<char>>, host: Seq<char>) -> Option<int>
    decreases hosts.len(),
{
    if hosts.len() == 0 {
        None
    } else if hosts[0] == host {
        Some(0)
    } else {
        match host_index(hosts.skip(1), host) {
            Some(j) => Some(j + 1),
            None => None,
        }
    }
}

/// Characterization of [`host_index`]: it is the first match.
pub proof fn lemma_host_index(hosts: Seq<Seq<char>>, host: Seq<char>)
    ensures
        match host_index(hosts, host) {
            Some(j) => 0 <= j < hosts.len() && hosts[j] == host && (forall|k: int|
                0 <= k < j ==> hosts[k] != host),
            None => forall|k: int| 0 <= k < hosts.len() ==> hosts[k] != host,
        },
    decreases hosts.len(),
{
    if hosts.len() == 0 {
    } else if hosts[0] == host {
    } else {
        let tail = hosts.skip(1);
        lemma_host_index(tail, host);
        match host_index(tail, host) {
            Some(j2) => {
                assert(hosts[j2 + 1] == tail[j2]);
                assert forall|k: int| 0 <= k < j2 + 1 implies hosts[k] != host by {
                    if k > 0 {
                        assert(hosts[k] == tail[k - 1]);
                    }
                }
            },
            None => {
                assert forall|k: int| 0 <= k < hosts.len() implies hosts[k] != host by {
                    if k > 0 {
                        assert(hosts[k] == tail[k - 1]);
                    }
                }
            },
        }
    }
}

/// Registering a host that is absent puts it at the end.
pub proof fn lemma_host_index_push(hosts: Seq<Seq<char>>, host: Seq<char>)
    requires
        host_index(hosts, host) is None,
    ensures
        host_index(hosts.push(host), host) == Some(hosts.len() as int),
    decreases hosts.len(),
{
    if hosts.len() == 0 {
        assert(hosts.push(host)[0] == host);
    } else {
        assert(hosts.push(host)[0] == hosts[0]);
        assert(hosts.push(host).skip(1) =~= hosts.skip(1).push(host));
        lemma_host_index_push(hosts.skip(1), host);
    }
}

/// What acquiring a client for `host` does: an already registered host is
/// reused at its index and nothing is added; a new host is appended and
/// exactly one entry is created.
pub open spec fn spec_client_for(hosts: Seq<Seq<char>>, host: Seq<char>) -> (
    int,
    bool,
    Seq<Seq<char>>,
) {
    match host_index(hosts, host) {
        Some(j) => (j, false, hosts),
        None => (hosts.len() as int, true, hosts.push(host)),
    }
}

/// Pool reuse: after any acquisition for `host`, a second acquisition for
/// the same host finds the same entry and creates nothing.
pub proof fn lemma_pool_reuse(hosts: Seq<Seq<char>>, host: Seq<char>)
    ensures
        ({
            let (i1, c1, h1) = spec_client_for(hosts, host);
            let (i2, c2, h2) = spec_client_for(h1, host);
            i2 == i1 && !c2 && h2 == h1
        }),
{
    lemma_host_index(hosts, host);
    match host_index(hosts, host) {
        Some(j) => {
        },
        None => {
            lemma_host_index_push(hosts, host);
        },
    }
}

/// The pool's verified state: the registered destination hosts (one pooled
/// client each, kept by the embedding program under the same indexes), the
/// count of in-flight forwarded requests, and the configuration that bounds
/// them.
#[derive(Debug, Clone)]
pub struct ProxyPool {
    pub config: ProxyConfig,
    pub hosts: Vec<String>,
    pub in_flight: usize,
}

impl ProxyPool {
    /// The pool never holds more in-flight requests than its capacity.
    pub open spec fn wf(&self) -> bool {
        self.in_flight <= self.config.pool_size as usize
    }

    /// An empty pool over the given configuration.
    pub fn new(config: ProxyConfig) -> (r: ProxyPool)
        ensures
            r.wf(),
            r.config == config,
            r.hosts.deep_view() == Seq::<Seq<char>>::empty(),
            r.in_flight == 0,
    {
        let hosts: Vec<String> = Vec::new();
        proof {
            assert(hosts.deep_view() =~= Seq::<Seq<char>>::empty());
        }
        ProxyPool { config, hosts, in_flight: 0 }
    }

    /// The index of the pooled client for `host`, registering the host
    /// first when it is new.  The first request to a new host creates its
    /// entry; every later request reuses it.
    pub fn client_for(&mut self, host: &str) -> (r: (usize, bool))
        ensures
            ({
                let (idx, created, new_hosts) = spec_client_for(
                    old(self).hosts.deep_view(),
                    host@,
                );
                r.0 as int == idx && r.1 == created && final(self).hosts.deep_view() == new_hosts
            }),
            final(self).config == old(self).config,
            final(self).in_flight == old(self).in_flight,
            old(self).wf() ==> final(self).wf(),
    {
        let ghost dv = self.hosts.deep_view();
        proof {
            lemma_host_index(dv, host@);
        }
        let mut i: usize = 0;
        while i < self.hosts.len()
            invariant
                i <= self.hosts@.len(),
                dv == self.hosts.deep_view(),
                dv.len() == self.hosts@.len(),
                forall|k: int| 0 <= k < i ==> dv[k] != host@,
            decreases self.hosts@.len() - i,
        {
            if str_eq(self.hosts[i].as_str(), host) {
                proof {
                    lemma_host_index(dv, host@);
                    assert(dv[i as int] == host@);
                    match host_index(dv, host@) {
                        Some(j) => {
                            if j < i {
                                assert(dv[j] != host@);
                            }
                            if j > i {
                                assert(dv[i as int] != host@);
                            }
                            assert(j == i);
                        },
                        None => {
                            assert(dv[i as int] != host@);
                        },
                    }
                }
                return (i, false);
            }
            i = i + 1;
        }
        let idx = self.hosts.len();
        let ghost prev = self.hosts.deep_view();
        self.hosts.push(host.to_owned());
        proof {
            assert(self.hosts.deep_view() =~~= prev.push(host@));
        }
        (idx, true)
    }

    /// Takes one in-flight slot when the pool is under capacity.  The
    /// check and the count are one step on the pool's state; a caller that
    /// is refused may wait and try again.
    pub fn try_acquire(&mut self) -> (ok: bool)
        ensures
            ok == (old(self).in_flight < old(self).config.pool_size as usize),
            ok ==> final(self).in_flight == old(self).in_flight + 1,
            !ok ==> final(self).in_flight == old(self).in_flight,
            final(self).config == old(self).config,
            final(self).hosts == old(self).hosts,
            old(self).wf() ==> final(self).wf(),
    {
        if self.in_flight < self.config.pool_size as usize {
            self.in_flight = self.in_flight + 1;
            true
        } else {
            false
        }
    }

    /// Releases one in-flight slot.
    pub fn release(&mut self)
        requires
            old(self).in_flight > 0,
        ensures
            final(self).in_flight == old(self).in_flight - 1,
            final(self).config == old(self).config,
            final(self).hosts == old(self).hosts,
            old(self).wf() ==> final(self).wf(),
    {
        self.in_flight = self.in_flight - 1;
    }

    /// Point-in-time occupancy: free slots and the configured maximum.
    pub fn get_metrics(&self) -> (m: ProxyPoolMetrics)
        requires
            self.wf(),
        ensures
            m.available_connections == self.config.pool_size as usize - self.in_flight,
            m.max_connections == self.config.pool_size as usize,
    {
        ProxyPoolMetrics {
            available_connections: self.config.pool_size as usize - self.in_flight,
            max_connections: self.config.pool_size as usize,
        }
    }

    /// The decision after one forwarding attempt, `retries` retries in: a
    /// response is handed back unchanged, whatever its status; a transport
    /// failure or timeout is retried with a linearly growing backoff until
    /// the retry budget is spent, and then surfaces as the matching error.
    /// A timeout error carries the configured per-attempt deadline.
    pub fn next_decision(retries: u32, outcome: AttemptOutcome, timeout_secs: u64) -> (d:
        ForwardDecision)
        ensures
            match outcome {
                AttemptOutcome::Response(resp) => d == ForwardDecision::Respond(resp),
                AttemptOutcome::TransportError(_) => if retries >= MAX_RETRIES {
                    d matches ForwardDecision::Fail(e) && e.spec_kind() == ErrorKind::ForwardError
                } else {
                    d == ForwardDecision::RetryAfter((RETRY_DELAY_MS * ((retries + 1) as u64)) as u64)
                },
                AttemptOutcome::TimedOut => if retries >= MAX_RETRIES {
                    d matches ForwardDecision::Fail(e) && (e matches ProxyError::Timeout(_, dur)
                        && dur == timeout_secs)
                } else {
                    d == ForwardDecision::RetryAfter((RETRY_DELAY_MS * ((retries + 1) as u64)) as u64)
                },
            },
    {
        match outcome {
            AttemptOutcome::Response(resp) => ForwardDecision::Respond(resp),
            AttemptOutcome::TransportError(msg) => {
                if retries >= MAX_RETRIES {
                    ForwardDecision::Fail(ProxyError::ForwardError(msg))
                } else {
                    ForwardDecision::RetryAfter(RETRY_DELAY_MS * ((retries + 1) as u64))
                }
            },
            AttemptOutcome::TimedOut => {
                if retries >= MAX_RETRIES {
                    ForwardDecision::Fail(
                        ProxyError::Timeout("attempt timed out".to_owned(), timeout_secs),
                    )
                } else {
                    ForwardDecision::RetryAfter(RETRY_DELAY_MS * ((retries + 1) as u64))
                }
            },
        }
    }
}

/// The error kind that an exhausted attempt surfaces as.
pub open spec fn outcome_error_kind(o: AttemptOutcome) -> ErrorKind {
    match o {
        AttemptOutcome::TimedOut => ErrorKind::Timeout,
        _ => ErrorKind::ForwardError,
    }
}

/// The retry loop run over a recorded sequence of attempt outcomes,
/// starting `retries` retries in: the result the pool surfaces, and the
/// backoff delays waited, in order.  An empty record reads as a transport
/// failure.
pub open spec fn spec_run_forward(outcomes: Seq<AttemptOutcome>, retries: u32) -> (
    Result<ProxyResponse, ErrorKind>,
    Seq<u64>,
)
    decreases outcomes.len(),
{
    if outcomes.len() == 0 {
        (Err(ErrorKind::ForwardError), Seq::empty())
    } else {
        match outcomes[0] {
            AttemptOutcome::Response(r) => (Ok(r), Seq::empty()),
            _ => {
                if retries >= MAX_RETRIES {
                    (Err(outcome_error_kind(outcomes[0])), Seq::empty())
                } else {
                    let d = (RETRY_DELAY_MS * ((retries + 1) as u64)) as u64;
                    let rest = spec_run_forward(outcomes.skip(1), (retries + 1) as u32);
                    (rest.0, seq![d] + rest.1)
                }
            },
        }
    }
}

/// Backoff monotonicity: over any recorded outcome sequence, the delays
/// the retry loop waits never decrease from one retry to the next.
pub proof fn lemma_backoff_monotonic(outcomes: Seq<AttemptOutcome>, retries: u32)
    ensures
        ({
            let delays = spec_run_forward(outcomes, retries).1;
            forall|a: int, b: int| 0 <= a <= b < delays.len() ==> delays[a] <= delays[b]
        }),
    decreases outcomes.len(),
{
    let delays = spec_run_forward(outcomes, retries).1;
    if outcomes.len() == 0 {
    } else {
        match outcomes[0] {
            AttemptOutcome::Response(_) => {
            },
            _ => {
                if retries >= MAX_RETRIES {
                } else {
                    lemma_backoff_monotonic(outcomes.skip(1), (retries + 1) as u32);
                    let rest = spec_run_forward(outcomes.skip(1), (retries + 1) as u32).1;
                    lemma_backoff_floor(outcomes.skip(1), (retries + 1) as u32);
                    assert(forall|b: int| 0 <= b < rest.len() ==> delays[b + 1] == rest[b]);
                }
            },
        }
    }
}

/// Every delay the loop waits from `retries` retries in is at least the
/// next scheduled backoff.
proof fn lemma_backoff_floor(outcomes: Seq<AttemptOutcome>, retries: u32)
    ensures
        ({
            let delays = spec_run_forward(outcomes, retries).1;
            forall|a: int|
                0 <= a < delays.len() ==> delays[a] >= (RETRY_DELAY_MS * ((retries + 1) as u64)) as u64
        }),
    decreases outcomes.len(),
{
    let delays = spec_run_forward(outcomes, retries).1;
    if outcomes.len() == 0 {
    } else {
        match outcomes[0] {
            AttemptOutcome::Response(_) => {
            },
            _ => {
                if retries >= MAX_RETRIES {
                } else {
                    lemma_backoff_floor(outcomes.skip(1), (retries + 1) as u32);
                    let rest = spec_run_forward(outcomes.skip(1), (retries + 1) as u32).1;
                    assert(forall|b: int| 0 <= b < rest.len() ==> delays[b + 1] == rest[b]);
                    assert(delays[0] == (RETRY_DELAY_MS * ((retries + 1) as u64)) as u64);
                }
            },
        }
    }
}

/// Retry exhaustion: when every recorded outcome is a failure and the
/// record outlasts the budget, the loop surfaces the error of the last
/// attempt it made.
pub proof fn lemma_retry_exhaustion(outcomes: Seq<AttemptOutcome>, retries: u32)
    requires
        retries <= MAX_RETRIES,
        outcomes.len() > MAX_RETRIES - retries,
        forall|i: int|
            0 <= i < outcomes.len() ==> !((#[trigger] outcomes[i]) matches
            AttemptOutcome::Response(_)),
    ensures
        spec_run_forward(outcomes, retries).0 == Err::<ProxyResponse, ErrorKind>(
            outcome_error_kind(outcomes[MAX_RETRIES - retries]),
        ),
    decreases outcomes.len(),
{
    if retries == MAX_RETRIES {
    } else {
        lemma_retry_exhaustion(outcomes.skip(1), (retries + 1) as u32);
        assert(outcomes.skip(1)[MAX_RETRIES - retries - 1] == outcomes[MAX_RETRIES - retries]);
    }
}

/// A copy of a response.
fn copy_response(r: &ProxyResponse) -> (c: ProxyResponse)
    ensures
        c@ == r@,
{
    let c = ProxyResponse {
        status: r.status,
        headers: crate::middleware::copy_pairs(&r.headers),
        body: crate::middleware::copy_bytes(&r.body),
    };
    proof {
        assert(c@ =~~= r@);
    }
    c
}

/// Runs the retry schedule over a recorded sequence of attempt outcomes:
/// what the pool would surface, and the backoff delays it would wait, in
/// order.
pub fn run_forward_plan(outcomes: &Vec<AttemptOutcome>, timeout_secs: u64) -> (r: (
    Result<ProxyResponse, ProxyError>,
    Vec<u64>,
))
    ensures
        ({
            let (res, delays) = spec_run_forward(outcomes@, 0);
            ((match res {
                Ok(resp) => r.0 matches Ok(got) && got@ == resp@,
                Err(k) => r.0 matches Err(e) && e.spec_kind() == k && (k == ErrorKind::Timeout
                    ==> (e matches ProxyError::Timeout(_, dur) && dur == timeout_secs)),
            }) && r.1@ == delays)
        }),
{
    let mut i: usize = 0;
    let mut retries: u32 = 0;
    let mut delays: Vec<u64> = Vec::new();
    let n = outcomes.len();
    proof {
        assert(outcomes@.skip(0) =~= outcomes@);
        assert(Seq::<u64>::empty() + spec_run_forward(outcomes@, 0).1 =~= spec_run_forward(
            outcomes@,
            0,
        ).1);
    }
    while i < n
        invariant
            i <= n,
            n == outcomes@.len(),
            retries <= MAX_RETRIES,
            retries as int == i,
            spec_run_forward(outcomes@, 0).0 == spec_run_forward(
                outcomes@.skip(i as int),
                retries,
            ).0,
            spec_run_forward(outcomes@, 0).1 == delays@ + spec_run_forward(
                outcomes@.skip(i as int),
                retries,
            ).1,
        decreases n - i,
    {
        proof {
            assert(outcomes@.skip(i as int)[0] == outcomes@[i as int]);
            assert(outcomes@.skip(i as int).skip(1) =~= outcomes@.skip(i as int + 1));
        }
        match &outcomes[i] {
            AttemptOutcome::Response(resp) => {
                return (Ok(copy_response(resp)), delays);
            },
            AttemptOutcome::TransportError(msg) => {
                if retries >= MAX_RETRIES {
                    return (Err(ProxyError::ForwardError(msg.clone())), delays);
                }
                let d = RETRY_DELAY_MS * ((retries + 1) as u64);
                delays.push(d);
                proof {
                    assert(delays@ =~= delays@.drop_last().push(d));
                    assert(delays@.drop_last() + (seq![d] + spec_run_forward(
                        outcomes@.skip(i as int + 1),
                        (retries + 1) as u32,
                    ).1) =~= delays@ + spec_run_forward(
                        outcomes@.skip(i as int + 1),
                        (retries + 1) as u32,
                    ).1);
                }
                retries = retries + 1;
            },
            AttemptOutcome::TimedOut => {
                if retries >= MAX_RETRIES {
                    return (
                        (Err(ProxyError::Timeout("attempt timed out".to_owned(), timeout_secs))),
                        delays,
                    );
                }
                let d = RETRY_DELAY_MS * ((retries + 1) as u64);
                delays.push(d);
                proof {
                    assert(delays@ =~= delays@.drop_last().push(d));
                    assert(delays@.drop_last() + (seq![d] + spec_run_forward(
                        outcomes@.skip(i as int + 1),
                        (retries + 1) as u32,
                    ).1) =~= delays@ + spec_run_forward(
                        outcomes@.skip(i as int + 1),
                        (retries + 1) as u32,
                    ).1);
                }
                retries = retries + 1;
            },
        }
        i = i + 1;
    }
    (Err(ProxyError::ForwardError("transport never answered".to_owned())), delays)
}

} // verus!
