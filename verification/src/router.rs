//! Route classification for the demonstration endpoints behind the
//! gateway.  The classification is the decision; the JSON-producing bodies
//! themselves draw random data and live in the embedding program.

use vstd::prelude::*;

use crate::strutil::starts_with;
use crate::strutil::str_eq;
use crate::strutil::str_starts_with;

verus! {

/// Which demonstration endpoint a request selects.  Arms are tried in
/// order, so every GET under the data prefix reads as data retrieval,
/// search paths included.
#[derive(Debug, Clone, Copy, PartialEq, Eq, Structural)]
pub enum RouteKind {
    /// GET under `/api/data/`.
    DataRetrieval,
    /// POST to `/api/data/process`.
    DataProcess,
    /// GET under `/api/metrics/aggregate/`.
    MetricsAggregate,
    /// POST to `/api/events/analyze`.
    EventsAnalyze,
    /// Anything else.
    NotFound,
}

/// The endpoint selected by a method and path, first matching arm.
pub open spec fn spec_route_of(method: Seq<char>, path: Seq<char>) -> RouteKind {
    if method == "GET"@ && starts_with(path, "/api/data/"@) {
        RouteKind::DataRetrieval
    } else if method == "POST"@ && path == "/api/data/process"@ {
        RouteKind::DataProcess
    } else if method == "GET"@ && starts_with(path, "/api/metrics/aggregate/"@) {
        RouteKind::MetricsAggregate
    } else if method == "POST"@ && path == "/api/events/analyze"@ {
        RouteKind::EventsAnalyze
    } else {
        RouteKind::NotFound
    }
}

/// Dispatcher for the demonstration endpoints.
pub struct Router {}

impl Router {
    /// A router value; classification itself is stateless.
    pub fn new() -> (r: Router) {
        Router {  }
    }

    /// Classifies a request by method and path.
    pub fn route_of(&self, method: &str, path: &str) -> (r: RouteKind)
        ensures
            r == spec_route_of(method@, path@),
    {
        if str_eq(method, "GET") && str_starts_with(path, "/api/data/") {
            RouteKind::DataRetrieval
        } else if str_eq(method, "POST") && str_eq(path, "/api/data/process") {
            RouteKind::DataProcess
        } else if str_eq(method, "GET") && str_starts_with(path, "/api/metrics/aggregate/") {
            RouteKind::MetricsAggregate
        } else if str_eq(method, "POST") && str_eq(path, "/api/events/analyze") {
            RouteKind::EventsAnalyze
        } else {
            RouteKind::NotFound
        }
    }
}

} // verus!
