//! Trusted validity checks for header names, header values and URIs.
//!
//! Each grammar is the outside crate's; the library only needs to know
//! whether a given text belongs to it, so each check gets a name and a
//! boolean wrapper.

use vstd::prelude::*;

verus! {

/// The text is a valid HTTP header name.
pub uninterp spec fn header_name_ok(s: Seq<char>) -> bool;

/// The text is a valid HTTP header value.
pub uninterp spec fn header_value_ok(s: Seq<char>) -> bool;

/// The text is a well-formed URI.
pub uninterp spec fn uri_wellformed(s: Seq<char>) -> bool;

/// Relies on `http::header::HeaderName::from_bytes`: accepts exactly the
/// valid header names.
#[verifier::external_body]
pub fn check_header_name(s: &str) -> (r: bool)
    ensures
        r == header_name_ok(s@),
{
    http::header::HeaderName::from_bytes(s.as_bytes()).is_ok()
}

/// Relies on `http::header::HeaderValue::from_str`: accepts exactly the
/// valid header values.
#[verifier::external_body]
pub fn check_header_value(s: &str) -> (r: bool)
    ensures
        r == header_value_ok(s@),
{
    http::header::HeaderValue::from_str(s).is_ok()
}

/// Relies on `http::Uri::try_from::<&str>`: accepts exactly the well-formed
/// URIs.
#[verifier::external_body]
pub fn check_uri(s: &str) -> (r: bool)
    ensures
        r == uri_wellformed(s@),
{
    http::Uri::try_from(s).is_ok()
}

/// Relies on `chrono::Utc::now`: the current time, rendered as an RFC 3339
/// timestamp.  Nothing is promised of the text: the clock decides it.
#[verifier::external_body]
pub fn now_rfc3339() -> (r: String) {
    chrono::Utc::now().to_rfc3339()
}

} // verus!
