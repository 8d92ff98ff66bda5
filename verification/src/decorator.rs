//! The pass-through decorator route: a path of the form `/@zap/<target>`
//! forwards straight to `https://<target>`, the original query text
//! appended.  Building the destination is the logic; the send itself is
//! the embedding program's.

use vstd::prelude::*;

use crate::strutil::starts_with;
use crate::strutil::str_starts_with;
use crate::types::ErrorKind;
use crate::types::ProxyError;

verus! {

/// The pass-through destination of a path and optional query: the text
/// after the `/@zap/` prefix, behind `https://`, the query appended as the
/// original carried it.  A path without the prefix is rejected.
pub open spec fn spec_zap_destination(path: Seq<char>, query: Option<Seq<char>>) -> Result<
    Seq<char>,
    ErrorKind,
> {
    if !starts_with(path, "/@zap/"@) {
        Err(ErrorKind::InvalidUri)
    } else {
        Ok(
            "https://"@ + path.skip("/@zap/"@.len() as int) + (match query {
                Some(q) => q,
                None => Seq::empty(),
            }),
        )
    }
}

/// Builds the pass-through destination for a path and optional query.
pub fn zap_destination(path: &str, query: Option<&str>) -> (r: Result<String, ProxyError>)
    ensures
        match spec_zap_destination(path@, query.deep_view()) {
            Ok(d) => r matches Ok(s) && s@ == d,
            Err(k) => r matches Err(e) && e.spec_kind() == k,
        },
{
    if !str_starts_with(path, "/@zap/") {
        return Err(ProxyError::InvalidUri("URL must start with @zap/".to_owned()));
    }
    let n = path.unicode_len();
    proof {
        reveal_strlit("/@zap/");
    }
    let target = path.substring_char(6, n);
    proof {
        assert(target@ =~= path@.skip("/@zap/"@.len() as int));
    }
    let mut out = "https://".to_owned();
    out.append(target);
    match query {
        Some(q) => {
            out.append(q);
        },
        None => {
            proof {
                assert(out@ + Seq::<char>::empty() =~= out@);
            }
        },
    }
    Ok(out)
}

} // verus!
