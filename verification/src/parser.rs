//! The path-decorator parser: reads routing and policy directives out of a
//! request path.
//!
//! A directive is a literal block `(keyword = {json-object})` inside the
//! path (for `middleware`, the payload is a JSON array `[...]`); path
//! parameters use bracket syntax `[name]`, with a trailing `[...name]` as a
//! wildcard.  The whole parse is a function of the method and path alone,
//! pinned by [`spec_parse`].

use vstd::prelude::*;

use crate::json::json_of;
use crate::json::json_parse;
use crate::json::json_rep;
use crate::json::json_text;
use crate::json::obj_lookup;
use crate::json::value_as_array;
use crate::json::value_as_str;
use crate::json::value_as_u64;
use crate::json::value_get;
use crate::json::value_is_null;
use crate::json::value_is_object;
use crate::json::value_object_entries;
use crate::json::value_to_text;
use crate::json::JsonData;
use crate::types::CacheConfig;
use crate::types::CacheConfigV;
use crate::types::PathParamsV;
use crate::validate::check_uri;
use crate::validate::uri_wellformed;
use crate::strutil::str_starts_with;
use crate::types::ErrorKind;
use crate::types::PathParams;
use crate::types::ProxyError;
use crate::types::ProxyRequest;
use crate::types::RateLimitConfig;
use crate::types::RouteConfig;
use crate::types::RouteConfigV;
use crate::types::SerializableMethod;
use crate::types::TransformConfig;
use crate::types::TransformConfigV;
use crate::types::TransformRules;
use crate::types::TransformRulesV;
use crate::strutil::find_char;
use crate::strutil::find_char_from;
use crate::strutil::is_space;
use crate::strutil::matches_at;
use crate::strutil::skip_spaces;
use crate::strutil::skip_spaces_from;
use crate::strutil::starts_with;
use crate::strutil::str_matches_at;

verus! {

/// Bounds and characterization of [`find_char`].
pub proof fn lemma_find_char(s: Seq<char>, i: int, c: char)
    ensures
        match find_char(s, i, c) {
            Some(k) => i <= k < s.len() && s[k] == c && (forall|j: int| i <= j < k ==> s[j] != c),
            None => 0 <= i ==> (forall|j: int| i <= j < s.len() ==> s[j] != c),
        },
    decreases s.len() - i,
{
    if i < 0 || i >= s.len() {
    } else if s[i] == c {
    } else {
        lemma_find_char(s, i + 1, c);
    }
}

/// Bounds of [`skip_spaces`].
pub proof fn lemma_skip_spaces(s: Seq<char>, i: int)
    requires
        0 <= i <= s.len(),
    ensures
        i <= skip_spaces(s, i) <= s.len(),
    decreases s.len() - i,
{
    if i < s.len() && is_space(s[i]) {
        lemma_skip_spaces(s, i + 1);
    }
}

/// The position of the close brace matching an open brace: scanning from
/// `i` with `depth` braces already open, the first position where the
/// depth returns to zero.
pub open spec fn find_close(s: Seq<char>, i: int, depth: int) -> Option<int>
    decreases s.len() - i,
{
    if i < 0 || i >= s.len() {
        None
    } else if s[i] == '}' {
        if depth == 1 {
            Some(i)
        } else {
            find_close(s, i + 1, depth - 1)
        }
    } else if s[i] == '{' {
        find_close(s, i + 1, depth + 1)
    } else {
        find_close(s, i + 1, depth)
    }
}

/// The position of the close brace matching the open brace just before
/// `from`.
fn find_close_from(s: &str, from: usize) -> (r: Option<usize>)
    requires
        from <= s@.len(),
    ensures
        match r {
            Some(k) => find_close(s@, from as int, 1) == Some(k as int) && from <= k < s@.len(),
            None => find_close(s@, from as int, 1) is None,
        },
{
    let n = s.unicode_len();
    let mut i: usize = from;
    let mut depth: u128 = 1;
    while i < n
        invariant
            from <= i <= n,
            n == s@.len(),
            depth >= 1,
            depth <= (i - from) as u128 + 1,
            find_close(s@, from as int, 1) == find_close(s@, i as int, depth as int),
        decreases n - i,
    {
        let c = s.get_char(i);
        if c == '}' {
            if depth == 1 {
                return Some(i);
            }
            depth = depth - 1;
        } else if c == '{' {
            depth = depth + 1;
        }
        i = i + 1;
    }
    None
}

/// The payload of a brace directive `(kw = {...})` standing at position `i`
/// (the opening parenthesis), if one does.  The payload is the brace-
/// delimited text up to the matching close brace, at least one character
/// between the braces.
pub open spec fn brace_payload_at(s: Seq<char>, kw: Seq<char>, i: int) -> Option<Seq<char>> {
    if 0 <= i < s.len() && s[i] == '(' {
        let j1 = skip_spaces(s, i + 1);
        if matches_at(s, j1, kw) {
            let j2 = skip_spaces(s, j1 + kw.len());
            if j2 < s.len() && s[j2] == '=' {
                let j3 = skip_spaces(s, j2 + 1);
                if j3 < s.len() && s[j3] == '{' {
                    match find_close(s, j3 + 1, 1) {
                        Some(k) => {
                            let j4 = skip_spaces(s, k + 1);
                            if k > j3 + 1 && j4 < s.len() && s[j4] == ')' {
                                Some(s.subrange(j3, k + 1))
                            } else {
                                None
                            }
                        },
                        None => None,
                    }
                } else {
                    None
                }
            } else {
                None
            }
        } else {
            None
        }
    } else {
        None
    }
}

/// The payload of the leftmost brace directive at or after position `i`.
pub open spec fn find_brace_directive(s: Seq<char>, kw: Seq<char>, i: int) -> Option<Seq<char>>
    decreases s.len() - i,
{
    if i < 0 || i >= s.len() {
        None
    } else if brace_payload_at(s, kw, i) is Some {
        brace_payload_at(s, kw, i)
    } else {
        find_brace_directive(s, kw, i + 1)
    }
}

/// First position at or after `k` holding `]` whose next non-space
/// character is `)`.
pub open spec fn bracket_end(s: Seq<char>, k: int) -> Option<int>
    decreases s.len() - k,
{
    if k < 0 || k >= s.len() {
        None
    } else if s[k] == ']' && skip_spaces(s, k + 1) < s.len() && s[skip_spaces(s, k + 1)] == ')' {
        Some(k)
    } else {
        bracket_end(s, k + 1)
    }
}

/// The payload of a bracket directive `(kw = [...])` standing at position
/// `i`, if one does.  The payload is the bracket-delimited text, possibly
/// empty between the brackets.
pub open spec fn bracket_payload_at(s: Seq<char>, kw: Seq<char>, i: int) -> Option<Seq<char>> {
    if 0 <= i < s.len() && s[i] == '(' {
        let j1 = skip_spaces(s, i + 1);
        if matches_at(s, j1, kw) {
            let j2 = skip_spaces(s, j1 + kw.len());
            if j2 < s.len() && s[j2] == '=' {
                let j3 = skip_spaces(s, j2 + 1);
                if j3 < s.len() && s[j3] == '[' {
                    match bracket_end(s, j3 + 1) {
                        Some(k) => Some(s.subrange(j3, k + 1)),
                        None => None,
                    }
                } else {
                    None
                }
            } else {
                None
            }
        } else {
            None
        }
    } else {
        None
    }
}

/// The payload of the leftmost bracket directive at or after position `i`.
pub open spec fn find_bracket_directive(s: Seq<char>, kw: Seq<char>, i: int) -> Option<Seq<char>>
    decreases s.len() - i,
{
    if i < 0 || i >= s.len() {
        None
    } else if bracket_payload_at(s, kw, i) is Some {
        bracket_payload_at(s, kw, i)
    } else {
        find_bracket_directive(s, kw, i + 1)
    }
}

/// Reads a brace directive standing at position `i`.
fn try_brace_at(s: &str, i: usize, kw: &str) -> (r: Option<String>)
    requires
        i < s@.len(),
    ensures
        match r {
            Some(p) => brace_payload_at(s@, kw@, i as int) == Some(p@),
            None => brace_payload_at(s@, kw@, i as int) is None,
        },
{
    let n = s.unicode_len();
    if s.get_char(i) != '(' {
        return None;
    }
    proof {
        lemma_skip_spaces(s@, i + 1);
    }
    let j1 = skip_spaces_from(s, i + 1);
    if !str_matches_at(s, j1, kw) {
        return None;
    }
    let kwn = kw.unicode_len();
    proof {
        lemma_skip_spaces(s@, j1 + kwn);
    }
    let j2 = skip_spaces_from(s, j1 + kwn);
    if j2 >= n || s.get_char(j2) != '=' {
        return None;
    }
    proof {
        lemma_skip_spaces(s@, j2 + 1);
    }
    let j3 = skip_spaces_from(s, j2 + 1);
    if j3 >= n || s.get_char(j3) != '{' {
        return None;
    }
    match find_close_from(s, j3 + 1) {
        Some(k) => {
            proof {
                lemma_skip_spaces(s@, k + 1);
            }
            let j4 = skip_spaces_from(s, k + 1);
            if k > j3 + 1 && j4 < n && s.get_char(j4) == ')' {
                Some(s.substring_char(j3, k + 1).to_owned())
            } else {
                None
            }
        },
        None => None,
    }
}

/// Reads a bracket directive standing at position `i`.
fn try_bracket_at(s: &str, i: usize, kw: &str) -> (r: Option<String>)
    requires
        i < s@.len(),
    ensures
        match r {
            Some(p) => bracket_payload_at(s@, kw@, i as int) == Some(p@),
            None => bracket_payload_at(s@, kw@, i as int) is None,
        },
{
    let n = s.unicode_len();
    if s.get_char(i) != '(' {
        return None;
    }
    proof {
        lemma_skip_spaces(s@, i + 1);
    }
    let j1 = skip_spaces_from(s, i + 1);
    if !str_matches_at(s, j1, kw) {
        return None;
    }
    let kwn = kw.unicode_len();
    proof {
        lemma_skip_spaces(s@, j1 + kwn);
    }
    let j2 = skip_spaces_from(s, j1 + kwn);
    if j2 >= n || s.get_char(j2) != '=' {
        return None;
    }
    proof {
        lemma_skip_spaces(s@, j2 + 1);
    }
    let j3 = skip_spaces_from(s, j2 + 1);
    if j3 >= n || s.get_char(j3) != '[' {
        return None;
    }
    match bracket_end_from(s, j3 + 1) {
        Some(k) => Some(s.substring_char(j3, k + 1).to_owned()),
        None => None,
    }
}

/// First position at or after `from` holding `]` whose next non-space
/// character is `)`.
fn bracket_end_from(s: &str, from: usize) -> (r: Option<usize>)
    requires
        from <= s@.len(),
    ensures
        match r {
            Some(k) => bracket_end(s@, from as int) == Some(k as int) && from <= k < s@.len(),
            None => bracket_end(s@, from as int) is None,
        },
{
    let n = s.unicode_len();
    let mut k: usize = from;
    while k < n
        invariant
            from <= k <= n,
            n == s@.len(),
            bracket_end(s@, from as int) == bracket_end(s@, k as int),
        decreases n - k,
    {
        if s.get_char(k) == ']' {
            proof {
                lemma_skip_spaces(s@, k + 1);
            }
            let j = skip_spaces_from(s, k + 1);
            if j < n && s.get_char(j) == ')' {
                return Some(k);
            }
        }
        k = k + 1;
    }
    None
}

/// The payload of the leftmost brace directive `(kw = {...})` in `s`.
pub fn find_directive_brace(s: &str, kw: &str) -> (r: Option<String>)
    ensures
        match r {
            Some(p) => find_brace_directive(s@, kw@, 0) == Some(p@),
            None => find_brace_directive(s@, kw@, 0) is None,
        },
{
    let n = s.unicode_len();
    let mut i: usize = 0;
    while i < n
        invariant
            i <= n,
            n == s@.len(),
            find_brace_directive(s@, kw@, 0) == find_brace_directive(s@, kw@, i as int),
        decreases n - i,
    {
        match try_brace_at(s, i, kw) {
            Some(p) => {
                return Some(p);
            },
            None => {
                i = i + 1;
            },
        }
    }
    None
}

/// Every value of an object's entry list is a JSON string.
pub open spec fn all_str_values(hs: Seq<(Seq<char>, JsonData)>) -> bool {
    forall|i: int| 0 <= i < hs.len() ==> (#[trigger] hs[i]).1 is Str
}

/// An object's entry list as plain string pairs.
pub open spec fn str_value_pairs(hs: Seq<(Seq<char>, JsonData)>) -> Seq<(Seq<char>, Seq<char>)> {
    hs.map_values(|e: (Seq<char>, JsonData)| (e.0, e.1->Str_0))
}

/// Every item of a JSON array is a string.
pub open spec fn all_str_items(items: Seq<JsonData>) -> bool {
    forall|i: int| 0 <= i < items.len() ==> (#[trigger] items[i]) is Str
}

/// A JSON array of strings as a plain string list.
pub open spec fn str_items(items: Seq<JsonData>) -> Seq<Seq<char>> {
    items.map_values(|d: JsonData| d->Str_0)
}

/// An optional string-map field: absent or null reads as empty, an object
/// of strings as its pairs, anything else is a shape error.
pub open spec fn opt_str_map(entries: Seq<(Seq<char>, JsonData)>, key: Seq<char>) -> Result<
    Seq<(Seq<char>, Seq<char>)>,
    (),
> {
    match obj_lookup(entries, key) {
        None => Ok(Seq::empty()),
        Some(JsonData::Null) => Ok(Seq::empty()),
        Some(JsonData::Obj(hs)) => if all_str_values(hs) {
            Ok(str_value_pairs(hs))
        } else {
            Err(())
        },
        Some(_) => Err(()),
    }
}

/// One side of a transform rule set, read from its JSON value.
pub open spec fn rules_of_json(d: JsonData) -> Result<TransformRulesV, ()> {
    match d {
        JsonData::Obj(entries) => match (opt_str_map(entries, "headers"@), opt_str_map(
            entries,
            "query"@,
        )) {
            (Ok(hs), Ok(qs)) => Ok(
                TransformRulesV {
                    headers: hs,
                    query: qs,
                    body: match obj_lookup(entries, "body"@) {
                        None => None,
                        Some(JsonData::Null) => None,
                        Some(b) => Some(json_text(b)),
                    },
                },
            ),
            _ => Err(()),
        },
        _ => Err(()),
    }
}

/// An optional rule-set field: absent or null reads as no rules.
pub open spec fn opt_rules(entries: Seq<(Seq<char>, JsonData)>, key: Seq<char>) -> Result<
    Option<TransformRulesV>,
    (),
> {
    match obj_lookup(entries, key) {
        None => Ok(None),
        Some(JsonData::Null) => Ok(None),
        Some(d) => match rules_of_json(d) {
            Ok(ru) => Ok(Some(ru)),
            Err(_) => Err(()),
        },
    }
}

/// A transform configuration, read from the directive payload's JSON value.
/// A payload that is not an object reads as no rules, as a malformed rule
/// set inside an object does not.
pub open spec fn transforms_of_json(d: JsonData) -> Result<TransformConfigV, ()> {
    match d {
        JsonData::Obj(entries) => match (opt_rules(entries, "request"@), opt_rules(
            entries,
            "response"@,
        )) {
            (Ok(rq), Ok(rs)) => Ok(TransformConfigV { request: rq, response: rs }),
            _ => Err(()),
        },
        _ => Ok(TransformConfigV { request: None, response: None }),
    }
}

/// The transform policy of a path: the leftmost `(transform = {...})`
/// directive, or no rules when there is none.
pub open spec fn spec_transforms(path: Seq<char>) -> Result<TransformConfigV, ErrorKind> {
    match find_brace_directive(path, "transform"@, 0) {
        None => Ok(TransformConfigV { request: None, response: None }),
        Some(payload) => match json_of(payload) {
            None => Err(ErrorKind::InvalidDecorator),
            Some(d) => match transforms_of_json(d) {
                Ok(c) => Ok(c),
                Err(_) => Err(ErrorKind::InvalidDecorator),
            },
        },
    }
}

/// A cache policy, read from its JSON value: an object holding an integer
/// `ttl_seconds` and an array of strings `vary_by`.
pub open spec fn cache_of_json(d: JsonData) -> Result<CacheConfigV, ()> {
    match d {
        JsonData::Obj(entries) => match obj_lookup(entries, "ttl_seconds"@) {
            Some(JsonData::Num(Some(t), _)) => match obj_lookup(entries, "vary_by"@) {
                Some(JsonData::Arr(items)) => if all_str_items(items) {
                    Ok(CacheConfigV { ttl_seconds: t, vary_by: str_items(items) })
                } else {
                    Err(())
                },
                _ => Err(()),
            },
            _ => Err(()),
        },
        _ => Err(()),
    }
}

/// The cache policy of a path: the leftmost `(cache = {...})` directive.
pub open spec fn spec_cache(path: Seq<char>) -> Result<Option<CacheConfigV>, ErrorKind> {
    match find_brace_directive(path, "cache"@, 0) {
        None => Ok(None),
        Some(payload) => match json_of(payload) {
            None => Err(ErrorKind::InvalidDecorator),
            Some(d) => match cache_of_json(d) {
                Ok(c) => Ok(Some(c)),
                Err(_) => Err(ErrorKind::InvalidDecorator),
            },
        },
    }
}

/// A rate-limit policy, read from its JSON value: an object holding the
/// integers `requests_per_second` and `burst`, each fitting in 32 bits.
pub open spec fn rate_of_json(d: JsonData) -> Result<RateLimitConfig, ()> {
    match d {
        JsonData::Obj(entries) => match obj_lookup(entries, "requests_per_second"@) {
            Some(JsonData::Num(Some(r), _)) => match obj_lookup(entries, "burst"@) {
                Some(JsonData::Num(Some(b), _)) => if r <= u32::MAX && b <= u32::MAX {
                    Ok(RateLimitConfig { requests_per_second: r as u32, burst: b as u32 })
                } else {
                    Err(())
                },
                _ => Err(()),
            },
            _ => Err(()),
        },
        _ => Err(()),
    }
}

/// The rate-limit policy of a path: the leftmost `(rateLimit = {...})`
/// directive.
pub open spec fn spec_rate_limit(path: Seq<char>) -> Result<Option<RateLimitConfig>, ErrorKind> {
    match find_brace_directive(path, "rateLimit"@, 0) {
        None => Ok(None),
        Some(payload) => match json_of(payload) {
            None => Err(ErrorKind::InvalidDecorator),
            Some(d) => match rate_of_json(d) {
                Ok(c) => Ok(Some(c)),
                Err(_) => Err(ErrorKind::InvalidDecorator),
            },
        },
    }
}

/// The middleware names of a path: the leftmost `(middleware = [...])`
/// directive, whose payload must be a JSON array of strings.
pub open spec fn spec_middleware(path: Seq<char>) -> Result<Seq<Seq<char>>, ErrorKind> {
    match find_bracket_directive(path, "middleware"@, 0) {
        None => Ok(Seq::empty()),
        Some(payload) => match json_of(payload) {
            None => Err(ErrorKind::InvalidDecorator),
            Some(JsonData::Arr(items)) => if all_str_items(items) {
                Ok(str_items(items))
            } else {
                Err(ErrorKind::InvalidDecorator)
            },
            Some(_) => Err(ErrorKind::InvalidDecorator),
        },
    }
}

/// An `InvalidDecorator` error whose message joins the two texts.
fn decorator_error(prefix: &str, detail: &str) -> (r: ProxyError)
    ensures
        r.spec_kind() == ErrorKind::InvalidDecorator,
{
    let mut m = prefix.to_owned();
    m.append(detail);
    ProxyError::InvalidDecorator(m)
}

/// Reads an object of string values out of a JSON value.
fn str_map_from_value(v: &serde_json::Value) -> (r: Option<Vec<(String, String)>>)
    ensures
        match json_rep(*v) {
            JsonData::Obj(hs) => if all_str_values(hs) {
                r is Some && r->Some_0.deep_view() == str_value_pairs(hs)
            } else {
                r is None
            },
            _ => r is None,
        },
{
    let entries = match value_object_entries(v) {
        Some(e) => e,
        None => {
            return None;
        },
    };
    let ghost hs = json_rep(*v)->Obj_0;
    let mut out: Vec<(String, String)> = Vec::new();
    let mut i: usize = 0;
    proof {
        assert(out.deep_view() =~= str_value_pairs(hs.take(0)));
    }
    while i < entries.len()
        invariant
            i <= entries@.len(),
            json_rep(*v) is Obj,
            hs == json_rep(*v)->Obj_0,
            entries@.len() == hs.len(),
            forall|j: int|
                0 <= j < hs.len() ==> (#[trigger] entries@[j]).0@ == hs[j].0 && json_rep(
                    entries@[j].1,
                ) == hs[j].1,
            forall|j: int| 0 <= j < i ==> (#[trigger] hs[j]).1 is Str,
            out.deep_view() == str_value_pairs(hs.take(i as int)),
        decreases entries@.len() - i,
    {
        let e = &entries[i];
        match value_as_str(&e.1) {
            Some(s) => {
                proof {
                    assert(json_rep(entries@[i as int].1) == hs[i as int].1);
                }
                let ghost prev = out.deep_view();
                out.push((e.0.clone(), s.to_owned()));
                proof {
                    assert(out.deep_view() =~~= prev.push(
                        (hs[i as int].0, hs[i as int].1->Str_0),
                    ));
                    assert(str_value_pairs(hs.take(i as int + 1)) =~~= prev.push(
                        (hs[i as int].0, hs[i as int].1->Str_0),
                    ));
                }
                i = i + 1;
            },
            None => {
                proof {
                    assert(!(hs[i as int].1 is Str));
                }
                return None;
            },
        }
    }
    proof {
        assert(hs.take(hs.len() as int) =~= hs);
        assert(out.deep_view() =~~= str_value_pairs(hs));
    }
    Some(out)
}

/// Reads an array of strings out of a list of JSON values.
fn str_list_from_values(arr: &Vec<serde_json::Value>) -> (r: Option<Vec<String>>)
    ensures
        ({
            let items = arr@.map_values(|x: serde_json::Value| json_rep(x));
            if all_str_items(items) {
                r is Some && r->Some_0.deep_view() == str_items(items)
            } else {
                r is None
            }
        }),
{
    let ghost items = arr@.map_values(|x: serde_json::Value| json_rep(x));
    let mut out: Vec<String> = Vec::new();
    let mut i: usize = 0;
    proof {
        assert(out.deep_view() =~= str_items(items.take(0)));
    }
    while i < arr.len()
        invariant
            i <= arr@.len(),
            items == arr@.map_values(|x: serde_json::Value| json_rep(x)),
            items.len() == arr@.len(),
            forall|j: int| 0 <= j < i ==> (#[trigger] items[j]) is Str,
            out.deep_view() == str_items(items.take(i as int)),
        decreases arr@.len() - i,
    {
        match value_as_str(&arr[i]) {
            Some(s) => {
                proof {
                    assert(items[i as int] == json_rep(arr@[i as int]));
                }
                let ghost prev = out.deep_view();
                out.push(s.to_owned());
                proof {
                    assert(out.deep_view() =~~= prev.push(items[i as int]->Str_0));
                    assert(str_items(items.take(i as int + 1)) =~~= prev.push(
                        items[i as int]->Str_0,
                    ));
                }
                i = i + 1;
            },
            None => {
                proof {
                    assert(!(items[i as int] is Str));
                }
                return None;
            },
        }
    }
    proof {
        assert(items.take(items.len() as int) =~= items);
        assert(out.deep_view() =~~= str_items(items));
    }
    Some(out)
}

/// Reads an optional string-map field of a JSON object.
fn opt_str_map_field(v: &serde_json::Value, key: &str) -> (r: Result<Vec<(String, String)>, ()>)
    ensures
        json_rep(*v) is Obj ==> match opt_str_map(json_rep(*v)->Obj_0, key@) {
            Ok(m) => r is Ok && r->Ok_0.deep_view() == m,
            Err(_) => r is Err,
        },
{
    match value_get(v, key) {
        None => {
            let out: Vec<(String, String)> = Vec::new();
            proof {
                assert(out.deep_view() =~= Seq::<(Seq<char>, Seq<char>)>::empty());
            }
            Ok(out)
        },
        Some(f) => {
            if value_is_null(f) {
                let out: Vec<(String, String)> = Vec::new();
                proof {
                    assert(out.deep_view() =~= Seq::<(Seq<char>, Seq<char>)>::empty());
                }
                Ok(out)
            } else {
                match str_map_from_value(f) {
                    Some(m) => Ok(m),
                    None => Err(()),
                }
            }
        },
    }
}

/// Reads one side of a transform rule set out of its JSON value.
fn rules_from_value(v: &serde_json::Value) -> (r: Result<TransformRules, ()>)
    ensures
        match rules_of_json(json_rep(*v)) {
            Ok(ru) => r is Ok && r->Ok_0@ == ru,
            Err(_) => r is Err,
        },
{
    if !value_is_object(v) {
        return Err(());
    }
    let headers = match opt_str_map_field(v, "headers") {
        Ok(m) => m,
        Err(_) => {
            return Err(());
        },
    };
    let query = match opt_str_map_field(v, "query") {
        Ok(m) => m,
        Err(_) => {
            return Err(());
        },
    };
    let body = match value_get(v, "body") {
        None => None,
        Some(b) => if value_is_null(b) {
            None
        } else {
            Some(value_to_text(b))
        },
    };
    let res = TransformRules { headers, query, body };
    proof {
        assert(res@ =~~= rules_of_json(json_rep(*v))->Ok_0);
    }
    Ok(res)
}

/// Reads an optional rule-set field of the transform payload.
fn opt_rules_field(v: &serde_json::Value, key: &str) -> (r: Result<Option<TransformRules>, ()>)
    ensures
        json_rep(*v) is Obj ==> match opt_rules(json_rep(*v)->Obj_0, key@) {
            Ok(o) => r is Ok && r->Ok_0.deep_view() == o,
            Err(_) => r is Err,
        },
{
    match value_get(v, key) {
        None => Ok(None),
        Some(f) => {
            if value_is_null(f) {
                Ok(None)
            } else {
                match rules_from_value(f) {
                    Ok(ru) => Ok(Some(ru)),
                    Err(_) => Err(()),
                }
            }
        },
    }
}

/// Reads the transform policy declared in a path.
pub fn parse_transforms(path: &str) -> (r: Result<TransformConfig, ProxyError>)
    ensures
        match spec_transforms(path@) {
            Ok(c) => r is Ok && r->Ok_0@ == c,
            Err(k) => r is Err && r->Err_0.spec_kind() == k,
        },
{
    match find_directive_brace(path, "transform") {
        None => Ok(TransformConfig { request: None, response: None }),
        Some(payload) => match json_parse(payload.as_str()) {
            Err(msg) => Err(decorator_error("Invalid transform config: ", msg.as_str())),
            Ok(v) => {
                if !value_is_object(&v) {
                    Ok(TransformConfig { request: None, response: None })
                } else {
                    let request = match opt_rules_field(&v, "request") {
                        Ok(o) => o,
                        Err(_) => {
                            return Err(
                                decorator_error("Invalid request transform: ", "bad rule shape"),
                            );
                        },
                    };
                    let response = match opt_rules_field(&v, "response") {
                        Ok(o) => o,
                        Err(_) => {
                            return Err(
                                decorator_error("Invalid response transform: ", "bad rule shape"),
                            );
                        },
                    };
                    let res = TransformConfig { request, response };
                    proof {
                        assert(res@ =~~= transforms_of_json(json_of(payload@)->Some_0)->Ok_0);
                    }
                    Ok(res)
                }
            },
        },
    }
}

/// Reads the cache policy declared in a path.
pub fn parse_cache_config(path: &str) -> (r: Result<Option<CacheConfig>, ProxyError>)
    ensures
        match spec_cache(path@) {
            Ok(c) => r is Ok && r->Ok_0.deep_view() == c,
            Err(k) => r is Err && r->Err_0.spec_kind() == k,
        },
{
    match find_directive_brace(path, "cache") {
        None => Ok(None),
        Some(payload) => match json_parse(payload.as_str()) {
            Err(msg) => Err(decorator_error("Invalid cache config: ", msg.as_str())),
            Ok(v) => {
                let t = match value_get(&v, "ttl_seconds") {
                    Some(f) => match value_as_u64(f) {
                        Some(t) => t,
                        None => {
                            return Err(
                                decorator_error("Invalid cache config: ", "bad ttl_seconds"),
                            );
                        },
                    },
                    None => {
                        return Err(decorator_error("Invalid cache config: ", "bad ttl_seconds"));
                    },
                };
                let arr = match value_get(&v, "vary_by") {
                    Some(f) => f,
                    None => {
                        return Err(decorator_error("Invalid cache config: ", "bad vary_by"));
                    },
                };
                let items = match value_as_array(arr) {
                    Some(a) => a,
                    None => {
                        return Err(decorator_error("Invalid cache config: ", "bad vary_by"));
                    },
                };
                proof {
                    assert(items@.map_values(|x: serde_json::Value| json_rep(x)) =~= json_rep(
                        *arr,
                    )->Arr_0);
                }
                let names = match str_list_from_values(items) {
                    Some(n) => n,
                    None => {
                        return Err(decorator_error("Invalid cache config: ", "bad vary_by"));
                    },
                };
                let res = CacheConfig { ttl_seconds: t, vary_by: names };
                proof {
                    assert(res@ =~~= cache_of_json(json_of(payload@)->Some_0)->Ok_0);
                }
                Ok(Some(res))
            },
        },
    }
}

/// Reads the rate-limit policy declared in a path.
pub fn parse_rate_limit(path: &str) -> (r: Result<Option<RateLimitConfig>, ProxyError>)
    ensures
        match spec_rate_limit(path@) {
            Ok(c) => r is Ok && r->Ok_0 == c,
            Err(k) => r is Err && r->Err_0.spec_kind() == k,
        },
{
    match find_directive_brace(path, "rateLimit") {
        None => Ok(None),
        Some(payload) => match json_parse(payload.as_str()) {
            Err(msg) => Err(decorator_error("Invalid rate limit config: ", msg.as_str())),
            Ok(v) => {
                let rps = match value_get(&v, "requests_per_second") {
                    Some(f) => match value_as_u64(f) {
                        Some(t) => t,
                        None => {
                            return Err(
                                decorator_error(
                                    "Invalid rate limit config: ",
                                    "bad requests_per_second",
                                ),
                            );
                        },
                    },
                    None => {
                        return Err(
                            decorator_error(
                                "Invalid rate limit config: ",
                                "bad requests_per_second",
                            ),
                        );
                    },
                };
                let burst = match value_get(&v, "burst") {
                    Some(f) => match value_as_u64(f) {
                        Some(t) => t,
                        None => {
                            return Err(decorator_error("Invalid rate limit config: ", "bad burst"));
                        },
                    },
                    None => {
                        return Err(decorator_error("Invalid rate limit config: ", "bad burst"));
                    },
                };
                if rps <= u32::MAX as u64 && burst <= u32::MAX as u64 {
                    Ok(
                        Some(
                            RateLimitConfig {
                                requests_per_second: rps as u32,
                                burst: burst as u32,
                            },
                        ),
                    )
                } else {
                    Err(decorator_error("Invalid rate limit config: ", "value out of range"))
                }
            },
        },
    }
}

/// Reads the middleware names declared in a path.
pub fn parse_middleware(path: &str) -> (r: Result<Vec<String>, ProxyError>)
    ensures
        match spec_middleware(path@) {
            Ok(names) => r is Ok && r->Ok_0.deep_view() == names,
            Err(k) => r is Err && r->Err_0.spec_kind() == k,
        },
{
    match find_directive_bracket(path, "middleware") {
        None => {
            let out: Vec<String> = Vec::new();
            proof {
                assert(out.deep_view() =~= Seq::<Seq<char>>::empty());
            }
            Ok(out)
        },
        Some(payload) => match json_parse(payload.as_str()) {
            Err(msg) => Err(decorator_error("Invalid middleware list: ", msg.as_str())),
            Ok(v) => match value_as_array(&v) {
                None => Err(decorator_error("Invalid middleware list: ", "not an array")),
                Some(items) => {
                    proof {
                        assert(items@.map_values(|x: serde_json::Value| json_rep(x)) =~= json_rep(
                            v,
                        )->Arr_0);
                    }
                    match str_list_from_values(items) {
                        Some(names) => Ok(names),
                        None => Err(
                            decorator_error("Invalid middleware list: ", "not a name list"),
                        ),
                    }
                },
            },
        },
    }
}

/// The payload of the leftmost bracket directive `(kw = [...])` in `s`.
pub fn find_directive_bracket(s: &str, kw: &str) -> (r: Option<String>)
    ensures
        match r {
            Some(p) => find_bracket_directive(s@, kw@, 0) == Some(p@),
            None => find_bracket_directive(s@, kw@, 0) is None,
        },
{
    let n = s.unicode_len();
    let mut i: usize = 0;
    while i < n
        invariant
            i <= n,
            n == s@.len(),
            find_bracket_directive(s@, kw@, 0) == find_bracket_directive(s@, kw@, i as int),
        decreases n - i,
    {
        match try_bracket_at(s, i, kw) {
            Some(p) => {
                return Some(p);
            },
            None => {
                i = i + 1;
            },
        }
    }
    None
}

/// A name already occurs among the parameters.
pub open spec fn has_name(params: Seq<(Seq<char>, Seq<char>)>, name: Seq<char>) -> bool {
    exists|i: int| 0 <= i < params.len() && params[i].0 == name
}

/// Parameter names found at or after position `i`, added to `acc`: bracket
/// tokens `[name]` are scanned left to right; wildcard tokens and repeated
/// names are skipped; every value starts empty.
pub open spec fn spec_params_acc(
    path: Seq<char>,
    i: int,
    acc: Seq<(Seq<char>, Seq<char>)>,
) -> Seq<(Seq<char>, Seq<char>)>
    decreases path.len() - i,
    via spec_params_acc_dec
{
    match find_char(path, i, '[') {
        None => acc,
        Some(p) => match find_char(path, p + 1, ']') {
            None => acc,
            Some(q) => {
                if q == p + 1 {
                    spec_params_acc(path, p + 1, acc)
                } else {
                    let name = path.subrange(p + 1, q);
                    spec_params_acc(
                        path,
                        q + 1,
                        if starts_with(name, "..."@) || has_name(acc, name) {
                            acc
                        } else {
                            acc.push((name, Seq::<char>::empty()))
                        },
                    )
                }
            },
        },
    }
}

#[via_fn]
proof fn spec_params_acc_dec(path: Seq<char>, i: int, acc: Seq<(Seq<char>, Seq<char>)>) {
    lemma_find_char(path, i, '[');
    match find_char(path, i, '[') {
        Some(p) => {
            lemma_find_char(path, p + 1, ']');
        },
        None => {},
    }
}

/// The parameter names of a path, as pairs with empty values.
pub open spec fn spec_params(path: Seq<char>) -> Seq<(Seq<char>, Seq<char>)> {
    spec_params_acc(path, 0, Seq::empty())
}

/// The name of the leftmost wildcard token `[...name]` at or after
/// position `i`.
pub open spec fn spec_wildcard_from(path: Seq<char>, i: int) -> Option<Seq<char>>
    decreases path.len() - i,
{
    if i < 0 || i >= path.len() {
        None
    } else {
        match find_char(path, i + 4, ']') {
            Some(q) => if matches_at(path, i, "[..."@) && q > i + 4 {
                Some(path.subrange(i + 4, q))
            } else {
                spec_wildcard_from(path, i + 1)
            },
            None => spec_wildcard_from(path, i + 1),
        }
    }
}

/// The name of the leftmost wildcard token of a path.
pub open spec fn spec_wildcard(path: Seq<char>) -> Option<Seq<char>> {
    spec_wildcard_from(path, 0)
}

/// Whether `name` occurs among the collected parameters.
fn contains_name(params: &Vec<(String, String)>, name: &str) -> (r: bool)
    ensures
        r == has_name(params.deep_view(), name@),
{
    let mut i: usize = 0;
    while i < params.len()
        invariant
            i <= params@.len(),
            forall|j: int| 0 <= j < i ==> (#[trigger] params.deep_view()[j]).0 != name@,
        decreases params@.len() - i,
    {
        if crate::strutil::str_eq(params[i].0.as_str(), name) {
            proof {
                assert(params.deep_view()[i as int].0 == name@);
            }
            return true;
        }
        proof {
            assert(params.deep_view()[i as int].0 == params@[i as int].0@);
        }
        i = i + 1;
    }
    false
}

/// Collects the parameter names of a path.
fn scan_params(path: &str) -> (r: Vec<(String, String)>)
    ensures
        r.deep_view() == spec_params(path@),
{
    let n = path.unicode_len();
    let mut params: Vec<(String, String)> = Vec::new();
    let mut i: usize = 0;
    proof {
        assert(params.deep_view() =~= Seq::<(Seq<char>, Seq<char>)>::empty());
    }
    while i < n
        invariant
            i <= n,
            n == path@.len(),
            spec_params_acc(path@, i as int, params.deep_view()) == spec_params(path@),
        decreases n - i,
    {
        match find_char_from(path, i, '[') {
            None => {
                return params;
            },
            Some(p) => {
                match find_char_from(path, p + 1, ']') {
                    None => {
                        return params;
                    },
                    Some(q) => {
                        if q == p + 1 {
                            i = p + 1;
                        } else {
                            let name = path.substring_char(p + 1, q);
                            if !str_starts_with(name, "...") && !contains_name(&params, name) {
                                let ghost prev = params.deep_view();
                                params.push((name.to_owned(), String::new()));
                                proof {
                                    assert(params.deep_view() =~~= prev.push(
                                        (name@, Seq::<char>::empty()),
                                    ));
                                }
                            }
                            i = q + 1;
                        }
                    },
                }
            },
        }
    }
    params
}

/// Finds the wildcard token of a path.
fn scan_wildcard(path: &str) -> (r: Option<String>)
    ensures
        match r {
            Some(w) => spec_wildcard(path@) == Some(w@),
            None => spec_wildcard(path@) is None,
        },
{
    let n = path.unicode_len();
    let mut i: usize = 0;
    while i < n
        invariant
            i <= n,
            n == path@.len(),
            spec_wildcard(path@) == spec_wildcard_from(path@, i as int),
        decreases n - i,
    {
        if n >= 4 && i <= n - 4 {
            match find_char_from(path, i + 4, ']') {
                Some(q) => {
                    if str_matches_at(path, i, "[...") && q > i + 4 {
                        return Some(path.substring_char(i + 4, q).to_owned());
                    }
                },
                None => {},
            }
        } else {
            proof {
                assert(find_char(path@, (i as int) + 4, ']') is None);
            }
        }
        i = i + 1;
    }
    None
}

/// Extracts the named parameters and the wildcard token of a path.
pub fn extract_path_params(path: &str) -> (r: PathParams)
    ensures
        r@.params == spec_params(path@),
        r@.wildcard == spec_wildcard(path@),
{
    PathParams { params: scan_params(path), wildcard: scan_wildcard(path) }
}

/// The path after substituting each parameter's value for its bracket
/// token, one parameter at a time from position `k` on.
pub open spec fn subst_params(
    path: Seq<char>,
    params: Seq<(Seq<char>, Seq<char>)>,
    k: int,
) -> Seq<char>
    decreases params.len() - k,
{
    if k < 0 || k >= params.len() {
        path
    } else {
        subst_params(
            crate::strutil::replace_seq(path, "["@ + params[k].0 + "]"@, params[k].1),
            params,
            k + 1,
        )
    }
}

/// The path after parameter substitution and wildcard-token removal.
pub open spec fn spec_processed(
    path: Seq<char>,
    params: Seq<(Seq<char>, Seq<char>)>,
    wildcard: Option<Seq<char>>,
) -> Seq<char> {
    let after = subst_params(path, params, 0);
    match wildcard {
        None => after,
        Some(w) => crate::strutil::replace_seq(after, "[..."@ + w + "]"@, Seq::<char>::empty()),
    }
}

/// The forwarding destination built for a path: the gateway's upstream base
/// followed by the processed path.
pub open spec fn spec_destination(
    path: Seq<char>,
    params: Seq<(Seq<char>, Seq<char>)>,
    wildcard: Option<Seq<char>>,
) -> Seq<char> {
    "http://localhost:3000/api/"@ + spec_processed(path, params, wildcard)
}

/// Builds the forwarding destination for a path: substitutes each
/// parameter's value, strips the path's wildcard token, prepends the
/// upstream base, and rejects the result unless it is a well-formed URI.
pub fn build_destination_uri(path: &str, params: &PathParams) -> (r: Result<String, ProxyError>)
    ensures
        ({
            let dest = spec_destination(path@, params@.params, spec_wildcard(path@));
            match r {
                Ok(d) => uri_wellformed(dest) && d@ == dest,
                Err(e) => !uri_wellformed(dest) && e.spec_kind() == ErrorKind::InvalidUri,
            }
        }),
{
    let mut processed: String = path.to_owned();
    let mut k: usize = 0;
    while k < params.params.len()
        invariant
            k <= params@.params.len(),
            subst_params(processed@, params@.params, k as int) == subst_params(
                path@,
                params@.params,
                0,
            ),
        decreases params@.params.len() - k,
    {
        let name = &params.params[k].0;
        let value = &params.params[k].1;
        let mut pat = "[".to_owned();
        pat.append(name.as_str());
        pat.append("]");
        proof {
            reveal_strlit("[");
            assert(pat@ == "["@ + params@.params[k as int].0 + "]"@);
            assert(pat@.len() >= 1);
        }
        processed = crate::strutil::replace_all(processed.as_str(), pat.as_str(), value.as_str());
        k = k + 1;
    }
    match scan_wildcard(path) {
        Some(w) => {
            let mut pat = "[...".to_owned();
            pat.append(w.as_str());
            pat.append("]");
            proof {
                reveal_strlit("[...");
                reveal_strlit("");
                assert(pat@ == "[..."@ + w@ + "]"@);
                assert(pat@.len() >= 1);
                assert(""@ =~= Seq::<char>::empty());
            }
            processed = crate::strutil::replace_all(processed.as_str(), pat.as_str(), "");
        },
        None => {},
    }
    let mut dest = "http://localhost:3000/api/".to_owned();
    dest.append(processed.as_str());
    if check_uri(dest.as_str()) {
        Ok(dest)
    } else {
        Err(ProxyError::InvalidUri("destination is not a well-formed URI".to_owned()))
    }
}

/// The route policy and parameters read out of a path, or the kind of the
/// first failure: malformed transform, cache, rate-limit and middleware
/// payloads are found in that order.
pub open spec fn spec_route_config(method: Seq<char>, path: Seq<char>) -> Result<
    (RouteConfigV, PathParamsV),
    ErrorKind,
> {
    let params = PathParamsV { params: spec_params(path), wildcard: spec_wildcard(path) };
    match spec_transforms(path) {
        Err(k) => Err(k),
        Ok(tr) => match spec_cache(path) {
            Err(k) => Err(k),
            Ok(c) => match spec_rate_limit(path) {
                Err(k) => Err(k),
                Ok(rl) => match spec_middleware(path) {
                    Err(k) => Err(k),
                    Ok(mw) => Ok(
                        (
                            RouteConfigV {
                                method,
                                path,
                                middleware: mw,
                                transforms: tr,
                                cache: c,
                                rate_limit: rl,
                            },
                            params,
                        ),
                    ),
                },
            },
        },
    }
}

/// What parsing a method and path yields, pinned as a function of the two.
pub struct ParsedRouteV {
    /// The route policy.
    pub config: RouteConfigV,
    /// The extracted parameters.
    pub params: PathParamsV,
    /// The forwarding destination.
    pub destination: Seq<char>,
    /// The path with the API prefix stripped.
    pub rest: Seq<char>,
}

/// The full parse: the path must begin with the API prefix `/api/`; the
/// remainder yields the route policy and parameters, and the destination
/// must be a well-formed URI.
pub open spec fn spec_parse(method: Seq<char>, path: Seq<char>) -> Result<
    ParsedRouteV,
    ErrorKind,
> {
    if !starts_with(path, "/api/"@) {
        Err(ErrorKind::InvalidPath)
    } else {
        let rest = path.skip("/api/"@.len() as int);
        match spec_route_config(method, rest) {
            Err(k) => Err(k),
            Ok((cfg, params)) => {
                let dest = spec_destination(rest, params.params, spec_wildcard(rest));
                if uri_wellformed(dest) {
                    Ok(ParsedRouteV { config: cfg, params, destination: dest, rest })
                } else {
                    Err(ErrorKind::InvalidUri)
                }
            },
        }
    }
}

/// [`find_char`] looked at through a suffix: searching from `start` in `s`
/// is searching from the front of `s` with its first `start` characters
/// dropped.
pub proof fn lemma_find_char_skip(s: Seq<char>, start: int, c: char)
    requires
        0 <= start <= s.len(),
    ensures
        match find_char(s, start, c) {
            Some(k) => find_char(s.skip(start), 0, c) == Some(k - start),
            None => find_char(s.skip(start), 0, c) is None,
        },
{
    let tail = s.skip(start);
    lemma_find_char(s, start, c);
    lemma_find_char(tail, 0, c);
    assert(forall|j: int| 0 <= j < tail.len() ==> #[trigger] tail[j] == s[start + j]);
    match find_char(s, start, c) {
        Some(k) => {
            assert(tail[k - start] == c);
            match find_char(tail, 0, c) {
                Some(k2) => {
                    if k2 < k - start {
                        assert(s[start + k2] != c);
                    }
                    if k2 > k - start {
                        assert(tail[k - start] != c);
                    }
                },
                None => {
                    assert(tail[k - start] != c);
                },
            }
        },
        None => {
            match find_char(tail, 0, c) {
                Some(k2) => {
                    assert(s[start + k2] != c);
                    assert(tail[k2] == c);
                },
                None => {},
            }
        },
    }
}

/// The path cut at every `/`; the separators are dropped and empty
/// segments kept.
pub open spec fn split_slash(s: Seq<char>) -> Seq<Seq<char>>
    decreases s.len(),
    via split_slash_dec
{
    match find_char(s, 0, '/') {
        None => seq![s],
        Some(k) => seq![s.subrange(0, k)] + split_slash(s.skip(k + 1)),
    }
}

#[via_fn]
proof fn split_slash_dec(s: Seq<char>) {
    lemma_find_char(s, 0, '/');
}

/// The segments joined back with `/` between them.
pub open spec fn join_slash(ps: Seq<Seq<char>>) -> Seq<char>
    decreases ps.len(),
{
    if ps.len() == 0 {
        Seq::empty()
    } else if ps.len() == 1 {
        ps[0]
    } else {
        ps[0] + "/"@ + join_slash(ps.skip(1))
    }
}

/// A template segment binding one path segment: `[name]`, name nonempty
/// and not a wildcard.
pub open spec fn is_param_token(seg: Seq<char>) -> bool {
    seg.len() >= 3 && seg[0] == '[' && seg[seg.len() - 1] == ']' && !matches_at(seg, 1, "..."@)
}

/// A template segment binding the whole path tail: `[...name]`, name
/// nonempty.
pub open spec fn is_wildcard_token(seg: Seq<char>) -> bool {
    seg.len() >= 6 && seg[0] == '[' && seg[seg.len() - 1] == ']' && matches_at(seg, 1, "..."@)
}

/// The name between a token's brackets.
pub open spec fn token_name(seg: Seq<char>) -> Seq<char> {
    seg.subrange(1, seg.len() - 1)
}

/// Matches template segments against path segments, collecting parameter
/// values into `acc`: a trailing wildcard token captures the joined tail; a
/// parameter token captures one segment (first binding of a name wins); any
/// other segment must match literally.
pub open spec fn match_segments(
    ts: Seq<Seq<char>>,
    ps: Seq<Seq<char>>,
    acc: Seq<(Seq<char>, Seq<char>)>,
) -> Option<(Seq<(Seq<char>, Seq<char>)>, Option<Seq<char>>)>
    decreases ts.len(),
{
    if ts.len() == 0 {
        if ps.len() == 0 {
            Some((acc, None))
        } else {
            None
        }
    } else if is_wildcard_token(ts[0]) && ts.len() == 1 {
        Some((acc, Some(join_slash(ps))))
    } else if ps.len() == 0 {
        None
    } else if is_param_token(ts[0]) {
        match_segments(
            ts.skip(1),
            ps.skip(1),
            if has_name(acc, token_name(ts[0])) {
                acc
            } else {
                acc.push((token_name(ts[0]), ps[0]))
            },
        )
    } else if ts[0] == ps[0] {
        match_segments(ts.skip(1), ps.skip(1), acc)
    } else {
        None
    }
}

/// Cuts a path at every `/`.
fn split_slash_exec(s: &str) -> (r: Vec<String>)
    ensures
        r.deep_view() == split_slash(s@),
{
    let n = s.unicode_len();
    let mut segs: Vec<String> = Vec::new();
    let mut start: usize = 0;
    proof {
        assert(s@.skip(0) =~= s@);
        assert(segs.deep_view() + split_slash(s@) =~= split_slash(s@));
    }
    while start <= n
        invariant
            start <= n,
            n == s@.len(),
            segs.deep_view() + split_slash(s@.skip(start as int)) == split_slash(s@),
        decreases n - start,
    {
        proof {
            lemma_find_char_skip(s@, start as int, '/');
        }
        match find_char_from(s, start, '/') {
            None => {
                let ghost prev = segs.deep_view();
                segs.push(s.substring_char(start, n).to_owned());
                proof {
                    assert(split_slash(s@.skip(start as int)) =~= seq![s@.skip(start as int)]);
                    assert(s@.subrange(start as int, n as int) =~= s@.skip(start as int));
                    assert(segs.deep_view() =~= prev.push(s@.skip(start as int)));
                    assert(segs.deep_view() =~= split_slash(s@));
                }
                return segs;
            },
            Some(k) => {
                let ghost prev = segs.deep_view();
                segs.push(s.substring_char(start, k).to_owned());
                proof {
                    let tail = s@.skip(start as int);
                    assert(tail.subrange(0, k - start as int) =~= s@.subrange(
                        start as int,
                        k as int,
                    ));
                    assert(tail.skip(k - start as int + 1) =~= s@.skip(k as int + 1));
                    assert(segs.deep_view() =~= prev.push(s@.subrange(start as int, k as int)));
                    assert(segs.deep_view() + split_slash(s@.skip(k as int + 1)) =~= split_slash(
                        s@,
                    ));
                }
                start = k + 1;
            },
        }
    }
    proof {
        assert(false);
    }
    segs
}

/// Joins the path segments from position `from` back with `/`.
fn join_from(ps: &Vec<String>, from: usize) -> (r: String)
    requires
        from <= ps@.len(),
    ensures
        r@ == join_slash(ps.deep_view().skip(from as int)),
{
    let ghost dv = ps.deep_view();
    let n = ps.len();
    let mut out = String::new();
    let mut j: usize = from;
    while j < n
        invariant
            from <= j <= n,
            n == ps@.len(),
            dv == ps.deep_view(),
            dv.len() == n,
            j == from ==> out@ == Seq::<char>::empty(),
            from < j < n ==> join_slash(dv.skip(from as int)) == out@ + "/"@ + join_slash(
                dv.skip(j as int),
            ),
            (j == n && j > from) ==> out@ == join_slash(dv.skip(from as int)),
        decreases n - j,
    {
        let ghost before = out@;
        if j > from {
            out.append("/");
        }
        out.append(ps[j].as_str());
        proof {
            let tail = dv.skip(j as int);
            assert(tail[0] == dv[j as int]);
            assert(tail.skip(1) =~= dv.skip(j as int + 1));
            if j == from {
                if j + 1 < n {
                    assert(join_slash(dv.skip(from as int)) == tail[0] + "/"@ + join_slash(
                        tail.skip(1),
                    ));
                    assert(out@ =~= before + dv[j as int]);
                } else {
                    assert(join_slash(dv.skip(from as int)) == tail[0]);
                }
            } else {
                if j + 1 < n {
                    assert(join_slash(tail) == tail[0] + "/"@ + join_slash(tail.skip(1)));
                    assert(out@ =~= before + "/"@ + dv[j as int]);
                } else {
                    assert(join_slash(tail) == tail[0]);
                    assert(out@ =~= before + "/"@ + dv[j as int]);
                }
            }
        }
        j = j + 1;
    }
    proof {
        if from == n {
            assert(dv.skip(from as int) =~= Seq::<Seq<char>>::empty());
        }
    }
    out
}

/// Whether a segment is a parameter token `[name]`.
fn seg_is_param(seg: &str) -> (r: bool)
    ensures
        r == is_param_token(seg@),
{
    let n = seg.unicode_len();
    if n < 3 {
        return false;
    }
    if seg.get_char(0) != '[' || seg.get_char(n - 1) != ']' {
        return false;
    }
    !str_matches_at(seg, 1, "...")
}

/// Whether a segment is a wildcard token `[...name]`.
fn seg_is_wildcard(seg: &str) -> (r: bool)
    ensures
        r == is_wildcard_token(seg@),
{
    let n = seg.unicode_len();
    if n < 6 {
        return false;
    }
    seg.get_char(0) == '[' && seg.get_char(n - 1) == ']' && str_matches_at(seg, 1, "...")
}

impl RequestParser {
    /// Matches a concrete path against a path template, capturing each
    /// `[name]` token's segment and a trailing `[...name]` token's joined
    /// tail; every other segment must match literally.
    pub fn resolve_params(template: &str, path: &str) -> (r: Option<PathParams>)
        ensures
            match match_segments(split_slash(template@), split_slash(path@), Seq::empty()) {
                Some(m) => r matches Some(pp) && pp@.params == m.0 && pp@.wildcard == m.1,
                None => r is None,
            },
    {
        let ts = split_slash_exec(template);
        let ps = split_slash_exec(path);
        let ghost tsv = ts.deep_view();
        let ghost psv = ps.deep_view();
        let mut params: Vec<(String, String)> = Vec::new();
        let mut i: usize = 0;
        proof {
            assert(params.deep_view() =~= Seq::<(Seq<char>, Seq<char>)>::empty());
            assert(tsv.skip(0) =~= tsv);
            assert(psv.skip(0) =~= psv);
        }
        while i < ts.len()
            invariant
                i <= tsv.len(),
                i <= psv.len(),
                tsv == ts.deep_view(),
                psv == ps.deep_view(),
                tsv == split_slash(template@),
                psv == split_slash(path@),
                tsv.len() == ts@.len(),
                psv.len() == ps@.len(),
                match_segments(tsv, psv, Seq::empty()) == match_segments(
                    tsv.skip(i as int),
                    psv.skip(i as int),
                    params.deep_view(),
                ),
            decreases ts@.len() - i,
        {
            proof {
                assert(tsv.skip(i as int)[0] == tsv[i as int]);
                assert(tsv.skip(i as int).skip(1) =~= tsv.skip(i as int + 1));
            }
            let seg = &ts[i];
            proof {
                assert(seg@ == tsv[i as int]);
            }
            if seg_is_wildcard(seg.as_str()) && i + 1 == ts.len() {
                proof {
                    assert(tsv.skip(i as int).len() == 1);
                }
                let w = join_from(&ps, i);
                return Some(PathParams { params, wildcard: Some(w) });
            }
            if i >= ps.len() {
                proof {
                    assert(psv.skip(i as int).len() == 0);
                }
                return None;
            }
            proof {
                assert(psv.skip(i as int)[0] == psv[i as int]);
                assert(psv.skip(i as int).skip(1) =~= psv.skip(i as int + 1));
            }
            if seg_is_param(seg.as_str()) {
                let sn = seg.unicode_len();
                let name = seg.substring_char(1, sn - 1);
                proof {
                    assert(name@ =~= token_name(tsv[i as int]));
                }
                if !contains_name(&params, name) {
                    let ghost prev = params.deep_view();
                    params.push((name.to_owned(), ps[i].clone()));
                    proof {
                        assert(params.deep_view() =~~= prev.push((name@, psv[i as int])));
                    }
                }
            } else if crate::strutil::str_eq(seg.as_str(), ps[i].as_str()) {
            } else {
                return None;
            }
            i = i + 1;
        }
        proof {
            assert(tsv.skip(tsv.len() as int).len() == 0);
        }
        if i == ps.len() {
            proof {
                assert(psv.skip(i as int).len() == 0);
            }
            Some(PathParams { params, wildcard: None })
        } else {
            None
        }
    }
}

/// Parser determinism: the outcome is a function of the method and path
/// alone, so equal inputs always parse to structurally equal route
/// configurations, parameters and destinations, however often and from
/// however many tasks the parse is repeated.
pub proof fn lemma_parse_deterministic(
    m1: Seq<char>,
    p1: Seq<char>,
    m2: Seq<char>,
    p2: Seq<char>,
)
    requires
        m1 == m2,
        p1 == p2,
    ensures
        spec_parse(m1, p1) == spec_parse(m2, p2),
{
}

/// The path-decorator parser.  It keeps no state: parsing is a pure
/// function of the method and path, safe for unlimited parallel use.
pub struct RequestParser {}

impl RequestParser {
    /// A parser value; the parse itself is stateless.
    pub fn new() -> (r: RequestParser) {
        RequestParser {  }
    }

    /// Reads the route policy and parameters out of a path.
    pub fn parse_route_config(method: &str, path: &str) -> (r: Result<
        (RouteConfig, PathParams),
        ProxyError,
    >)
        ensures
            match spec_route_config(method@, path@) {
                Ok(cp) => r is Ok && r->Ok_0.0@ == cp.0 && r->Ok_0.1@ == cp.1,
                Err(k) => r is Err && r->Err_0.spec_kind() == k,
            },
    {
        let params = extract_path_params(path);
        let transforms = match parse_transforms(path) {
            Ok(t) => t,
            Err(e) => {
                return Err(e);
            },
        };
        let cache = match parse_cache_config(path) {
            Ok(c) => c,
            Err(e) => {
                return Err(e);
            },
        };
        let rate_limit = match parse_rate_limit(path) {
            Ok(rl) => rl,
            Err(e) => {
                return Err(e);
            },
        };
        let middleware = match parse_middleware(path) {
            Ok(m) => m,
            Err(e) => {
                return Err(e);
            },
        };
        let config = RouteConfig {
            method_wrapper: SerializableMethod::new(method),
            path: path.to_owned(),
            middleware,
            transforms,
            cache,
            rate_limit,
        };
        proof {
            assert(config@ =~~= spec_route_config(method@, path@)->Ok_0.0);
            assert(params@ =~~= spec_route_config(method@, path@)->Ok_0.1);
        }
        Ok((config, params))
    }

    /// Parses a request: strips the API prefix, reads the route policy and
    /// parameters, and builds the forwarding destination.  The outcome is a
    /// function of the method and path alone.
    pub fn parse(method: &str, path: &str) -> (r: Result<ProxyRequest, ProxyError>)
        ensures
            match spec_parse(method@, path@) {
                Ok(p) => r is Ok && r->Ok_0@.method == method@ && r->Ok_0@.destination
                    == p.destination && r->Ok_0@.original_path == p.rest && r->Ok_0@.route_config
                    == Some(p.config) && r->Ok_0@.path_params == Some(p.params) && r->Ok_0@.headers
                    == Seq::<(Seq<char>, Seq<char>)>::empty() && r->Ok_0@.body
                    == Seq::<u8>::empty(),
                Err(k) => r is Err && r->Err_0.spec_kind() == k,
            },
    {
        if !crate::strutil::str_starts_with(path, "/api/") {
            return Err(ProxyError::InvalidPath("Path must start with /api/".to_owned()));
        }
        let n = path.unicode_len();
        proof {
            reveal_strlit("/api/");
        }
        let rest = path.substring_char(5, n);
        proof {
            assert(rest@ =~= path@.skip("/api/"@.len() as int));
        }
        let (config, params) = match Self::parse_route_config(method, rest) {
            Ok(cp) => cp,
            Err(e) => {
                return Err(e);
            },
        };
        let destination = match build_destination_uri(rest, &params) {
            Ok(d) => d,
            Err(e) => {
                return Err(e);
            },
        };
        let req = ProxyRequest {
            method: SerializableMethod::new(method),
            headers: Vec::new(),
            body: Vec::new(),
            destination,
            original_path: rest.to_owned(),
            route_config: Some(config),
            path_params: Some(params),
        };
        proof {
            assert(req@.headers =~= Seq::<(Seq<char>, Seq<char>)>::empty());
        }
        Ok(req)
    }
}

} // verus!
