//! Decisions of the HTTP front end: path normalization, which handler a
//! request goes to, and whether a versioned request is authorized.

use vstd::prelude::*;
use crate::api::{collapse_slashes};
use crate::pattern::{regex_capture_pair, version_path_split, version_path_pattern};
use crate::policies::{PolicySystem, SecretValue, user_allowed, secret_allowed, header_lookup, visible_ascii};
use crate::text::{chars_of, str_eq, string_of_chars, string_concat};

verus! {

/// Removes a final `/` unless it is the only character.
pub open spec fn strip_trailing_slash(s: Seq<char>) -> Seq<char> {
    if s.len() > 1 && s.last() == '/' {
        s.drop_last()
    } else {
        s
    }
}

/// The canonical form of a request path: `/` followed by the non-empty segments
/// of `path` joined by single slashes.
pub open spec fn canonical_path(path: Seq<char>) -> Seq<char> {
    strip_trailing_slash(collapse_slashes(seq!['/'] + path))
}

/// Rewrites `path` as `/` followed by its non-empty segments joined by `/`.
pub fn normalize_path(path: &str) -> (r: String)
    ensures
        r@ == canonical_path(path@),
{
    let cs = chars_of(path);
    let mut out: Vec<char> = Vec::new();
    out.push('/');
    let ghost full = seq!['/'] + path@;
    assert(full.take(1) =~= seq!['/']);
    let mut i: usize = 0;
    while i < cs.len()
        invariant
            cs@ == path@,
            full == seq!['/'] + path@,
            i <= cs.len(),
            out@ == collapse_slashes(full.take(i + 1)),
            out@.len() > 0,
            out@.last() == full[i as int],
        decreases cs.len() - i,
    {
        let c = cs[i];
        let ghost t = full.take(i + 2);
        assert(t.drop_last() =~= full.take(i + 1));
        assert(t.last() == c);
        assert(t[t.len() - 2] == full[i as int]);
        if !(c == '/' && out[out.len() - 1] == '/') {
            out.push(c);
        }
        i = i + 1;
    }
    assert(full.take(cs.len() + 1) =~= full);
    if out.len() > 1 && out[out.len() - 1] == '/' {
        out.pop();
    }
    string_of_chars(&out)
}

/// Splits an absolute path into the version id (the first segment, possibly
/// empty) and the routing path (the rest, empty or starting with `/`).
pub fn get_version_path(path: &str) -> (r: Option<(String, String)>)
    ensures
        match (r, version_path_split(path@)) {
            (Some((v, p)), Some((x, y))) => v@ == x && p@ == y,
            (None, None) => true,
            _ => false,
        },
{
    let pattern: &str = "(?x)\n            ^\n            /(?P<version_id> [^/]*)\n            (?P<routing_path> (/.*)?)\n            $\n        ";
    assert(pattern@ == version_path_pattern());
    regex_capture_pair(pattern, "version_id", "routing_path", path)
}

/// Where an incoming request is sent.
#[derive(Debug, Clone)]
pub enum RequestAction {
    /// Permanently redirect to this canonical path.
    Redirect(String),
    /// List the versions.
    Index,
    /// Answer a CORS preflight.
    Options,
    /// Hand the request to the version `version_id`, if it exists.
    Version { version_id: String, routing_path: String },
    /// Nothing serves this path.
    NotFound,
}

/// Decides where a request for `path` made with `method` goes.
pub fn classify_request(path: &str, method: &str) -> (r: RequestAction)
    ensures
        canonical_path(path@) != path@ ==> (r matches RequestAction::Redirect(p) && p@ == canonical_path(path@)),
        canonical_path(path@) == path@ && path@ == "/"@ ==> r is Index,
        canonical_path(path@) == path@ && path@ != "/"@ && method@ == "OPTIONS"@ ==> r is Options,
        canonical_path(path@) == path@ && path@ != "/"@ && method@ != "OPTIONS"@ ==> match version_path_split(path@) {
            Some((v, p)) => (r matches RequestAction::Version { version_id, routing_path }
                && version_id@ == v && routing_path@ == p),
            None => r is NotFound,
        },
{
    let normalized = normalize_path(path);
    if !str_eq(normalized.as_str(), path) {
        return RequestAction::Redirect(normalized);
    }
    if str_eq(path, "/") {
        return RequestAction::Index;
    }
    if str_eq(method, "OPTIONS") {
        return RequestAction::Options;
    }
    match get_version_path(path) {
        Some((version_id, routing_path)) => RequestAction::Version { version_id, routing_path },
        None => RequestAction::NotFound,
    }
}

/// The target of a redirect: the new path, followed by `?` and the query when
/// the request had one.
pub fn redirect_target(path: &str, query: Option<&str>) -> (r: String)
    ensures
        match query {
            Some(q) => r@ == path@ + "?"@ + q@,
            None => r@ == path@,
        },
{
    match query {
        Some(q) => {
            let s = string_concat(path, "?");
            s.concat(q)
        },
        None => path.to_owned(),
    }
}

/// The user id a request claims: the first `chiseluid` header, when its value is
/// readable text.
pub open spec fn claimed_user_id(headers: Seq<(String, Vec<u8>)>) -> Option<Seq<char>> {
    match header_lookup(headers, "chiseluid"@) {
        Some(b) => if visible_ascii(b) {
            Some(b.map_values(|x: u8| x as char))
        } else {
            None
        },
        None => None,
    }
}

/// Reads the user id that a request claims from its `ChiselUID` header (header
/// names in lower case, values as raw bytes).
pub fn user_id_from_headers(headers: &Vec<(String, Vec<u8>)>) -> (r: Option<String>)
    ensures
        match (r, claimed_user_id(headers@)) {
            (Some(u), Some(c)) => u@ == c,
            (None, None) => true,
            _ => false,
        },
{
    let mut i: usize = 0;
    assert(headers@.skip(0) =~= headers@);
    let name = chars_of("chiseluid");
    while i < headers.len()
        invariant
            i <= headers@.len(),
            name@ == "chiseluid"@,
            header_lookup(headers@, "chiseluid"@) == header_lookup(headers@.skip(i as int), "chiseluid"@),
        decreases headers@.len() - i,
    {
        let n = chars_of(headers[i].0.as_str());
        if crate::text::chars_eq(&n, &name) {
            let b = &headers[i].1;
            assert(headers@.skip(i as int)[0] == headers@[i as int]);
            assert(header_lookup(headers@, "chiseluid"@) == Some(b@));
            let mut cs: Vec<char> = Vec::new();
            let mut j: usize = 0;
            while j < b.len()
                invariant
                    header_lookup(headers@, "chiseluid"@) == Some(b@),
                    j <= b.len(),
                    cs@ == b@.take(j as int).map_values(|x: u8| x as char),
                    forall|k: int| 0 <= k < j ==> (b@[k] == 9 || (32 <= #[trigger] b@[k] && b@[k] < 127)),
                decreases b.len() - j,
            {
                let x = b[j];
                if !(x == 9 || (32 <= x && x < 127)) {
                    assert(!visible_ascii(b@));
                    return None;
                }
                cs.push(x as char);
                assert(b@.take(j + 1).map_values(|x: u8| x as char) =~= b@.take(j as int).map_values(|x: u8| x as char).push(x as char));
                j = j + 1;
            }
            assert(b@.take(b.len() as int) =~= b@);
            return Some(string_of_chars(&cs));
        }
        assert(headers@.skip(i as int).drop_first() =~= headers@.skip(i + 1));
        i = i + 1;
    }
    None
}

/// The outcome of checking a versioned request against its version's policies.
pub open spec fn authorization_outcome(
    ps: &PolicySystem,
    username: Option<Seq<char>>,
    method: Seq<char>,
    headers: Seq<(String, Vec<u8>)>,
    secrets: Seq<(String, SecretValue)>,
    routing_path: Seq<char>,
) -> Result<(), Seq<char>> {
    if !user_allowed(ps.user_authorization@, username, routing_path) {
        Err("Unauthorized user"@)
    } else if !secret_allowed(ps.secret_authorization@, method, headers, secrets, routing_path) {
        Err("Invalid header authentication"@)
    } else {
        Ok(())
    }
}

/// Checks a versioned request against the user and header authorization of its
/// version; on refusal, the message of the forbidden response.
pub fn authorize_request(
    ps: &PolicySystem,
    username: Option<&str>,
    method: &str,
    headers: &Vec<(String, Vec<u8>)>,
    secrets: &Vec<(String, SecretValue)>,
    routing_path: &str,
) -> (r: Result<(), String>)
    requires
        ps.wf(),
    ensures
        match (r, authorization_outcome(ps, match username { Some(u) => Some(u@), None => None }, method@,
            headers@, secrets@, routing_path@)) {
            (Ok(_), Ok(_)) => true,
            (Err(m), Err(n)) => m@ == n,
            _ => false,
        },
{
    if !ps.user_authorization.is_allowed(username, routing_path) {
        return Err("Unauthorized user".to_owned());
    }
    if !ps.secret_authorization.is_allowed(method, headers, secrets, routing_path) {
        return Err("Invalid header authentication".to_owned());
    }
    Ok(())
}

/// The headers added to every response unless it already has them.
pub open spec fn default_headers() -> Seq<(Seq<char>, Seq<char>)> {
    seq![
        ("access-control-allow-origin"@, "*"@),
        ("access-control-allow-methods"@, "POST, PUT, GET, OPTIONS, DELETE"@),
        ("access-control-allow-headers"@, "Content-Type,ChiselUID"@),
    ]
}

/// The default headers (name and value) that a response with the headers named
/// `existing` (lower case) lacks, in their usual order.
pub fn default_headers_to_add(existing: &Vec<String>) -> (r: Vec<(String, String)>)
    ensures
        r@.map_values(|h: (String, String)| (h.0@, h.1@))
            == default_headers().filter(|h: (Seq<char>, Seq<char>)| !existing@.map_values(|s: String| s@).contains(h.0)),
{
    let names = ["access-control-allow-origin", "access-control-allow-methods", "access-control-allow-headers"];
    let values = ["*", "POST, PUT, GET, OPTIONS, DELETE", "Content-Type,ChiselUID"];
    let ghost dh = default_headers();
    let ghost ex = existing@.map_values(|s: String| s@);
    let ghost pred = |h: (Seq<char>, Seq<char>)| !ex.contains(h.0);
    let mut r: Vec<(String, String)> = Vec::new();
    let mut i: usize = 0;
    assert(dh.take(0) =~= Seq::<(Seq<char>, Seq<char>)>::empty());
    while i < 3
        invariant
            i <= 3,
            dh == default_headers(),
            ex == existing@.map_values(|s: String| s@),
            pred == (|h: (Seq<char>, Seq<char>)| !ex.contains(h.0)),
            names@.len() == 3,
            values@.len() == 3,
            forall|k: int| 0 <= k < 3 ==> (#[trigger] names@[k])@ == dh[k].0 && values@[k]@ == dh[k].1,
            r@.map_values(|h: (String, String)| (h.0@, h.1@)) == dh.take(i as int).filter(pred),
        decreases 3 - i,
    {
        let name = names[i];
        let mut present = false;
        let mut j: usize = 0;
        while j < existing.len()
            invariant
                j <= existing@.len(),
                ex == existing@.map_values(|s: String| s@),
                present <==> exists|k: int| 0 <= k < j && existing@[k]@ == name@,
            decreases existing@.len() - j,
        {
            if str_eq(existing[j].as_str(), name) {
                present = true;
            }
            j = j + 1;
        }
        proof {
            if present {
                let k = choose|k: int| 0 <= k < j && existing@[k]@ == name@;
                assert(ex[k] == name@);
            }
            if ex.contains(name@) {
                let k = choose|k: int| 0 <= k < ex.len() && ex[k] == name@;
                assert(existing@[k]@ == name@);
            }
            assert(dh.take(i + 1).drop_last() =~= dh.take(i as int));
            reveal(Seq::filter);
        }
        if !present {
            let ghost before = r@.map_values(|h: (String, String)| (h.0@, h.1@));
            r.push((name.to_owned(), values[i].to_owned()));
            assert(r@.map_values(|h: (String, String)| (h.0@, h.1@)) =~= before.push((dh[i as int].0, dh[i as int].1)));
        }
        i = i + 1;
    }
    assert(dh.take(3) =~= dh);
    r
}

} // verus!
