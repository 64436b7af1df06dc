//! The route of an endpoint, as its stored source path gives it.

use vstd::prelude::*;
use crate::text::{chars_of, string_of_chars};
use crate::migrate::{split_once, index_of_char, sub_chars};

verus! {

/// The index of the last `c` in `s`, if any.
pub open spec fn last_index(s: Seq<char>, c: char) -> Option<int> {
    if exists|i: int| 0 <= i < s.len() && s[i] == c {
        Some(choose|i: int| 0 <= i < s.len() && s[i] == c && forall|j: int| i < j < s.len() ==> s[j] != c)
    } else {
        None
    }
}

/// `s` without its extension: up to (not including) its last `.`, if any.
pub open spec fn without_extension(s: Seq<char>) -> Seq<char> {
    match last_index(s, '.') {
        Some(i) => s.subrange(0, i),
        None => s,
    }
}

/// The API version and the rest of a source path of the form
/// `/api_version/kind/rest`.
pub open spec fn endpoint_parts(path: Seq<char>) -> Option<(Seq<char>, Seq<char>)> {
    match split_once(path, '/') {
        None => None,
        Some((_, r0)) => match split_once(r0, '/') {
            None => None,
            Some((v, r1)) => match split_once(r1, '/') {
                None => None,
                Some((_, rest)) => Some((v, rest)),
            },
        },
    }
}

/// The route an endpoint's source path stands for.
pub open spec fn endpoint_route(path: Seq<char>) -> Seq<char> {
    match endpoint_parts(path) {
        Some((version, rest)) => "/"@ + version + "/"@ + without_extension(rest),
        None => Seq::empty(),
    }
}

fn without_extension_chars(v: &Vec<char>) -> (r: Vec<char>)
    ensures
        r@ == without_extension(v@),
{
    let mut i: usize = v.len();
    while i > 0
        invariant
            i <= v@.len(),
            forall|j: int| i <= j < v@.len() ==> v@[j] != '.',
        decreases i,
    {
        if v[i - 1] == '.' {
            proof {
                let k = choose|k: int| 0 <= k < v@.len() && v@[k] == '.' && forall|j: int| k < j < v@.len() ==> v@[j] != '.';
                if k < i - 1 {
                    assert(v@[i - 1] == '.');
                } else if k > i - 1 {
                }
            }
            return sub_chars(v, 0, i - 1);
        }
        i = i - 1;
    }
    proof {
        if exists|k: int| 0 <= k < v@.len() && v@[k] == '.' {
            let k = choose|k: int| 0 <= k < v@.len() && v@[k] == '.';
            assert(v@[k] != '.');
        }
    }
    sub_chars(v, 0, v.len())
}

fn split_at_slash(v: &Vec<char>) -> (r: Option<(Vec<char>, Vec<char>)>)
    ensures
        match (r, split_once(v@, '/')) {
            (Some((a, b)), Some((x, y))) => a@ == x && b@ == y,
            (None, None) => true,
            _ => false,
        },
{
    match index_of_char(v, '/') {
        Some(i) => {
            let n = v.len();
            Some((sub_chars(v, 0, i), sub_chars(v, i + 1, n)))
        },
        None => None,
    }
}

fn route_text(version: &Vec<char>, stem: &Vec<char>) -> (r: String)
    ensures
        r@ == "/"@ + version@ + "/"@ + stem@,
{
    let mut out: Vec<char> = Vec::new();
    out.push('/');
    let mut k: usize = 0;
    while k < version.len()
        invariant
            k <= version@.len(),
            out@ == seq!['/'] + version@.take(k as int),
        decreases version@.len() - k,
    {
        out.push(version[k]);
        assert(version@.take(k + 1) =~= version@.take(k as int).push(version@[k as int]));
        k = k + 1;
    }
    assert(version@.take(version@.len() as int) =~= version@);
    out.push('/');
    let ghost mid = out@;
    let mut k: usize = 0;
    while k < stem.len()
        invariant
            k <= stem@.len(),
            out@ == mid + stem@.take(k as int),
        decreases stem@.len() - k,
    {
        out.push(stem[k]);
        assert(stem@.take(k + 1) =~= stem@.take(k as int).push(stem@[k as int]));
        k = k + 1;
    }
    assert(stem@.take(stem@.len() as int) =~= stem@);
    proof {
        reveal_strlit("/");
        assert(out@ =~= "/"@ + version@ + "/"@ + stem@);
    }
    string_of_chars(&out)
}

/// The endpoint route that a source path `/api_version/endpoints/rest.js`
/// stands for: `/api_version/rest`.
pub fn endpoint_path_from_source_path(path: &str) -> (r: String)
    requires
        endpoint_parts(path@) is Some,
    ensures
        r@ == endpoint_route(path@),
{
    let p = chars_of(path);
    let (_, r0) = split_at_slash(&p).unwrap();
    let (version, r1) = split_at_slash(&r0).unwrap();
    let (_, rest) = split_at_slash(&r1).unwrap();
    let stem = without_extension_chars(&rest);
    route_text(&version, &stem)
}

} // verus!
