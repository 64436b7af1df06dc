//! Regular expressions used by authorization policies, compiled by the
//! `regex` crate.

use vstd::prelude::*;

verus! {

/// The `regex` crate's compiled regular expression, carried opaquely.
#[verifier::external_type_specification]
#[verifier::external_body]
pub struct ExRegex(regex::Regex);

/// Whether `regex::Regex::new` accepts `pattern` (it is valid and within the
/// default size limit). Depends on the pattern alone.
pub uninterp spec fn spec_regex_compiles(pattern: Seq<char>) -> bool;

/// Whether the regular expression `pattern` matches somewhere in `haystack`
/// (`regex::Regex::is_match` on the compiled pattern).
pub uninterp spec fn spec_regex_is_match(pattern: Seq<char>, haystack: Seq<char>) -> bool;

/// Compiles `source` with `regex::Regex::new`. Claims that compilation succeeds
/// exactly when the pattern is one that `regex` accepts; the error text is not
/// described.
#[verifier::external_body]
fn regex_new(source: &str) -> (r: Result<regex::Regex, String>)
    ensures
        r is Ok <==> spec_regex_compiles(source@),
{
    regex::Regex::new(source).map_err(|e| e.to_string())
}

/// A compiled regular expression together with the text it was compiled from.
#[derive(Debug)]
pub struct Pattern {
    source: String,
    compiled: regex::Regex,
}

/// Calls `regex::Regex::is_match` on the compiled form of `p`. Claims that the
/// result is the match relation of `p`'s source text and `haystack`, which holds
/// because `Pattern::new` is the only way to build a `Pattern`, and it compiles
/// exactly that source text.
#[verifier::external_body]
fn pattern_is_match(p: &Pattern, haystack: &str) -> (r: bool)
    ensures
        r == spec_regex_is_match(p.source@, haystack@),
{
    p.compiled.is_match(haystack)
}

impl Pattern {
    /// The source text of the pattern.
    pub closed spec fn view(&self) -> Seq<char> {
        self.source@
    }

    /// Compiles `source`; fails exactly when the `regex` crate rejects it.
    pub fn new(source: &str) -> (r: Result<Pattern, String>)
        ensures
            r is Ok <==> spec_regex_compiles(source@),
            r matches Ok(p) ==> p@ == source@,
    {
        match regex_new(source) {
            Ok(compiled) => Ok(Pattern { source: source.to_owned(), compiled }),
            Err(e) => Err(e),
        }
    }

    /// Whether the pattern matches somewhere in `haystack`.
    pub fn is_match(&self, haystack: &str) -> (r: bool)
        ensures
            r == spec_regex_is_match(self@, haystack@),
    {
        pattern_is_match(self, haystack)
    }

    /// The source text of the pattern.
    pub fn as_str(&self) -> (r: &str)
        ensures
            r@ == self@,
    {
        self.source.as_str()
    }
}

/// The leftmost split of `s` into `/version` and `/path` by the request-path
/// pattern `/(?P<version>[^/]+)(?P<path>/.+)`: the match starts at the first `/`
/// from which it can succeed; the version is the non-empty run of non-`/`
/// characters after it; the path starts at the following `/` and extends to the
/// next line break or the end.
pub open spec fn request_path_split(s: Seq<char>) -> Option<(Seq<char>, Seq<char>)> {
    request_path_split_from(s, 0)
}

/// The first index `>= i` holding `c`, or `s.len()` when there is none.
pub open spec fn first_from(s: Seq<char>, i: int, c: char) -> int
    decreases s.len() - i,
{
    if i >= s.len() {
        s.len() as int
    } else if s[i] == c {
        i
    } else {
        first_from(s, i + 1, c)
    }
}

/// The request-path match that starts at index `i`, if one does.
pub open spec fn request_path_match_at(s: Seq<char>, i: int) -> Option<(Seq<char>, Seq<char>)> {
    if 0 <= i && i + 1 < s.len() && s[i] == '/' && s[i + 1] != '/' {
        let j = first_from(s, i + 1, '/');
        if j + 1 < s.len() && s[j + 1] != '\n' {
            let k = first_from(s, j + 1, '\n');
            Some((s.subrange(i + 1, j), s.subrange(j, k)))
        } else {
            None
        }
    } else {
        None
    }
}

pub open spec fn request_path_split_from(s: Seq<char>, i: int) -> Option<(Seq<char>, Seq<char>)>
    decreases s.len() - i,
{
    if i < 0 || i >= s.len() {
        None
    } else {
        match request_path_match_at(s, i) {
            Some(m) => Some(m),
            None => request_path_split_from(s, i + 1),
        }
    }
}

/// The version-path pattern of the HTTP front end, anchored at both ends:
/// `/(?P<version_id>[^/]*)(?P<routing_path>(/.*)?)`. It matches a path that starts
/// with `/` and has no line break after the version segment; the version is the
/// (possibly empty) segment after the first `/`, the routing path is the rest.
pub open spec fn version_path_split(s: Seq<char>) -> Option<(Seq<char>, Seq<char>)> {
    if s.len() > 0 && s[0] == '/' {
        let j = first_from(s, 1, '/');
        if first_from(s, j, '\n') == s.len() {
            Some((s.subrange(1, j), s.subrange(j, s.len() as int)))
        } else {
            None
        }
    } else {
        None
    }
}

pub open spec fn version_path_pattern() -> Seq<char> {
    "(?x)\n            ^\n            /(?P<version_id> [^/]*)\n            (?P<routing_path> (/.*)?)\n            $\n        "@
}

/// What the first match of `pattern` in `text` captured in the groups named
/// `first` and `second` (`None` when the pattern does not compile, nothing
/// matches, or a group took no part in the match).
pub uninterp spec fn spec_regex_capture_pair(pattern: Seq<char>, first: Seq<char>, second: Seq<char>, text: Seq<char>) -> Option<(Seq<char>, Seq<char>)>;

/// Compiles `pattern` with `regex::Regex::new`, runs `captures` on `text`, and
/// returns the text of the two named groups. Claims that the result is a
/// function of the arguments, and, for the two patterns this crate uses, what
/// `regex`'s documented leftmost-first, greedy semantics give.
#[verifier::external_body]
pub(crate) fn regex_capture_pair(pattern: &str, first: &str, second: &str, text: &str) -> (r: Option<(String, String)>)
    ensures
        r matches Some((a, b)) ==> spec_regex_capture_pair(pattern@, first@, second@, text@) == Some((a@, b@)),
        r is None ==> spec_regex_capture_pair(pattern@, first@, second@, text@) is None,
        pattern@ == "/(?P<version>[^/]+)(?P<path>/.+)"@ && first@ == "version"@ && second@ == "path"@
            ==> match (r, request_path_split(text@)) {
                (Some((a, b)), Some((x, y))) => a@ == x && b@ == y,
                (None, None) => true,
                _ => false,
            },
        pattern@ == version_path_pattern() && first@ == "version_id"@ && second@ == "routing_path"@
            ==> match (r, version_path_split(text@)) {
                (Some((a, b)), Some((x, y))) => a@ == x && b@ == y,
                (None, None) => true,
                _ => false,
            },
{
    let re = regex::Regex::new(pattern).ok()?;
    let caps = re.captures(text)?;
    let a = caps.name(first)?.as_str().to_string();
    let b = caps.name(second)?.as_str().to_string();
    Some((a, b))
}

} // verus!
