//! The migration of stored endpoint sources to modules: each API version
//! gets a root module that registers its endpoints' routes, and every source
//! becomes a module of its own.

use vstd::prelude::*;
use crate::text::{chars_of, string_of_chars, string_concat, u64_to_string, decimal};

verus! {

/// A stored source file.
#[derive(Debug)]
pub struct SourceRow {
    pub path: String,
    pub code: String,
}

/// A module of an API version.
#[derive(Debug)]
pub struct ModuleRow {
    pub version_id: String,
    pub url: String,
    pub code: String,
}

/// A source file, by its path within the version.
#[derive(Debug)]
pub struct Source {
    pub path: String,
    pub code: String,
}

/// A source that defines an endpoint, with the endpoint's route.
#[derive(Debug)]
pub struct EndpointSource {
    pub route: String,
    pub source: Source,
}

/// The sources of one API version.
#[derive(Debug)]
pub struct VersionSourceMap {
    pub version_id: String,
    pub endpoints: Vec<EndpointSource>,
    pub others: Vec<Source>,
}

/// What a stored source path says: its version, its path without leading
/// slashes, and the route of the endpoint it defines, if it defines one.
#[derive(Debug)]
pub struct SourcePath {
    pub version_id: String,
    pub path: String,
    pub endpoint_route: Option<String>,
}

/// `s` without its leading `c`s.
pub open spec fn trim_start(s: Seq<char>, c: char) -> Seq<char>
    decreases s.len(),
{
    if s.len() > 0 && s[0] == c {
        trim_start(s.drop_first(), c)
    } else {
        s
    }
}

/// `s` without the copies of `suffix` it ends with, removed one by one.
pub open spec fn trim_end(s: Seq<char>, suffix: Seq<char>) -> Seq<char>
    decreases s.len(),
{
    if suffix.len() > 0 && suffix.is_suffix_of(s) {
        trim_end(s.subrange(0, s.len() - suffix.len()), suffix)
    } else {
        s
    }
}

/// The index of the first `c` in `s`, if any.
pub open spec fn first_index(s: Seq<char>, c: char) -> Option<int> {
    if exists|i: int| 0 <= i < s.len() && s[i] == c {
        Some(choose|i: int| 0 <= i < s.len() && s[i] == c && forall|j: int| 0 <= j < i ==> s[j] != c)
    } else {
        None
    }
}

/// `s` split around its first `c`, if it has one.
pub open spec fn split_once(s: Seq<char>, c: char) -> Option<(Seq<char>, Seq<char>)> {
    match first_index(s, c) {
        Some(i) => Some((s.subrange(0, i), s.subrange(i + 1, s.len() as int))),
        None => None,
    }
}

/// The endpoint route of a path within a version: the rest of a path under
/// `endpoints/` or `routes/`, without its `.ts` and `.js` endings.
pub open spec fn spec_route(rel: Seq<char>) -> Option<Seq<char>> {
    match split_once(rel, '/') {
        Some((dir, rest)) => if dir == "endpoints"@ || dir == "routes"@ {
            Some(trim_end(trim_end(rest, ".ts"@), ".js"@))
        } else {
            None
        },
        None => None,
    }
}

/// The parts of a stored source path (`version/...`, leading slashes
/// ignored); a source under `endpoints/` or `routes/` defines the endpoint
/// whose route is the rest of the path without its `.ts` and `.js` endings.
pub open spec fn spec_source_path(path: Seq<char>) -> Option<(Seq<char>, Seq<char>, Option<Seq<char>>)> {
    let p = trim_start(path, '/');
    match split_once(p, '/') {
        None => None,
        Some((version_id, rel)) => {
            Some((version_id, p, spec_route(rel)))
        },
    }
}

pub(crate) fn index_of_char(v: &Vec<char>, c: char) -> (r: Option<usize>)
    ensures
        match r {
            Some(i) => first_index(v@, c) == Some(i as int),
            None => first_index(v@, c) is None,
        },
        r matches Some(i) ==> i < v@.len(),
{
    let mut i: usize = 0;
    while i < v.len()
        invariant
            i <= v@.len(),
            forall|j: int| 0 <= j < i ==> v@[j] != c,
        decreases v@.len() - i,
    {
        if v[i] == c {
            proof {
                let k = choose|k: int| 0 <= k < v@.len() && v@[k] == c && forall|j: int| 0 <= j < k ==> v@[j] != c;
                if k < i {
                } else if k > i {
                    assert(v@[i as int] == c);
                }
            }
            return Some(i);
        }
        i = i + 1;
    }
    None
}

pub(crate) fn sub_chars(v: &Vec<char>, lo: usize, hi: usize) -> (r: Vec<char>)
    requires
        lo <= hi <= v@.len(),
    ensures
        r@ == v@.subrange(lo as int, hi as int),
{
    let mut r: Vec<char> = Vec::new();
    let mut i: usize = lo;
    while i < hi
        invariant
            lo <= i <= hi,
            hi <= v@.len(),
            r@ == v@.subrange(lo as int, i as int),
        decreases hi - i,
    {
        r.push(v[i]);
        assert(r@ =~= v@.subrange(lo as int, i + 1));
        i = i + 1;
    }
    r
}

fn trim_start_chars(v: &Vec<char>, c: char) -> (r: Vec<char>)
    ensures
        r@ == trim_start(v@, c),
{
    let mut i: usize = 0;
    assert(v@.subrange(0, v@.len() as int) =~= v@);
    while i < v.len() && v[i] == c
        invariant
            i <= v@.len(),
            trim_start(v@, c) == trim_start(v@.subrange(i as int, v@.len() as int), c),
        decreases v@.len() - i,
    {
        assert(v@.subrange(i as int, v@.len() as int).drop_first() =~= v@.subrange(i + 1, v@.len() as int));
        i = i + 1;
    }
    sub_chars(v, i, v.len())
}

fn ends_with_chars(v: &Vec<char>, n: usize, suffix: &Vec<char>) -> (r: bool)
    requires
        n <= v@.len(),
    ensures
        r == suffix@.is_suffix_of(v@.subrange(0, n as int)),
{
    if suffix.len() > n {
        return false;
    }
    let start = n - suffix.len();
    let mut k: usize = 0;
    while k < suffix.len()
        invariant
            start + suffix@.len() == n,
            n <= v@.len(),
            k <= suffix@.len(),
            forall|j: int| 0 <= j < k ==> v@[start + j] == suffix@[j],
        decreases suffix@.len() - k,
    {
        if v[start + k] != suffix[k] {
            assert(v@.subrange(0, n as int).subrange(start as int, n as int)[k as int] != suffix@[k as int]);
            return false;
        }
        k = k + 1;
    }
    assert(v@.subrange(0, n as int).subrange(start as int, n as int) =~= suffix@);
    true
}

fn trim_end_chars(v: &Vec<char>, suffix: &Vec<char>) -> (r: Vec<char>)
    ensures
        r@ == trim_end(v@, suffix@),
{
    let mut n: usize = v.len();
    assert(v@.subrange(0, v@.len() as int) =~= v@);
    while suffix.len() > 0 && ends_with_chars(v, n, suffix)
        invariant
            n <= v@.len(),
            trim_end(v@, suffix@) == trim_end(v@.subrange(0, n as int), suffix@),
        decreases n,
    {
        assert(v@.subrange(0, n as int).subrange(0, n - suffix@.len()) =~= v@.subrange(0, n - suffix@.len()));
        n = n - suffix.len();
    }
    sub_chars(v, 0, n)
}

fn route_of(rel: &Vec<char>) -> (r: Option<String>)
    ensures
        match (r, spec_route(rel@)) {
            (Some(a), Some(b)) => a@ == b,
            (None, None) => true,
            _ => false,
        },
{
    match index_of_char(rel, '/') {
        Some(j) => {
            let dir = sub_chars(rel, 0, j);
            let n = rel.len();
            let rest = sub_chars(rel, j + 1, n);
            let endpoints = chars_of("endpoints");
            let routes = chars_of("routes");
            if crate::text::chars_eq(&dir, &endpoints) || crate::text::chars_eq(&dir, &routes) {
                let ts = chars_of(".ts");
                let js = chars_of(".js");
                let t1 = trim_end_chars(&rest, &ts);
                let t2 = trim_end_chars(&t1, &js);
                Some(string_of_chars(&t2))
            } else {
                None
            }
        },
        None => None,
    }
}

/// Reads a stored source path: its version, the path without leading
/// slashes, and the endpoint route it defines, if any; `None` when the path
/// has no version part.
pub fn parse_source_path(path: &str) -> (r: Option<SourcePath>)
    ensures
        match (r, spec_source_path(path@)) {
            (Some(sp), Some((v, p, route))) => sp.version_id@ == v && sp.path@ == p
                && match (sp.endpoint_route, route) {
                    (Some(a), Some(b)) => a@ == b,
                    (None, None) => true,
                    _ => false,
                },
            (None, None) => true,
            _ => false,
        },
{
    let chars = chars_of(path);
    let p = trim_start_chars(&chars, '/');
    let i = match index_of_char(&p, '/') {
        None => return None,
        Some(i) => i,
    };
    let version_id = sub_chars(&p, 0, i);
    let n = p.len();
    let rel = sub_chars(&p, i + 1, n);
    let route = route_of(&rel);
    Some(SourcePath { version_id: string_of_chars(&version_id), path: string_of_chars(&p), endpoint_route: route })
}

/// The URL of the module of a source path.
pub fn path_to_url(path: &str) -> (r: String)
    ensures
        r@ == "file:///"@ + path@,
{
    string_concat("file:///", path)
}

/// The module that a source becomes in its version.
pub fn migrate_source(version_id: &str, source: Source) -> (r: ModuleRow)
    ensures
        r.version_id@ == version_id@,
        r.url@ == "file:///"@ + source.path@,
        r.code == source.code,
{
    ModuleRow { version_id: version_id.to_owned(), url: path_to_url(source.path.as_str()), code: source.code }
}

/// Whether every character of `s` is printable ASCII other than a double
/// quote or a backslash, which Rust's `Debug` formatting leaves as they are.
pub open spec fn debug_plain(s: Seq<char>) -> bool {
    forall|i: int| 0 <= i < s.len() ==> ' ' <= #[trigger] s[i] && s[i] <= '~' && s[i] != '"' && s[i] != '\\'
}

/// The text that Rust's `Debug` formatting of a string gives.
pub uninterp spec fn spec_debug_quoted(s: Seq<char>) -> Seq<char>;

/// Formats `s` with std's `Debug` for `str` (`{:?}`): a quoted, escaped
/// string. The contract names the result and claims what std documents of
/// it for plain text: printable ASCII other than `"` and `\` is only quoted.
#[verifier::external_body]
pub(crate) fn debug_quoted(s: &str) -> (r: String)
    ensures
        r@ == spec_debug_quoted(s@),
        debug_plain(s@) ==> r@ == seq!['"'] + s@ + seq!['"'],
{
    format!("{:?}", s)
}

/// The lines of the root module of a version that registers `endpoints`,
/// given the quoted import URL and the quoted route of each.
pub open spec fn root_lines(urls: Seq<Seq<char>>, routes: Seq<Seq<char>>) -> Seq<Seq<char>>
    decreases urls.len(),
{
    if urls.len() == 0 {
        seq![
            "// this code was migrated by server/src/datastore/meta/migrate_to_2.rs"@,
            "import { RouteMap } from 'chisel://api/routing.ts';"@,
            "import { TopicMap } from 'chisel://api/kafka.ts';"@,
            "export const routeMap = new RouteMap();"@,
            "export const topicMap = new TopicMap();"@,
            ""@
        ]
    } else {
        let i = (urls.len() - 1) as nat;
        root_lines(urls.drop_last(), routes)
            .push("import endpoint"@ + decimal(i) + " from "@ + urls.last() + ";"@)
            .push("routeMap.prefix("@ + routes[i as int] + ", RouteMap.convert(endpoint"@ + decimal(i) + ", "@ + routes[i as int] + "));"@)
    }
}

/// The lines joined by newlines.
pub open spec fn join_lines(lines: Seq<Seq<char>>) -> Seq<char>
    decreases lines.len(),
{
    if lines.len() == 0 {
        Seq::empty()
    } else if lines.len() == 1 {
        lines[0]
    } else {
        join_lines(lines.drop_last()) + "\n"@ + lines.last()
    }
}

proof fn lemma_join_push(lines: Seq<Seq<char>>, x: Seq<char>)
    requires
        lines.len() >= 1,
    ensures
        join_lines(lines.push(x)) == join_lines(lines) + "\n"@ + x,
{
    assert(lines.push(x).drop_last() =~= lines);
}

/// The quoted import URL of each endpoint's source.
pub open spec fn endpoint_urls(endpoints: Seq<EndpointSource>) -> Seq<Seq<char>> {
    endpoints.map_values(|e: EndpointSource| spec_debug_quoted("file:///"@ + e.source.path@))
}

/// The quoted route of each endpoint.
pub open spec fn endpoint_routes(endpoints: Seq<EndpointSource>) -> Seq<Seq<char>> {
    endpoints.map_values(|e: EndpointSource| spec_debug_quoted(e.route@))
}

/// The root module of a version: it imports each endpoint's module and
/// registers it under the endpoint's route.
pub fn codegen_root(version_id: &str, endpoints: &Vec<EndpointSource>) -> (r: ModuleRow)
    requires
        endpoints@.len() < u64::MAX,
    ensures
        r.version_id@ == version_id@,
        r.url@ == "file:///__root.ts"@,
        r.code@ == join_lines(root_lines(endpoint_urls(endpoints@), endpoint_routes(endpoints@))),
{
    let ghost urls = endpoint_urls(endpoints@);
    let ghost routes = endpoint_routes(endpoints@);
    proof {
        reveal_strlit("\n");
    }
    let h0 = "// this code was migrated by server/src/datastore/meta/migrate_to_2.rs";
    let h1 = "import { RouteMap } from 'chisel://api/routing.ts';";
    let h2 = "import { TopicMap } from 'chisel://api/kafka.ts';";
    let h3 = "export const routeMap = new RouteMap();";
    let h4 = "export const topicMap = new TopicMap();";
    let h5 = "";
    let mut code = h0.to_owned();
    let ghost mut lines: Seq<Seq<char>> = seq![h0@];
    proof { lemma_join_push(lines, h1@); lines = lines.push(h1@); }
    code = code.concat("\n").concat(h1);
    proof { lemma_join_push(lines, h2@); lines = lines.push(h2@); }
    code = code.concat("\n").concat(h2);
    proof { lemma_join_push(lines, h3@); lines = lines.push(h3@); }
    code = code.concat("\n").concat(h3);
    proof { lemma_join_push(lines, h4@); lines = lines.push(h4@); }
    code = code.concat("\n").concat(h4);
    proof { lemma_join_push(lines, h5@); lines = lines.push(h5@); }
    code = code.concat("\n").concat(h5);
    proof {
        assert(urls.take(0) =~= Seq::<Seq<char>>::empty());
        assert(lines =~= root_lines(urls.take(0), routes));
    }
    let mut i: usize = 0;
    while i < endpoints.len()
        invariant
            endpoints@.len() < u64::MAX,
            i <= endpoints@.len(),
            urls == endpoint_urls(endpoints@),
            routes == endpoint_routes(endpoints@),
            code@ == join_lines(root_lines(urls.take(i as int), routes)),
            root_lines(urls.take(i as int), routes).len() >= 6,
        decreases endpoints@.len() - i,
    {
        let e = &endpoints[i];
        let url = path_to_url(e.source.path.as_str());
        let quoted_url = debug_quoted(url.as_str());
        let quoted_route = debug_quoted(e.route.as_str());
        let n = u64_to_string(i as u64);
        proof {
            reveal_strlit("import endpoint");
            reveal_strlit(" from ");
            reveal_strlit(";");
            reveal_strlit("routeMap.prefix(");
            reveal_strlit(", RouteMap.convert(endpoint");
            reveal_strlit(", ");
            reveal_strlit("));");
        }
        let line1 = string_concat("import endpoint", n.as_str()).concat(" from ").concat(quoted_url.as_str()).concat(";");
        let line2 = string_concat("routeMap.prefix(", quoted_route.as_str()).concat(", RouteMap.convert(endpoint")
            .concat(n.as_str()).concat(", ").concat(quoted_route.as_str()).concat("));");
        let ghost l0 = root_lines(urls.take(i as int), routes);
        proof { lemma_join_push(l0, line1@); }
        code = code.concat("\n").concat(line1.as_str());
        proof { lemma_join_push(l0.push(line1@), line2@); }
        code = code.concat("\n").concat(line2.as_str());
        proof {
            let t = urls.take(i + 1);
            assert(t.drop_last() =~= urls.take(i as int));
            assert(t.last() == urls[i as int]);
            assert(urls[i as int] == quoted_url@);
            assert(routes[i as int] == quoted_route@);
            assert(root_lines(t, routes) == l0.push(line1@).push(line2@));
        }
        i = i + 1;
    }
    assert(urls.take(endpoints@.len() as int) =~= urls);
    ModuleRow { version_id: version_id.to_owned(), url: "file:///__root.ts".to_owned(), code }
}

/// The version, URL and code of a module.
pub open spec fn row_view(m: ModuleRow) -> (Seq<char>, Seq<char>, Seq<char>) {
    (m.version_id@, m.url@, m.code@)
}

/// The sources of a version as text: the version, each endpoint's route,
/// path and code, and each other source's path and code.
pub type GroupView = (Seq<char>, Seq<(Seq<char>, Seq<char>, Seq<char>)>, Seq<(Seq<char>, Seq<char>)>);

/// The text of a version's sources.
pub open spec fn group_view(sm: VersionSourceMap) -> GroupView {
    (
        sm.version_id@,
        sm.endpoints@.map_values(|e: EndpointSource| (e.route@, e.source.path@, e.source.code@)),
        sm.others@.map_values(|s: Source| (s.path@, s.code@)),
    )
}

/// The modules of a version: its root module, then a module for each
/// endpoint's source, then one for each other source.
pub open spec fn version_modules(g: GroupView) -> Seq<(Seq<char>, Seq<char>, Seq<char>)> {
    let urls = g.1.map_values(|e: (Seq<char>, Seq<char>, Seq<char>)| spec_debug_quoted("file:///"@ + e.1));
    let routes = g.1.map_values(|e: (Seq<char>, Seq<char>, Seq<char>)| spec_debug_quoted(e.0));
    seq![(g.0, "file:///__root.ts"@, join_lines(root_lines(urls, routes)))]
        + g.1.map_values(|e: (Seq<char>, Seq<char>, Seq<char>)| (g.0, "file:///"@ + e.1, e.2))
        + g.2.map_values(|s: (Seq<char>, Seq<char>)| (g.0, "file:///"@ + s.0, s.1))
}

proof fn lemma_push_rows(before: Seq<ModuleRow>, m: ModuleRow, acc: Seq<(Seq<char>, Seq<char>, Seq<char>)>)
    requires
        before.map_values(|r: ModuleRow| row_view(r)) == acc,
    ensures
        before.push(m).map_values(|r: ModuleRow| row_view(r)) == acc.push(row_view(m)),
{
    assert(before.push(m).map_values(|r: ModuleRow| row_view(r)) =~= acc.push(row_view(m)));
}

/// Appends the modules of one version to `module_rows`.
pub fn migrate_version(source_map: VersionSourceMap, module_rows: &mut Vec<ModuleRow>)
    requires
        source_map.endpoints@.len() < u64::MAX,
    ensures
        final(module_rows)@.map_values(|r: ModuleRow| row_view(r))
            == old(module_rows)@.map_values(|r: ModuleRow| row_view(r)) + version_modules(group_view(source_map)),
{
    let ghost g = group_view(source_map);
    let ghost start = old(module_rows)@.map_values(|r: ModuleRow| row_view(r));
    let root = codegen_root(source_map.version_id.as_str(), &source_map.endpoints);
    proof {
        assert(endpoint_urls(source_map.endpoints@) =~= g.1.map_values(|e: (Seq<char>, Seq<char>, Seq<char>)| spec_debug_quoted("file:///"@ + e.1)));
        assert(endpoint_routes(source_map.endpoints@) =~= g.1.map_values(|e: (Seq<char>, Seq<char>, Seq<char>)| spec_debug_quoted(e.0)));
        lemma_push_rows(module_rows@, root, start);
    }
    let ghost root_v = row_view(root);
    module_rows.push(root);
    let VersionSourceMap { version_id, endpoints, others } = source_map;
    let ghost eps = g.1.map_values(|e: (Seq<char>, Seq<char>, Seq<char>)| (g.0, "file:///"@ + e.1, e.2));
    let ghost ots = g.2.map_values(|s: (Seq<char>, Seq<char>)| (g.0, "file:///"@ + s.0, s.1));
    let ghost ev = endpoints@;
    let mut rest = endpoints;
    assert(ev.len() == rest.len());
    let mut k: usize = 0;
    while rest.len() > 0
        invariant
            version_id@ == g.0,
            ev.len() <= usize::MAX,
            k + rest@.len() == ev.len(),
            rest@ == ev.skip(k as int),
            g.1 == ev.map_values(|e: EndpointSource| (e.route@, e.source.path@, e.source.code@)),
            eps == g.1.map_values(|e: (Seq<char>, Seq<char>, Seq<char>)| (g.0, "file:///"@ + e.1, e.2)),
            module_rows@.map_values(|r: ModuleRow| row_view(r)) == start.push(root_v) + eps.take(k as int),
        decreases rest@.len(),
    {
        let e = rest.remove(0);
        let ghost e_v = e;
        assert(e_v == ev[k as int]);
        let m = migrate_source(version_id.as_str(), e.source);
        proof {
            lemma_push_rows(module_rows@, m, start.push(root_v) + eps.take(k as int));
            assert(eps.take(k + 1) =~= eps.take(k as int).push(row_view(m)));
            assert(rest@ =~= ev.skip(k + 1));
        }
        module_rows.push(m);
        k = k + 1;
    }
    assert(eps.take(ev.len() as int) =~= eps);
    let ghost ov = others@;
    let mut rest = others;
    assert(ov.len() == rest.len());
    let mut k: usize = 0;
    assert(ots.take(0) =~= Seq::<(Seq<char>, Seq<char>, Seq<char>)>::empty());
    while rest.len() > 0
        invariant
            version_id@ == g.0,
            ov.len() <= usize::MAX,
            k + rest@.len() == ov.len(),
            rest@ == ov.skip(k as int),
            g.2 == ov.map_values(|s: Source| (s.path@, s.code@)),
            ots == g.2.map_values(|s: (Seq<char>, Seq<char>)| (g.0, "file:///"@ + s.0, s.1)),
            module_rows@.map_values(|r: ModuleRow| row_view(r)) == start.push(root_v) + eps + ots.take(k as int),
        decreases rest@.len(),
    {
        let s = rest.remove(0);
        let ghost s_v = s;
        assert(s_v == ov[k as int]);
        let m = migrate_source(version_id.as_str(), s);
        proof {
            lemma_push_rows(module_rows@, m, start.push(root_v) + eps + ots.take(k as int));
            assert(ots.take(k + 1) =~= ots.take(k as int).push(row_view(m)));
            assert(rest@ =~= ov.skip(k + 1));
        }
        module_rows.push(m);
        k = k + 1;
    }
    assert(ots.take(ov.len() as int) =~= ots);
    assert(start.push(root_v) + eps + ots =~= start + version_modules(g));
}

/// The position of the first group of version `v` (the number of groups if
/// there is none).
pub open spec fn group_index(groups: Seq<GroupView>, v: Seq<char>) -> int
    decreases groups.len(),
{
    if groups.len() == 0 {
        0
    } else if groups[0].0 == v {
        0
    } else {
        1 + group_index(groups.drop_first(), v)
    }
}

/// A group with one more source: an endpoint if it has a route.
pub open spec fn add_to_group(g: GroupView, route: Option<Seq<char>>, path: Seq<char>, code: Seq<char>) -> GroupView {
    match route {
        Some(r) => (g.0, g.1.push((r, path, code)), g.2),
        None => (g.0, g.1, g.2.push((path, code))),
    }
}

/// Files a source into its version's group, which is added at the end if new.
pub open spec fn file_source(groups: Seq<GroupView>, v: Seq<char>, path: Seq<char>, route: Option<Seq<char>>, code: Seq<char>) -> Seq<GroupView> {
    let k = group_index(groups, v);
    if k < groups.len() {
        groups.update(k, add_to_group(groups[k], route, path, code))
    } else {
        groups.push(add_to_group((v, Seq::empty(), Seq::empty()), route, path, code))
    }
}

/// The sources grouped by version, versions in the order they first occur;
/// rows whose path names no version are left out.
pub open spec fn group_sources(rows: Seq<SourceRow>) -> Seq<GroupView>
    decreases rows.len(),
{
    if rows.len() == 0 {
        Seq::empty()
    } else {
        let g = group_sources(rows.drop_last());
        match spec_source_path(rows.last().path@) {
            None => g,
            Some((v, p, route)) => file_source(g, v, p, route, rows.last().code@),
        }
    }
}

/// The modules of all the versions, version by version.
pub open spec fn all_modules(groups: Seq<GroupView>) -> Seq<(Seq<char>, Seq<char>, Seq<char>)>
    decreases groups.len(),
{
    if groups.len() == 0 {
        Seq::empty()
    } else {
        all_modules(groups.drop_last()) + version_modules(groups.last())
    }
}

proof fn lemma_group_index(groups: Seq<GroupView>, v: Seq<char>, k: int)
    requires
        0 <= k <= groups.len(),
        forall|j: int| 0 <= j < k ==> (#[trigger] groups[j]).0 != v,
        k < groups.len() ==> groups[k].0 == v,
    ensures
        group_index(groups, v) == k,
    decreases k,
{
    if k > 0 {
        assert forall|j: int| 0 <= j < k - 1 implies (#[trigger] groups.drop_first()[j]).0 != v by {
            assert(groups.drop_first()[j] == groups[j + 1]);
        }
        lemma_group_index(groups.drop_first(), v, k - 1);
    } else if groups.len() > 0 {
    }
}

/// The text of each version's sources.
pub open spec fn groups_view(maps: Seq<VersionSourceMap>) -> Seq<GroupView> {
    maps.map_values(|m: VersionSourceMap| group_view(m))
}

fn find_version(maps: &Vec<VersionSourceMap>, v: &str) -> (r: usize)
    ensures
        r == group_index(groups_view(maps@), v@),
        r <= maps@.len(),
{
    let mut k: usize = 0;
    while k < maps.len()
        invariant
            k <= maps@.len(),
            forall|j: int| 0 <= j < k ==> (#[trigger] groups_view(maps@)[j]).0 != v@,
        decreases maps@.len() - k,
    {
        if crate::text::str_eq(maps[k].version_id.as_str(), v) {
            proof { lemma_group_index(groups_view(maps@), v@, k as int); }
            return k;
        }
        k = k + 1;
    }
    proof { lemma_group_index(groups_view(maps@), v@, k as int); }
    k
}

fn add_source(m: &mut VersionSourceMap, route: Option<String>, path: String, code: String)
    ensures
        group_view(*final(m)) == add_to_group(group_view(*old(m)), route_view(route), path@, code@),
{
    let ghost g = group_view(*m);
    match route {
        Some(r) => {
            m.endpoints.push(EndpointSource { route: r, source: Source { path, code } });
        },
        None => {
            m.others.push(Source { path, code });
        },
    }
    proof {
        assert(group_view(*m).1 =~= add_to_group(g, route_view(route), path@, code@).1);
        assert(group_view(*m).2 =~= add_to_group(g, route_view(route), path@, code@).2);
    }
}

/// The text of an optional route.
pub open spec fn route_view(route: Option<String>) -> Option<Seq<char>> {
    match route {
        Some(r) => Some(r@),
        None => None,
    }
}

fn file_parsed(maps: &mut Vec<VersionSourceMap>, version_id: String, path: String, route: Option<String>, code: String, Ghost(i): Ghost<nat>)
    requires
        forall|k: int| 0 <= k < old(maps)@.len() ==> (#[trigger] old(maps)@[k]).endpoints@.len() <= i,
    ensures
        groups_view(final(maps)@) == file_source(groups_view(old(maps)@), version_id@, path@, route_view(route), code@),
        forall|k: int| 0 <= k < final(maps)@.len() ==> (#[trigger] final(maps)@[k]).endpoints@.len() <= i + 1,
{
    let ghost before = groups_view(maps@);
    let k = find_version(&maps, version_id.as_str());
    if k < maps.len() {
        let ghost old_maps = maps@;
        let mut m = maps.remove(k);
        let ghost old_m = m;
        add_source(&mut m, route, path, code);
        assert(group_view(m).1.len() <= group_view(old_m).1.len() + 1);
        maps.insert(k, m);
        proof {
            assert(maps@ =~= old_maps.update(k as int, m));
            assert(old_m == old_maps[k as int]);
            assert(before[k as int] == group_view(old_m));
            assert(groups_view(maps@) =~= before.update(k as int, group_view(m)));
            assert forall|q: int| 0 <= q < maps@.len() implies (#[trigger] maps@[q]).endpoints@.len() <= i + 1 by {
                if q != k {
                    assert(maps@[q] == old_maps[q]);
                } else {
                    assert(group_view(m).1.len() == m.endpoints@.len());
                    assert(group_view(old_m).1.len() == old_m.endpoints@.len());
                }
            }
        }
    } else {
        let mut m = VersionSourceMap { version_id, endpoints: Vec::new(), others: Vec::new() };
        proof {
            assert(group_view(m) =~= (m.version_id@, Seq::<(Seq<char>, Seq<char>, Seq<char>)>::empty(), Seq::<(Seq<char>, Seq<char>)>::empty()));
        }
        add_source(&mut m, route, path, code);
        assert(group_view(m).1.len() == m.endpoints@.len());
        let ghost old_maps = maps@;
        maps.push(m);
        proof {
            assert(groups_view(maps@) =~= before.push(group_view(m)));
            assert forall|q: int| 0 <= q < maps@.len() implies (#[trigger] maps@[q]).endpoints@.len() <= i + 1 by {
                if q < old_maps.len() {
                    assert(maps@[q] == old_maps[q]);
                }
            }
        }
    }
}

fn file_row(maps: &mut Vec<VersionSourceMap>, row: SourceRow, Ghost(i): Ghost<nat>)
    requires
        forall|k: int| 0 <= k < old(maps)@.len() ==> (#[trigger] old(maps)@[k]).endpoints@.len() <= i,
    ensures
        groups_view(final(maps)@) == match spec_source_path(row.path@) {
            None => groups_view(old(maps)@),
            Some((v, p, route)) => file_source(groups_view(old(maps)@), v, p, route, row.code@),
        },
        forall|k: int| 0 <= k < final(maps)@.len() ==> (#[trigger] final(maps)@[k]).endpoints@.len() <= i + 1,
{
    match parse_source_path(row.path.as_str()) {
        None => {
            assert forall|k: int| 0 <= k < maps@.len() implies (#[trigger] maps@[k]).endpoints@.len() <= i + 1 by {
                assert(maps@[k] == old(maps)@[k]);
            }
        },
        Some(sp) => {
            let ghost rv = route_view(sp.endpoint_route);
            assert(spec_source_path(row.path@) == Some((sp.version_id@, sp.path@, rv)));
            file_parsed(maps, sp.version_id, sp.path, sp.endpoint_route, row.code, Ghost(i));
        },
    }
}

/// Turns the stored sources into modules: the sources are grouped by their
/// version (in the order the versions first occur, rows whose path names no
/// version left out), and each version gets its modules.
#[verifier::rlimit(50)]
pub fn migrate_sources(source_rows: Vec<SourceRow>) -> (r: Vec<ModuleRow>)
    requires
        source_rows@.len() < u64::MAX,
    ensures
        r@.map_values(|m: ModuleRow| row_view(m)) == all_modules(group_sources(source_rows@)),
{
    let ghost rows = source_rows@;
    let mut maps: Vec<VersionSourceMap> = Vec::new();
    let mut rest = source_rows;
    assert(rows.len() == rest.len());
    let mut i: usize = 0;
    assert(rows.take(0) =~= Seq::<SourceRow>::empty());
    assert(groups_view(maps@) =~= Seq::<GroupView>::empty());
    while rest.len() > 0
        invariant
            rows.len() < u64::MAX,
            rows.len() <= usize::MAX,
            i + rest@.len() == rows.len(),
            rest@ == rows.skip(i as int),
            groups_view(maps@) == group_sources(rows.take(i as int)),
            forall|k: int| 0 <= k < maps@.len() ==> (#[trigger] maps@[k]).endpoints@.len() <= i,
        decreases rest@.len(),
    {
        let row = rest.remove(0);
        let ghost t = rows.take(i + 1);
        assert(t.drop_last() =~= rows.take(i as int));
        assert(t.last() == rows[i as int]);
        assert(row == rows[i as int]);
        file_row(&mut maps, row, Ghost(i as nat));
        assert(rest@ =~= rows.skip(i + 1));
        i = i + 1;
    }
    assert(rows.take(rows.len() as int) =~= rows);
    let ghost gs = groups_view(maps@);
    let mut out: Vec<ModuleRow> = Vec::new();
    let mut k: usize = 0;
    let ghost mv = maps@;
    assert(mv.len() == maps.len());
    assert(gs.take(0) =~= Seq::<GroupView>::empty());
    while maps.len() > 0
        invariant
            k + maps@.len() == mv.len(),
            mv.len() <= usize::MAX,
            maps@ == mv.skip(k as int),
            gs == groups_view(mv),
            forall|q: int| 0 <= q < mv.len() ==> (#[trigger] mv[q]).endpoints@.len() < u64::MAX,
            out@.map_values(|m: ModuleRow| row_view(m)) == all_modules(gs.take(k as int)),
        decreases maps@.len(),
    {
        let m = maps.remove(0);
        assert(m == mv[k as int]);
        migrate_version(m, &mut out);
        proof {
            let t = gs.take(k + 1);
            assert(t.drop_last() =~= gs.take(k as int));
            assert(t.last() == group_view(mv[k as int]));
            assert(maps@ =~= mv.skip(k + 1));
        }
        k = k + 1;
    }
    assert(gs.take(mv.len() as int) =~= gs);
    out
}

} // verus!
