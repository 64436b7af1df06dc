//! The API routing table: versioned request paths, API descriptions and the
//! routes and event handlers of every version.

use vstd::prelude::*;
use crate::pattern::regex_capture_pair;
use crate::prefix_map::{PrefixMap, longest_prefix_key};
use crate::text::{chars_of, string_concat, string_of_chars, str_eq};

verus! {

/// Collapses every run of `/` characters into a single `/`.
pub open spec fn collapse_slashes(s: Seq<char>) -> Seq<char>
    decreases s.len(),
{
    if s.len() <= 1 {
        s
    } else if s.last() == '/' && s[s.len() - 2] == '/' {
        collapse_slashes(s.drop_last())
    } else {
        collapse_slashes(s.drop_last()).push(s.last())
    }
}

/// No two consecutive characters are both `/`.
pub open spec fn no_double_slash(s: Seq<char>) -> bool {
    forall|i: int| 0 <= i < s.len() - 1 ==> !(#[trigger] s[i] == '/' && s[i + 1] == '/')
}

pub proof fn lemma_collapse_shape(s: Seq<char>)
    ensures
        no_double_slash(collapse_slashes(s)),
        s.len() > 0 ==> collapse_slashes(s).len() > 0 && collapse_slashes(s).last() == s.last(),
        s.len() == 0 ==> collapse_slashes(s).len() == 0,
    decreases s.len(),
{
    if s.len() > 1 {
        lemma_collapse_shape(s.drop_last());
        if !(s.last() == '/' && s[s.len() - 2] == '/') {
            let c = collapse_slashes(s.drop_last());
            assert(c.last() == s.drop_last().last());
            assert forall|i: int| 0 <= i < c.push(s.last()).len() - 1
                implies !(#[trigger] c.push(s.last())[i] == '/' && c.push(s.last())[i + 1] == '/') by {
                if i < c.len() - 1 {
                    assert(c.push(s.last())[i] == c[i]);
                    assert(c.push(s.last())[i + 1] == c[i + 1]);
                }
            }
        }
    }
}

/// Collapsing leaves a sequence without double slashes unchanged.
pub proof fn lemma_collapse_identity(s: Seq<char>)
    requires
        no_double_slash(s),
    ensures
        collapse_slashes(s) == s,
    decreases s.len(),
{
    if s.len() > 1 {
        assert(no_double_slash(s.drop_last())) by {
            assert forall|i: int| 0 <= i < s.drop_last().len() - 1
                implies !(#[trigger] s.drop_last()[i] == '/' && s.drop_last()[i + 1] == '/') by {
                assert(s.drop_last()[i] == s[i]);
                assert(s.drop_last()[i + 1] == s[i + 1]);
            }
        }
        lemma_collapse_identity(s.drop_last());
        assert(!(s[s.len() - 2] == '/' && s[s.len() - 1] == '/'));
        assert(s.drop_last().push(s.last()) =~= s);
    }
}

/// Normalizing a path twice is the same as normalizing it once, and the result
/// never holds `//`.
pub proof fn lemma_collapse_idempotent(s: Seq<char>)
    ensures
        no_double_slash(collapse_slashes(s)),
        collapse_slashes(collapse_slashes(s)) == collapse_slashes(s),
{
    lemma_collapse_shape(s);
    lemma_collapse_identity(collapse_slashes(s));
}

/// Replaces every `//` by `/` until none is left: every run of slashes becomes one.
pub fn normalize_path(path: &str) -> (r: String)
    ensures
        r@ == collapse_slashes(path@),
{
    let cs = chars_of(path);
    let mut out: Vec<char> = Vec::new();
    let mut i: usize = 0;
    assert(path@.take(0) =~= Seq::<char>::empty());
    while i < cs.len()
        invariant
            cs@ == path@,
            i <= cs.len(),
            out@ == collapse_slashes(path@.take(i as int)),
        decreases cs.len() - i,
    {
        let c = cs[i];
        let ghost t = path@.take(i + 1);
        assert(t.drop_last() =~= path@.take(i as int));
        assert(t.last() == c);
        if !(c == '/' && i > 0 && cs[i - 1] == '/') {
            out.push(c);
        }
        i = i + 1;
    }
    assert(path@.take(cs.len() as int) =~= path@);
    string_of_chars(&out)
}

/// A request path: the API version and the path within it.
#[derive(Default, Clone, Debug)]
pub struct RequestPath {
    api_version: String,
    path: String,
}

impl RequestPath {
    pub closed spec fn spec_api_version(&self) -> Seq<char> {
        self.api_version@
    }

    pub closed spec fn spec_path(&self) -> Seq<char> {
        self.path@
    }

    pub fn api_version(&self) -> (r: &str)
        ensures
            r@ == self.spec_api_version(),
    {
        self.api_version.as_str()
    }

    pub fn path(&self) -> (r: &str)
        ensures
            r@ == self.spec_path(),
    {
        self.path.as_str()
    }

    /// Splits `value` at the leftmost match of `/version/path...`: the version is a
    /// non-empty run without `/`, the path starts with the next `/` and runs to the
    /// end of the line.
    pub fn try_from(value: &str) -> (r: Result<RequestPath, ()>)
        ensures
            match (r, crate::pattern::request_path_split(value@)) {
                (Ok(rp), Some((v, p))) => rp.spec_api_version() == v && rp.spec_path() == p,
                (Err(_), None) => true,
                _ => false,
            },
    {
        let pattern: &str = "/(?P<version>[^/]+)(?P<path>/.+)";
        match regex_capture_pair(pattern, "version", "path", value) {
            Some((api_version, path)) => Ok(RequestPath { api_version, path }),
            None => Err(()),
        }
    }
}

/// Name and version tag of an API.
#[derive(Default, Debug, Clone)]
pub struct ApiInfo {
    pub name: String,
    pub tag: String,
}

impl ApiInfo {
    pub fn new(name: String, tag: String) -> (r: Self)
        ensures
            r.name == name,
            r.tag == tag,
    {
        Self { name, tag }
    }

    /// The description of the listing of all routes, for a server whose
    /// build has version tag `tag`.
    pub fn all_routes(tag: String) -> (r: Self)
        ensures
            r.name@ == "ChiselStrike all routes"@,
            r.tag == tag,
    {
        Self { name: "ChiselStrike all routes".to_owned(), tag }
    }

    /// The description of the internal API, for a server whose build has
    /// version tag `tag`.
    pub fn chiselstrike(tag: String) -> (r: Self)
        ensures
            r.name@ == "ChiselStrike Internal API"@,
            r.tag == tag,
    {
        Self { name: "ChiselStrike Internal API".to_owned(), tag }
    }
}

/// API descriptions, by API version.
pub type ApiInfoMap = PrefixMap<ApiInfo>;

/// The routing state of the API server: route handlers of type `R` by path
/// prefix, event handlers of type `E` by topic path, and API descriptions.
pub struct ApiService<R, E> {
    paths: PrefixMap<R>,
    event_handlers: PrefixMap<E>,
    info: ApiInfoMap,
    debug: bool,
}

/// The event paths that an event on `topic` is delivered to: `/version/topic` for
/// each API version other than the internal ones (`__chiselstrike` and the empty one).
pub open spec fn event_paths_spec(versions: Seq<Seq<char>>, topic: Seq<char>) -> Seq<Seq<char>>
    decreases versions.len(),
{
    if versions.len() == 0 {
        Seq::empty()
    } else {
        let rest = event_paths_spec(versions.drop_last(), topic);
        let v = versions.last();
        if v == "__chiselstrike"@ || v.len() == 0 {
            rest
        } else {
            rest.push("/"@ + v + "/"@ + topic)
        }
    }
}

impl<R, E> ApiService<R, E> {
    pub closed spec fn wf(&self) -> bool {
        self.paths.wf() && self.event_handlers.wf() && self.info.wf()
    }

    /// Route handlers by path.
    pub closed spec fn routes_view(&self) -> Map<Seq<char>, R> {
        self.paths@
    }

    /// Event handlers by topic path.
    pub closed spec fn events_view(&self) -> Map<Seq<char>, E> {
        self.event_handlers@
    }

    /// API descriptions by version.
    pub closed spec fn info_view(&self) -> Map<Seq<char>, ApiInfo> {
        self.info@
    }

    /// Whether internal errors are reported to clients in detail.
    pub closed spec fn is_debug(&self) -> bool {
        self.debug
    }

    /// Whether internal errors are reported to clients in detail.
    pub fn debug(&self) -> (r: bool)
        ensures
            r == self.is_debug(),
    {
        self.debug
    }

    /// API versions in the order the service lists them.
    pub closed spec fn info_versions(&self) -> Seq<Seq<char>> {
        self.info.keys()
    }

    /// A service with no routes, whose descriptions are `info` plus the internal API
    /// (`__chiselstrike`) and the listing of all routes (the empty version), both
    /// with the server's version tag `tag`.
    pub fn new(info: ApiInfoMap, debug: bool, tag: String) -> (r: Self)
        requires
            info.wf(),
        ensures
            r.wf(),
            r.is_debug() == debug,
            r.routes_view() == Map::<Seq<char>, R>::empty(),
            r.events_view() == Map::<Seq<char>, E>::empty(),
            r.info_view().dom() == info@.dom().insert("__chiselstrike"@).insert(Seq::<char>::empty()),
            forall|k: Seq<char>| k != "__chiselstrike"@ && k.len() != 0 && #[trigger] info@.contains_key(k)
                ==> r.info_view()[k] == info@[k],
            r.info_view()["__chiselstrike"@].name@ == "ChiselStrike Internal API"@,
            r.info_view()[Seq::<char>::empty()].name@ == "ChiselStrike all routes"@,
            r.info_view()["__chiselstrike"@].tag == tag,
            r.info_view()[Seq::<char>::empty()].tag == tag,
    {
        proof {
            reveal_strlit("__chiselstrike");
            assert("__chiselstrike"@.len() == 14);
            assert("__chiselstrike"@ != Seq::<char>::empty());
        }
        let mut info = info;
        let _ = info.insert("__chiselstrike".to_owned(), ApiInfo::chiselstrike(tag.clone()));
        let ghost i1 = info@;
        let empty = String::new();
        let _ = info.insert(empty, ApiInfo::all_routes(tag));
        Self { paths: PrefixMap::new(), event_handlers: PrefixMap::new(), info, debug }
    }

    /// The handler of the longest route that is a path prefix of `path` once its
    /// slashes are normalized.
    pub fn find_route_fn(&self, path: &str) -> (r: Option<&R>)
        requires
            self.wf(),
        ensures
            match longest_prefix_key(self.routes_view(), collapse_slashes(path@)) {
                None => r is None,
                Some(k) => r == Some(&self.routes_view()[k]),
            },
    {
        let path = normalize_path(path);
        match self.paths.longest_prefix(path.as_str()) {
            None => None,
            Some((_, f)) => Some(f),
        }
    }

    /// Adds (or replaces) the route for `path`.
    pub fn add_route(&mut self, path: String, route_fn: R)
        requires
            old(self).wf(),
        ensures
            final(self).wf(),
            final(self).routes_view() == old(self).routes_view().insert(path@, route_fn),
            final(self).events_view() == old(self).events_view(),
            final(self).info_view() == old(self).info_view(),
            final(self).info_versions() == old(self).info_versions(),
            final(self).is_debug() == old(self).is_debug(),
    {
        let _ = self.paths.insert(path, route_fn);
    }

    /// Removes all routes that have `prefix` as a path prefix.
    pub fn remove_routes(&mut self, prefix: &str)
        requires
            old(self).wf(),
        ensures
            final(self).wf(),
            final(self).routes_view() == crate::prefix_map::without_prefix(old(self).routes_view(), prefix@),
            final(self).events_view() == old(self).events_view(),
            final(self).info_view() == old(self).info_view(),
            final(self).info_versions() == old(self).info_versions(),
            final(self).is_debug() == old(self).is_debug(),
    {
        self.paths.remove_prefix(prefix)
    }

    /// The event handler registered for exactly `topic`.
    pub fn find_event_fn(&self, topic: &str) -> (r: Option<&E>)
        requires
            self.wf(),
        ensures
            r is Some <==> self.events_view().contains_key(topic@),
            r matches Some(f) ==> *f == self.events_view()[topic@],
    {
        self.event_handlers.get(topic)
    }

    /// Adds (or replaces) the event handler for `path`.
    pub fn add_event_handler(&mut self, path: String, event_fn: E)
        requires
            old(self).wf(),
        ensures
            final(self).wf(),
            final(self).events_view() == old(self).events_view().insert(path@, event_fn),
            final(self).routes_view() == old(self).routes_view(),
            final(self).info_view() == old(self).info_view(),
            final(self).info_versions() == old(self).info_versions(),
            final(self).is_debug() == old(self).is_debug(),
    {
        let _ = self.event_handlers.insert(path, event_fn);
    }

    /// Records the description of `api_version`.
    pub fn update_api_info(&mut self, api_version: &str, info: ApiInfo)
        requires
            old(self).wf(),
        ensures
            final(self).wf(),
            final(self).info_view() == old(self).info_view().insert(api_version@, info),
            final(self).routes_view() == old(self).routes_view(),
            final(self).events_view() == old(self).events_view(),
            final(self).is_debug() == old(self).is_debug(),
    {
        let _ = self.info.insert(api_version.to_owned(), info);
    }

    /// The description of `api_version`, if recorded.
    pub fn get_api_info(&self, api_version: &str) -> (r: Option<ApiInfo>)
        requires
            self.wf(),
        ensures
            r is Some <==> self.info_view().contains_key(api_version@),
            r matches Some(i) ==> i.name@ == self.info_view()[api_version@].name@
                && i.tag@ == self.info_view()[api_version@].tag@,
    {
        match self.info.get(api_version) {
            Some(i) => Some(ApiInfo { name: i.name.clone(), tag: i.tag.clone() }),
            None => None,
        }
    }

    /// All route paths, in key order.
    pub fn routes(&self) -> (r: Vec<String>)
        requires
            self.wf(),
        ensures
            r@.map_values(|s: String| s@).to_set() == self.routes_view().dom(),
            crate::prefix_map::strictly_sorted(r@.map_values(|s: String| s@)),
    {
        let entries = self.paths.iter();
        let mut result: Vec<String> = Vec::new();
        let mut i: usize = 0;
        while i < entries.len()
            invariant
                self.wf(),
                entries@.len() == self.paths.keys().len(),
                forall|j: int| 0 <= j < entries@.len() ==> (#[trigger] entries@[j]).0@ == self.paths.keys()[j],
                i <= entries@.len(),
                result@.map_values(|s: String| s@) == self.paths.keys().take(i as int),
            decreases entries@.len() - i,
        {
            let (p, _) = entries[i];
            let ghost before = result@.map_values(|s: String| s@);
            result.push(p.to_owned());
            assert(result@.map_values(|s: String| s@) =~= before.push(p@));
            assert(before.push(p@) =~= self.paths.keys().take(i + 1));
            i = i + 1;
        }
        proof {
            assert(self.paths.keys().take(entries@.len() as int) =~= self.paths.keys());
            self.paths.lemma_keys_domain();
        }
        result
    }

    /// The paths of the event handlers an event on `topic` must be delivered to, one
    /// per non-internal API version.
    pub fn event_paths(&self, topic: &str) -> (r: Vec<String>)
        requires
            self.wf(),
        ensures
            r@.map_values(|s: String| s@) == event_paths_spec(self.info_versions(), topic@),
    {
        let entries = self.info.iter();
        let mut result: Vec<String> = Vec::new();
        let mut i: usize = 0;
        assert(self.info.keys().take(0) =~= Seq::<Seq<char>>::empty());
        while i < entries.len()
            invariant
                self.wf(),
                entries@.len() == self.info.keys().len(),
                forall|j: int| 0 <= j < entries@.len() ==> (#[trigger] entries@[j]).0@ == self.info.keys()[j],
                i <= entries@.len(),
                result@.map_values(|s: String| s@) == event_paths_spec(self.info.keys().take(i as int), topic@),
            decreases entries@.len() - i,
        {
            let (version, _) = entries[i];
            let ghost t = self.info.keys().take(i + 1);
            assert(t.drop_last() =~= self.info.keys().take(i as int));
            assert(t.last() == version@);
            if !(str_eq(version, "__chiselstrike") || version.is_empty()) {
                let p = string_concat("/", version);
                let p = p.concat("/");
                let p = p.concat(topic);
                let ghost before = result@.map_values(|s: String| s@);
                result.push(p);
                assert(result@.map_values(|s: String| s@) =~= before.push(p@));
                assert(p@ =~= "/"@ + version@ + "/"@ + topic@);
            }
            i = i + 1;
        }
        assert(self.info.keys().take(entries@.len() as int) =~= self.info.keys());
        result
    }
}

} // verus!
