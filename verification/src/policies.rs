//! Authorization and data policies: which users may call which endpoints,
//! which headers a request must carry, and how labelled fields are treated.

use vstd::prelude::*;
use crate::pattern::{Pattern, spec_regex_is_match, spec_regex_compiles};
use crate::types::{Field, ObjectType};
use crate::prefix_map::{PrefixMap, longest_prefix_key};
use crate::text::{chars_eq, chars_of, str_eq, ascii_lowercase_chars, ascii_lower_seq};

verus! {

/// How a field's value is rewritten when read.
#[derive(Debug, Clone, Copy, PartialEq, Eq, Structural)]
pub enum Transformation {
    /// Replace the value with a fixed placeholder string.
    Anonymize,
}

/// Different kinds of policies.
#[derive(Debug, Clone, Copy, PartialEq, Eq, Structural)]
pub enum Kind {
    /// How this policy transforms values read from storage.
    Transform(Transformation),
    /// Field is of AuthUser type and must match the user currently logged in.
    MatchLogin,
    /// Field will not be in a query's resulting json object.
    Omit,
}

/// A policy attached to a label.
#[derive(Debug)]
pub struct Policy {
    pub kind: Kind,
    /// This policy doesn't apply when the request URI matches.
    pub except_uri: Pattern,
}

/// The value a secret holds: text, or some other JSON value.
#[derive(Debug, Clone)]
pub enum SecretValue {
    Text(String),
    Other,
}

/// The value stored under `name` in `secrets` (the first entry with that name).
pub open spec fn secret_lookup(secrets: Seq<(String, SecretValue)>, name: Seq<char>) -> Option<SecretValue>
    decreases secrets.len(),
{
    if secrets.len() == 0 {
        None
    } else if secrets[0].0@ == name {
        Some(secrets[0].1)
    } else {
        secret_lookup(secrets.drop_first(), name)
    }
}

/// The bytes of the first header whose (lower-case) name is `name`.
pub open spec fn header_lookup(headers: Seq<(String, Vec<u8>)>, name: Seq<char>) -> Option<Seq<u8>>
    decreases headers.len(),
{
    if headers.len() == 0 {
        None
    } else if headers[0].0@ == name {
        Some(headers[0].1@)
    } else {
        header_lookup(headers.drop_first(), name)
    }
}

/// A header value is readable as text when all its bytes are visible ASCII or tabs.
pub open spec fn visible_ascii(b: Seq<u8>) -> bool {
    forall|i: int| 0 <= i < b.len() ==> (b[i] == 9 || (32 <= #[trigger] b[i] && b[i] < 127))
}

/// The bytes, read as characters one by one, spell `s`.
pub open spec fn bytes_spell(b: Seq<u8>, s: Seq<char>) -> bool {
    b.len() == s.len() && forall|i: int| 0 <= i < b.len() ==> #[trigger] b[i] as int == s[i] as int
}

fn lookup_secret<'a>(secrets: &'a Vec<(String, SecretValue)>, name: &str) -> (r: Option<&'a SecretValue>)
    ensures
        match (r, secret_lookup(secrets@, name@)) {
            (None, None) => true,
            (Some(a), Some(b)) => *a == b,
            _ => false,
        },
{
    let mut i: usize = 0;
    assert(secrets@.skip(0) =~= secrets@);
    while i < secrets.len()
        invariant
            i <= secrets@.len(),
            secret_lookup(secrets@, name@) == secret_lookup(secrets@.skip(i as int), name@),
        decreases secrets@.len() - i,
    {
        if str_eq(secrets[i].0.as_str(), name) {
            return Some(&secrets[i].1);
        }
        assert(secrets@.skip(i as int).drop_first() =~= secrets@.skip(i + 1));
        i = i + 1;
    }
    None
}

fn lookup_header<'a>(headers: &'a Vec<(String, Vec<u8>)>, name: &Vec<char>) -> (r: Option<&'a Vec<u8>>)
    ensures
        match (r, header_lookup(headers@, name@)) {
            (None, None) => true,
            (Some(a), Some(b)) => a@ == b,
            _ => false,
        },
{
    let mut i: usize = 0;
    assert(headers@.skip(0) =~= headers@);
    while i < headers.len()
        invariant
            i <= headers@.len(),
            header_lookup(headers@, name@) == header_lookup(headers@.skip(i as int), name@),
        decreases headers@.len() - i,
    {
        let n = chars_of(headers[i].0.as_str());
        if chars_eq(&n, name) {
            return Some(&headers[i].1);
        }
        assert(headers@.skip(i as int).drop_first() =~= headers@.skip(i + 1));
        i = i + 1;
    }
    None
}

fn header_text_equals(b: &Vec<u8>, s: &str) -> (r: bool)
    ensures
        r == (visible_ascii(b@) && bytes_spell(b@, s@)),
{
    let mut i: usize = 0;
    while i < b.len()
        invariant
            i <= b.len(),
            forall|j: int| 0 <= j < i ==> (b@[j] == 9 || (32 <= #[trigger] b@[j] && b@[j] < 127)),
        decreases b.len() - i,
    {
        let x = b[i];
        if !(x == 9 || (32 <= x && x < 127)) {
            return false;
        }
        i = i + 1;
    }
    let cs = chars_of(s);
    if cs.len() != b.len() {
        return false;
    }
    let mut j: usize = 0;
    while j < b.len()
        invariant
            cs@ == s@,
            cs.len() == b.len(),
            j <= b.len(),
            visible_ascii(b@),
            forall|k: int| 0 <= k < j ==> #[trigger] b@[k] as int == cs@[k] as int,
        decreases b.len() - j,
    {
        let x: u8 = b[j];
        let c: char = cs[j];
        let xc: char = x as char;
        if xc != c {
            return false;
        }
        j = j + 1;
    }
    true
}

/// Who may call the endpoints under each path prefix: the user name must match the
/// regular expression of the longest matching prefix.
#[derive(Debug)]
pub struct UserAuthorization {
    paths: PrefixMap<Pattern>,
}

/// The user-authorization decision: allowed when no route prefix covers `path`;
/// otherwise only a logged-in user whose name matches that route's pattern.
pub open spec fn user_allowed(routes: Map<Seq<char>, Pattern>, username: Option<Seq<char>>, path: Seq<char>) -> bool {
    match longest_prefix_key(routes, path) {
        None => true,
        Some(k) => match username {
            None => false,
            Some(u) => spec_regex_is_match(routes[k]@, u),
        },
    }
}

impl UserAuthorization {
    pub closed spec fn wf(&self) -> bool {
        self.paths.wf()
    }

    /// The path prefixes and the pattern each requires.
    pub closed spec fn view(&self) -> Map<Seq<char>, Pattern> {
        self.paths@
    }

    /// No restrictions.
    pub fn new() -> (r: Self)
        ensures
            r.wf(),
            r@ == Map::<Seq<char>, Pattern>::empty(),
    {
        UserAuthorization { paths: PrefixMap::new() }
    }

    /// Is this username allowed to execute the endpoint at this path?
    pub fn is_allowed(&self, username: Option<&str>, path: &str) -> (r: bool)
        requires
            self.wf(),
        ensures
            r == user_allowed(self@, match username { Some(u) => Some(u@), None => None }, path@),
    {
        match self.paths.longest_prefix(path) {
            None => true,
            Some((_, u)) => match username {
                None => false,
                Some(username) => u.is_match(username),
            },
        }
    }

    /// Authorizes users matching `users` to execute any endpoint under this path.
    /// Longer paths override existing prefixes. Fails if this same path has already
    /// been added (the new pattern replaces the old one all the same).
    pub fn add(&mut self, path: &str, users: Pattern) -> (r: Result<(), String>)
        requires
            old(self).wf(),
        ensures
            final(self).wf(),
            final(self)@ == old(self)@.insert(path@, users),
            r is Err <==> old(self)@.contains_key(path@),
            r matches Err(m) ==> m@ == "Repeated path in user authorization: "@ + crate::migrate::spec_debug_quoted(path@),
    {
        match self.paths.insert(path.to_owned(), users) {
            Some(_) => {
                let q = crate::migrate::debug_quoted(path);
                Err(crate::text::string_concat("Repeated path in user authorization: ", q.as_str()))
            },
            None => Ok(()),
        }
    }
}

/// Describes a header that a request must include.
#[derive(Debug, Clone)]
pub struct RequiredHeader {
    pub header_name: String,
    /// Names a secret whose value must match the header value.
    pub secret_name: String,
    /// HTTP methods to which this requirement applies. If absent, apply to all methods.
    pub methods: Option<Vec<String>>,
}

/// The requirement does not cover requests made with `method`.
pub open spec fn method_exempt(h: RequiredHeader, method: Seq<char>) -> bool {
    match h.methods {
        Some(v) => !v@.map_values(|m: String| m@).contains(method),
        None => false,
    }
}

/// The secret-header decision for one requirement.
pub open spec fn header_satisfies(
    h: RequiredHeader,
    method: Seq<char>,
    headers: Seq<(String, Vec<u8>)>,
    secrets: Seq<(String, SecretValue)>,
) -> bool {
    if method_exempt(h, method) {
        true
    } else {
        match secret_lookup(secrets, h.secret_name@) {
            Some(SecretValue::Text(s)) => match header_lookup(headers, ascii_lower_seq(h.header_name@)) {
                Some(b) => visible_ascii(b) && bytes_spell(b, s@),
                None => false,
            },
            _ => false,
        }
    }
}

/// The secret-header decision: allowed when no route prefix covers `path`;
/// otherwise the longest matching route's requirement decides.
pub open spec fn secret_allowed(
    routes: Map<Seq<char>, RequiredHeader>,
    method: Seq<char>,
    headers: Seq<(String, Vec<u8>)>,
    secrets: Seq<(String, SecretValue)>,
    path: Seq<char>,
) -> bool {
    match longest_prefix_key(routes, path) {
        None => true,
        Some(k) => header_satisfies(routes[k], method, headers, secrets),
    }
}

/// Describes secret-based authorization. An endpoint request will only be allowed if it
/// includes the header that the longest matching path prefix requires.
#[derive(Debug, Clone)]
pub struct SecretAuthorization {
    paths: PrefixMap<RequiredHeader>,
}

fn method_listed(methods: &Vec<String>, method: &str) -> (r: bool)
    ensures
        r == methods@.map_values(|m: String| m@).contains(method@),
{
    let mut i: usize = 0;
    while i < methods.len()
        invariant
            i <= methods@.len(),
            forall|j: int| 0 <= j < i ==> methods@[j]@ != method@,
        decreases methods@.len() - i,
    {
        if str_eq(methods[i].as_str(), method) {
            assert(methods@.map_values(|m: String| m@)[i as int] == method@);
            return true;
        }
        i = i + 1;
    }
    false
}

impl SecretAuthorization {
    pub closed spec fn wf(&self) -> bool {
        self.paths.wf()
    }

    /// The path prefixes and the header each requires.
    pub closed spec fn view(&self) -> Map<Seq<char>, RequiredHeader> {
        self.paths@
    }

    /// No requirements.
    pub fn new() -> (r: Self)
        ensures
            r.wf(),
            r@ == Map::<Seq<char>, RequiredHeader>::empty(),
    {
        SecretAuthorization { paths: PrefixMap::new() }
    }

    /// Is a request with this method and these headers (names in lower case, values
    /// as raw bytes) allowed to execute the endpoint at this path, given the secrets?
    pub fn is_allowed(
        &self,
        method: &str,
        headers: &Vec<(String, Vec<u8>)>,
        secrets: &Vec<(String, SecretValue)>,
        path: &str,
    ) -> (r: bool)
        requires
            self.wf(),
        ensures
            r == secret_allowed(self@, method@, headers@, secrets@, path@),
    {
        match self.paths.longest_prefix(path) {
            None => true,
            Some((_, h)) => {
                if let Some(v) = &h.methods {
                    if !method_listed(v, method) {
                        return true;
                    }
                }
                let secret_value = match lookup_secret(secrets, h.secret_name.as_str()) {
                    None => return false,
                    Some(SecretValue::Text(s)) => s,
                    Some(SecretValue::Other) => return false,
                };
                let name = ascii_lowercase_chars(h.header_name.as_str());
                match lookup_header(headers, &name) {
                    Some(b) => header_text_equals(b, secret_value.as_str()),
                    None => false,
                }
            },
        }
    }

    /// Requires a header for every endpoint under this path. Longer paths override
    /// existing prefixes. Fails if this same path has already been added (the new
    /// requirement replaces the old one all the same).
    pub fn add(&mut self, path: &str, header: RequiredHeader) -> (r: Result<(), String>)
        requires
            old(self).wf(),
        ensures
            final(self).wf(),
            final(self)@ == old(self)@.insert(path@, header),
            r is Err <==> old(self)@.contains_key(path@),
            r matches Err(m) ==> m@ == "Repeated path in header authorization: "@ + path@,
    {
        match self.paths.insert(path.to_owned(), header) {
            Some(_) => Err(crate::text::string_concat("Repeated path in header authorization: ", path)),
            None => Ok(()),
        }
    }
}


/// The category of a policy kind.
#[derive(Debug, Clone, Copy, PartialEq, Eq, Structural)]
pub enum KindClass {
    Transform,
    MatchLogin,
    Omit,
}

pub open spec fn kind_class(k: Kind) -> KindClass {
    match k {
        Kind::Transform(_) => KindClass::Transform,
        Kind::MatchLogin => KindClass::MatchLogin,
        Kind::Omit => KindClass::Omit,
    }
}

/// The `j`-th label of field `f` names a policy of class `c` that applies on `path`
/// (its exception pattern does not match the path).
pub open spec fn label_hit(
    labels: Map<Seq<char>, (Kind, Seq<char>)>,
    path: Seq<char>,
    f: Field,
    j: int,
    c: KindClass,
) -> bool {
    &&& 0 <= j < f.labels@.len()
    &&& labels.contains_key(f.labels@[j]@)
    &&& !spec_regex_is_match(labels[f.labels@[j]@].1, path)
    &&& kind_class(labels[f.labels@[j]@].0) == c
}

/// Names of the fields (among the first `i` fields, and the first `j` labels of
/// field `i`) that some label of class `c` applies to.
pub open spec fn hit_names(
    labels: Map<Seq<char>, (Kind, Seq<char>)>,
    path: Seq<char>,
    fields: Seq<Field>,
    i: int,
    j: int,
    c: KindClass,
) -> Set<Seq<char>> {
    Set::new(|n: Seq<char>| exists|a: int, b: int|
        #![trigger fields[a], label_hit(labels, path, fields[a], b, c)]
        0 <= a < fields.len() && fields[a].name@ == n && label_hit(labels, path, fields[a], b, c)
            && (a < i || (a == i && b < j)))
}

/// Names of all fields of `ty` that a label of class `c` applies to on `path`.
pub open spec fn field_policy_names(
    labels: Map<Seq<char>, (Kind, Seq<char>)>,
    path: Seq<char>,
    ty: ObjectType,
    c: KindClass,
) -> Set<Seq<char>> {
    hit_names(labels, path, ty.user_fields@, ty.user_fields@.len() as int, 0, c)
}

/// The names held by a vector of strings.
pub open spec fn names_of(v: Seq<String>) -> Seq<Seq<char>> {
    v.map_values(|s: String| s@)
}

/// Per-field policies computed for one request.
#[derive(Debug, Clone)]
pub struct FieldPolicies {
    /// Maps a field name to the transformation applied to that field's values.
    pub transforms: Vec<(String, Transformation)>,
    /// Names of fields that must equal the currently logged-in user.
    pub match_login: Vec<String>,
    /// ID of the currently logged-in user.
    pub current_userid: Option<String>,
    /// Names of fields which will be excluded from query's resulting json object.
    pub omit: Vec<String>,
}

fn add_name(v: &mut Vec<String>, n: &String)
    requires
        names_of(old(v)@).no_duplicates(),
    ensures
        names_of(final(v)@).no_duplicates(),
        names_of(final(v)@).to_set() == names_of(old(v)@).to_set().insert(n@),
{
    let mut i: usize = 0;
    while i < v.len()
        invariant
            i <= v@.len(),
            v@ == old(v)@,
            names_of(v@).no_duplicates(),
            forall|k: int| 0 <= k < i ==> v@[k]@ != n@,
        decreases v@.len() - i,
    {
        if v[i] == *n {
            assert(names_of(v@)[i as int] == n@);
            assert(names_of(v@).to_set().contains(n@));
            assert(names_of(v@).to_set() =~= names_of(v@).to_set().insert(n@));
            return;
        }
        i = i + 1;
    }
    let ghost before = names_of(v@);
    proof {
        if before.contains(n@) {
            let k = choose|k: int| 0 <= k < before.len() && before[k] == n@;
            assert(v@[k]@ == n@);
        }
        crate::text::lemma_push_to_set(before, n@);
    }
    v.push(n.clone());
    assert(names_of(v@) =~= before.push(n@));
}

fn add_transform(v: &mut Vec<(String, Transformation)>, n: &String, t: Transformation)
    requires
        old(v)@.map_values(|e: (String, Transformation)| e.0@).no_duplicates(),
        forall|k: int| 0 <= k < old(v)@.len() ==> old(v)@[k].1 == t,
    ensures
        final(v)@.map_values(|e: (String, Transformation)| e.0@).no_duplicates(),
        final(v)@.map_values(|e: (String, Transformation)| e.0@).to_set()
            == old(v)@.map_values(|e: (String, Transformation)| e.0@).to_set().insert(n@),
        forall|k: int| 0 <= k < final(v)@.len() ==> final(v)@[k].1 == t,
{
    let ghost keys0 = v@.map_values(|e: (String, Transformation)| e.0@);
    let mut i: usize = 0;
    while i < v.len()
        invariant
            i <= v@.len(),
            v@ == old(v)@,
            keys0 == v@.map_values(|e: (String, Transformation)| e.0@),
            keys0.no_duplicates(),
            forall|k: int| 0 <= k < v@.len() ==> v@[k].1 == t,
            forall|k: int| 0 <= k < i ==> v@[k].0@ != n@,
        decreases v@.len() - i,
    {
        if v[i].0 == *n {
            assert(keys0[i as int] == n@);
            assert(keys0.to_set().contains(n@));
            assert(keys0.to_set() =~= keys0.to_set().insert(n@));
            return;
        }
        i = i + 1;
    }
    proof {
        if keys0.contains(n@) {
            let k = choose|k: int| 0 <= k < keys0.len() && keys0[k] == n@;
            assert(v@[k].0@ == n@);
        }
        crate::text::lemma_push_to_set(keys0, n@);
    }
    v.push((n.clone(), t));
    assert(v@.map_values(|e: (String, Transformation)| e.0@) =~= keys0.push(n@));
}

/// The labels of a policy system, each with its kind and exception pattern source.
pub open spec fn labels_view(m: Map<Seq<char>, Policy>) -> Map<Seq<char>, (Kind, Seq<char>)> {
    Map::new(|k: Seq<char>| m.contains_key(k), |k: Seq<char>| (m[k].kind, m[k].except_uri@))
}

/// Policies of a version: label policies and endpoint authorization.
#[derive(Debug)]
pub struct PolicySystem {
    /// Maps labels to their applicable policies.
    pub labels: PrefixMap<Policy>,
    pub user_authorization: UserAuthorization,
    pub secret_authorization: SecretAuthorization,
}

impl PolicySystem {
    pub open spec fn wf(&self) -> bool {
        self.labels.wf() && self.user_authorization.wf() && self.secret_authorization.wf()
    }

    /// No policies at all.
    pub fn new() -> (r: Self)
        ensures
            r.wf(),
            r.labels@ == Map::<Seq<char>, Policy>::empty(),
            r.user_authorization@ == Map::<Seq<char>, Pattern>::empty(),
            r.secret_authorization@ == Map::<Seq<char>, RequiredHeader>::empty(),
    {
        PolicySystem {
            labels: PrefixMap::new(),
            user_authorization: UserAuthorization::new(),
            secret_authorization: SecretAuthorization::new(),
        }
    }

    /// For fields of type `ty` computes the field policies that apply to a request
    /// for `current_path` made by `user_id`.
    pub fn make_field_policies(&self, user_id: &Option<String>, current_path: &str, ty: &ObjectType) -> (fp: FieldPolicies)
        requires
            self.wf(),
        ensures
            fp.current_userid == *user_id,
            names_of(fp.omit@).no_duplicates(),
            names_of(fp.omit@).to_set() == field_policy_names(labels_view(self.labels@), current_path@, *ty, KindClass::Omit),
            names_of(fp.match_login@).no_duplicates(),
            names_of(fp.match_login@).to_set() == field_policy_names(labels_view(self.labels@), current_path@, *ty, KindClass::MatchLogin),
            fp.transforms@.map_values(|e: (String, Transformation)| e.0@).no_duplicates(),
            fp.transforms@.map_values(|e: (String, Transformation)| e.0@).to_set()
                == field_policy_names(labels_view(self.labels@), current_path@, *ty, KindClass::Transform),
            forall|k: int| 0 <= k < fp.transforms@.len() ==> fp.transforms@[k].1 == Transformation::Anonymize,
    {
        let ghost lv = labels_view(self.labels@);
        let ghost fields = ty.user_fields@;
        let ghost path = current_path@;
        let mut transforms: Vec<(String, Transformation)> = Vec::new();
        let mut match_login: Vec<String> = Vec::new();
        let mut omit: Vec<String> = Vec::new();
        proof {
            assert(hit_names(lv, path, fields, 0, 0, KindClass::Omit) =~= Set::empty());
            assert(hit_names(lv, path, fields, 0, 0, KindClass::MatchLogin) =~= Set::empty());
            assert(hit_names(lv, path, fields, 0, 0, KindClass::Transform) =~= Set::empty());
            assert(names_of(omit@) =~= Seq::empty());
            assert(names_of(match_login@) =~= Seq::empty());
            assert(transforms@.map_values(|e: (String, Transformation)| e.0@) =~= Seq::empty());
        }
        let mut i: usize = 0;
        while i < ty.user_fields.len()
            invariant
                self.wf(),
                lv == labels_view(self.labels@),
                fields == ty.user_fields@,
                path == current_path@,
                i <= fields.len(),
                names_of(omit@).no_duplicates(),
                names_of(omit@).to_set() == hit_names(lv, path, fields, i as int, 0, KindClass::Omit),
                names_of(match_login@).no_duplicates(),
                names_of(match_login@).to_set() == hit_names(lv, path, fields, i as int, 0, KindClass::MatchLogin),
                transforms@.map_values(|e: (String, Transformation)| e.0@).no_duplicates(),
                transforms@.map_values(|e: (String, Transformation)| e.0@).to_set()
                    == hit_names(lv, path, fields, i as int, 0, KindClass::Transform),
                forall|k: int| 0 <= k < transforms@.len() ==> transforms@[k].1 == Transformation::Anonymize,
            decreases fields.len() - i,
        {
            let fld: &Field = &ty.user_fields[i];
            let mut j: usize = 0;
            proof {
                assert forall|c: KindClass| hit_names(lv, path, fields, i as int, 0, c)
                    =~= hit_names(lv, path, fields, i as int, j as int, c) by {}
            }
            while j < fld.labels.len()
                invariant
                    self.wf(),
                    lv == labels_view(self.labels@),
                    fields == ty.user_fields@,
                    path == current_path@,
                    i < fields.len(),
                    *fld == fields[i as int],
                    j <= fld.labels@.len(),
                    names_of(omit@).no_duplicates(),
                    names_of(omit@).to_set() == hit_names(lv, path, fields, i as int, j as int, KindClass::Omit),
                    names_of(match_login@).no_duplicates(),
                    names_of(match_login@).to_set() == hit_names(lv, path, fields, i as int, j as int, KindClass::MatchLogin),
                    transforms@.map_values(|e: (String, Transformation)| e.0@).no_duplicates(),
                    transforms@.map_values(|e: (String, Transformation)| e.0@).to_set()
                        == hit_names(lv, path, fields, i as int, j as int, KindClass::Transform),
                    forall|k: int| 0 <= k < transforms@.len() ==> transforms@[k].1 == Transformation::Anonymize,
                decreases fld.labels@.len() - j,
            {
                let lbl = &fld.labels[j];
                let ghost l = lbl@;
                let ghost applies = lv.contains_key(l) && !spec_regex_is_match(lv[l].1, path);
                let ghost cls = if lv.contains_key(l) { kind_class(lv[l].0) } else { KindClass::Omit };
                let ghost old_o = hit_names(lv, path, fields, i as int, j as int, KindClass::Omit);
                let ghost old_m = hit_names(lv, path, fields, i as int, j as int, KindClass::MatchLogin);
                let ghost old_t = hit_names(lv, path, fields, i as int, j as int, KindClass::Transform);
                if let Some(p) = self.labels.get(lbl.as_str()) {
                    if !p.except_uri.is_match(current_path) {
                        match p.kind {
                            Kind::Transform(_) => {
                                add_transform(&mut transforms, &fld.name, Transformation::Anonymize);
                            },
                            Kind::MatchLogin => {
                                add_name(&mut match_login, &fld.name);
                            },
                            Kind::Omit => {
                                add_name(&mut omit, &fld.name);
                            },
                        }
                    }
                }
                proof {
                    assert forall|c: KindClass| #![auto]
                        hit_names(lv, path, fields, i as int, j + 1, c) =~=
                        (if applies && cls == c { hit_names(lv, path, fields, i as int, j as int, c).insert(fld.name@) }
                         else { hit_names(lv, path, fields, i as int, j as int, c) }) by {
                        if applies && cls == c {
                            assert(label_hit(lv, path, fields[i as int], j as int, c));
                        }
                    }
                }
                j = j + 1;
            }
            proof {
                assert forall|c: KindClass| hit_names(lv, path, fields, i as int, fields[i as int].labels@.len() as int, c)
                    =~= hit_names(lv, path, fields, i + 1, 0, c) by {}
            }
            i = i + 1;
        }
        FieldPolicies { transforms, match_login, current_userid: user_id.clone(), omit }
    }
}

/// A character that may appear in an HTTP method token (as `http::Method` accepts it).
pub open spec fn is_method_char(c: char) -> bool {
    ||| ('0' <= c && c <= '9')
    ||| ('A' <= c && c <= 'Z')
    ||| ('a' <= c && c <= 'z')
    ||| c == '!' || c == '*' || c == '+' || c == '-' || c == '.'
    ||| c == '^' || c == '_' || c == '`' || c == '|' || c == '~'
}

/// Text that parses as an HTTP method: non-empty, made of method characters.
pub open spec fn is_method_token(s: Seq<char>) -> bool {
    s.len() > 0 && forall|i: int| 0 <= i < s.len() ==> is_method_char(#[trigger] s[i])
}

/// Parses `s` with `hyper::Method::from_str` and reports whether it succeeded.
/// Claims that parsing succeeds exactly on non-empty text made of the characters
/// of the method-character table in `http`'s source.
#[verifier::external_body]
fn http_method_parses(s: &str) -> (r: bool)
    ensures
        r == is_method_token(s@),
{
    <hyper::Method as std::str::FromStr>::from_str(s).is_ok()
}

/// Every listed name is a valid HTTP method.
pub open spec fn all_method_tokens(ms: Seq<String>) -> bool {
    forall|i: int| 0 <= i < ms.len() ==> is_method_token(#[trigger] ms[i]@)
}

/// Checks that every listed method name is a valid HTTP method.
pub fn parse_methods(v: Option<Vec<String>>) -> (r: Result<Option<Vec<String>>, String>)
    ensures
        v is None ==> r == Ok::<Option<Vec<String>>, String>(None),
        v matches Some(ms) ==> {
            &&& (r is Ok <==> all_method_tokens(ms@))
            &&& (r matches Ok(Some(out)) ==> out@ == ms@)
            &&& !(r matches Ok(None))
        },
{
    let ghost gv = v;
    match v {
        None => Ok(None),
        Some(ms) => {
            let mut i: usize = 0;
            while i < ms.len()
                invariant
                    gv == Some(ms),
                    gv == v,
                    i <= ms@.len(),
                    forall|k: int| 0 <= k < i ==> is_method_token(#[trigger] ms@[k]@),
                decreases ms@.len() - i,
            {
                if !http_method_parses(ms[i].as_str()) {
                    assert(!is_method_token(ms@[i as int]@));
                    return Err(crate::text::string_concat("Error parsing method ", ms[i].as_str()));
                }
                i = i + 1;
            }
            Ok(Some(ms))
        },
    }
}

/// A header requirement of a route in the policy file.
#[derive(Debug, Clone)]
pub struct MandatoryHeader {
    pub name: String,
    pub secret_value_ref: String,
    pub only_for_methods: Option<Vec<String>>,
}

/// A route of the policy file.
#[derive(Debug, Clone)]
pub struct Route {
    pub path: String,
    pub users: Option<String>,
    pub mandatory_header: Option<MandatoryHeader>,
}

/// A label of the policy file.
#[derive(Debug, Clone)]
pub struct Label {
    pub name: String,
    pub transform: Option<String>,
    pub except_uri: Option<String>,
}

/// The policy file, as parsed from YAML.
#[derive(Debug, Clone)]
pub struct YamlPolicies {
    pub routes: Option<Vec<Route>>,
    pub endpoints: Option<Vec<Route>>,
    pub labels: Option<Vec<Label>>,
}

/// The exception pattern of a label: the given one, or `^$` (match only the empty path).
pub open spec fn label_except_source(l: Label) -> Seq<char> {
    match l.except_uri {
        Some(p) => p@,
        None => "^$"@,
    }
}

/// Effect of one label of the policy file on the label table; `None` is a failure.
pub open spec fn label_step(acc: Map<Seq<char>, (Kind, Seq<char>)>, l: Label) -> Option<Map<Seq<char>, (Kind, Seq<char>)>> {
    let pat = label_except_source(l);
    if !spec_regex_compiles(pat) {
        None
    } else {
        match l.transform {
            None => Some(acc),
            Some(t) => if t@ == "anonymize"@ {
                Some(acc.insert(l.name@, (Kind::Transform(Transformation::Anonymize), pat)))
            } else if t@ == "omit"@ {
                Some(acc.insert(l.name@, (Kind::Omit, pat)))
            } else if t@ == "match_login"@ {
                Some(acc.insert(l.name@, (Kind::MatchLogin, pat)))
            } else {
                None
            },
        }
    }
}

/// The label table after processing `labels` in order, or `None` on failure.
pub open spec fn labels_fold(acc: Map<Seq<char>, (Kind, Seq<char>)>, labels: Seq<Label>) -> Option<Map<Seq<char>, (Kind, Seq<char>)>>
    decreases labels.len(),
{
    if labels.len() == 0 {
        Some(acc)
    } else {
        match label_step(acc, labels[0]) {
            None => None,
            Some(a) => labels_fold(a, labels.drop_first()),
        }
    }
}

/// A header requirement as plain values: header name, secret name, methods.
pub open spec fn header_view(h: RequiredHeader) -> (Seq<char>, Seq<char>, Option<Seq<Seq<char>>>) {
    (h.header_name@, h.secret_name@, match h.methods {
        Some(v) => Some(names_of(v@)),
        None => None,
    })
}

/// The pattern sources of a user-authorization table.
pub open spec fn user_patterns(m: Map<Seq<char>, Pattern>) -> Map<Seq<char>, Seq<char>> {
    Map::new(|k: Seq<char>| m.contains_key(k), |k: Seq<char>| m[k]@)
}

/// The requirements of a secret-authorization table, as plain values.
pub open spec fn header_requirements(m: Map<Seq<char>, RequiredHeader>) -> Map<Seq<char>, (Seq<char>, Seq<char>, Option<Seq<Seq<char>>>)> {
    Map::new(|k: Seq<char>| m.contains_key(k), |k: Seq<char>| header_view(m[k]))
}

pub type UserTable = Map<Seq<char>, Seq<char>>;
pub type HeaderTable = Map<Seq<char>, (Seq<char>, Seq<char>, Option<Seq<Seq<char>>>)>;

/// Effect of one route of the policy file on the two authorization tables.
pub open spec fn route_step(users: UserTable, headers: HeaderTable, r: Route) -> Option<(UserTable, HeaderTable)> {
    let users2: Option<UserTable> = match r.users {
        None => Some(users),
        Some(u) => if !spec_regex_compiles(u@) || users.contains_key(r.path@) {
            None
        } else {
            Some(users.insert(r.path@, u@))
        },
    };
    match users2 {
        None => None,
        Some(us) => match r.mandatory_header {
            None => Some((us, headers)),
            Some(h) => {
                let methods_ok = match h.only_for_methods {
                    None => true,
                    Some(ms) => all_method_tokens(ms@),
                };
                if !methods_ok || headers.contains_key(r.path@) {
                    None
                } else {
                    Some((us, headers.insert(r.path@, (h.name@, h.secret_value_ref@, match h.only_for_methods {
                        Some(ms) => Some(names_of(ms@)),
                        None => None,
                    }))))
                }
            },
        },
    }
}

/// The two authorization tables after processing `routes` in order, or `None` on failure.
pub open spec fn routes_fold(users: UserTable, headers: HeaderTable, routes: Seq<Route>) -> Option<(UserTable, HeaderTable)>
    decreases routes.len(),
{
    if routes.len() == 0 {
        Some((users, headers))
    } else {
        match route_step(users, headers, routes[0]) {
            None => None,
            Some((u, h)) => routes_fold(u, h, routes.drop_first()),
        }
    }
}

/// The routes a policy file declares: under `routes`, else under `endpoints`.
pub open spec fn yaml_routes(y: YamlPolicies) -> Seq<Route> {
    match y.routes {
        Some(r) => r@,
        None => match y.endpoints {
            Some(e) => e@,
            None => Seq::empty(),
        },
    }
}

pub open spec fn yaml_labels(y: YamlPolicies) -> Seq<Label> {
    match y.labels {
        Some(l) => l@,
        None => Seq::empty(),
    }
}

impl PolicySystem {
    /// Builds the policy system described by a parsed policy file.
    pub fn from_yaml_policies(parsed: YamlPolicies) -> (r: Result<PolicySystem, String>)
        ensures
            r is Ok <==> labels_fold(Map::empty(), yaml_labels(parsed)) is Some
                && routes_fold(Map::empty(), Map::empty(), yaml_routes(parsed)) is Some,
            r matches Ok(ps) ==> {
                &&& ps.wf()
                &&& Some(labels_view(ps.labels@)) == labels_fold(Map::empty(), yaml_labels(parsed))
                &&& Some((user_patterns(ps.user_authorization@), header_requirements(ps.secret_authorization@)))
                    == routes_fold(Map::empty(), Map::empty(), yaml_routes(parsed))
            },
    {
        let mut policies = PolicySystem::new();
        let labels: Vec<Label> = match parsed.labels {
            Some(l) => l,
            None => Vec::new(),
        };
        proof {
            assert(labels_view(policies.labels@) =~= Map::empty());
            assert(labels@ == yaml_labels(parsed));
        }
        let ghost all_labels = labels@;
        assert(all_labels.skip(0) =~= all_labels);
        for label in it: labels.into_iter()
            invariant
                it.seq() == all_labels,
                all_labels == yaml_labels(parsed),
                policies.wf(),
                labels_fold(Map::empty(), all_labels)
                    == labels_fold(labels_view(policies.labels@), all_labels.skip(it.index() as int)),
                policies.user_authorization@ == Map::<Seq<char>, Pattern>::empty(),
                policies.secret_authorization@ == Map::<Seq<char>, RequiredHeader>::empty(),
        {
            let ghost idx = it.index();
            let ghost acc = labels_view(policies.labels@);
            proof {
                assert(all_labels.skip(idx as int)[0] == label);
                assert(all_labels.skip(idx as int).drop_first() =~= all_labels.skip(idx + 1));
            }
            let except_uri = match &label.except_uri {
                Some(p) => Pattern::new(p.as_str()),
                None => Pattern::new("^$"),
            };
            let except_uri = match except_uri {
                Ok(p) => p,
                Err(e) => {
                    assert(label_step(acc, label) is None);
                    assert(labels_fold(acc, all_labels.skip(idx as int)) is None);
                    return Err(e);
                },
            };
            let Label { name, transform, except_uri: _ } = label;
            match transform {
                Some(t) => {
                    let kind = if str_eq(t.as_str(), "anonymize") {
                        Kind::Transform(Transformation::Anonymize)
                    } else if str_eq(t.as_str(), "omit") {
                        Kind::Omit
                    } else if str_eq(t.as_str(), "match_login") {
                        Kind::MatchLogin
                    } else {
                        assert(label_step(acc, label) is None);
                        assert(labels_fold(acc, all_labels.skip(idx as int)) is None);
                        let msg = crate::text::string_concat("unknown transform: ", t.as_str());
                        let msg = msg.concat(" for label ");
                        return Err(msg.concat(name.as_str()));
                    };
                    let ghost n = name@;
                    let _ = policies.labels.insert(name, Policy { kind, except_uri });
                    proof {
                        assert(labels_view(policies.labels@) =~= acc.insert(n, (kind, label_except_source(label))));
                    }
                },
                None => {},
            }
        }
        let routes: Vec<Route> = match parsed.routes {
            Some(r) => r,
            None => match parsed.endpoints {
                Some(e) => e,
                None => Vec::new(),
            },
        };
        let ghost all_routes = routes@;
        proof {
            assert(all_labels.skip(all_labels.len() as int) =~= Seq::<Label>::empty());
            assert(user_patterns(policies.user_authorization@) =~= Map::empty());
            assert(header_requirements(policies.secret_authorization@) =~= Map::empty());
            assert(all_routes == yaml_routes(parsed));
            assert(all_routes.skip(0) =~= all_routes);
        }
        for route in it: routes.into_iter()
            invariant
                it.seq() == all_routes,
                all_routes == yaml_routes(parsed),
                policies.wf(),
                Some(labels_view(policies.labels@)) == labels_fold(Map::empty(), yaml_labels(parsed)),
                routes_fold(Map::empty(), Map::empty(), all_routes)
                    == routes_fold(user_patterns(policies.user_authorization@),
                        header_requirements(policies.secret_authorization@), all_routes.skip(it.index() as int)),
        {
            let ghost idx = it.index();
            let ghost us = user_patterns(policies.user_authorization@);
            let ghost hs = header_requirements(policies.secret_authorization@);
            proof {
                assert(all_routes.skip(idx as int)[0] == route);
                assert(all_routes.skip(idx as int).drop_first() =~= all_routes.skip(idx + 1));
            }
            let Route { path, users, mandatory_header } = route;
            match users {
                Some(u) => {
                    let re = match Pattern::new(u.as_str()) {
                        Ok(p) => p,
                        Err(e) => {
                            assert(route_step(us, hs, route) is None);
                            assert(routes_fold(us, hs, all_routes.skip(idx as int)) is None);
                            return Err(e);
                        },
                    };
                    let added = policies.user_authorization.add(path.as_str(), re);
                    proof {
                        assert(user_patterns(policies.user_authorization@) =~= us.insert(path@, u@));
                    }
                    if let Err(e) = added {
                        assert(route_step(us, hs, route) is None);
                        assert(routes_fold(us, hs, all_routes.skip(idx as int)) is None);
                        return Err(e);
                    }
                },
                None => {},
            }
            match mandatory_header {
                Some(header) => {
                    let MandatoryHeader { name, secret_value_ref, only_for_methods } = header;
                    let ghost oms = only_for_methods;
                    let methods = match parse_methods(only_for_methods) {
                        Ok(m) => m,
                        Err(e) => {
                            assert(route_step(us, hs, route) is None);
                            assert(routes_fold(us, hs, all_routes.skip(idx as int)) is None);
                            return Err(e);
                        },
                    };
                    let ghost hs2 = header_requirements(policies.secret_authorization@);
                    let rh = RequiredHeader { header_name: name, secret_name: secret_value_ref, methods };
                    let ghost rhv = header_view(rh);
                    let added = policies.secret_authorization.add(path.as_str(), rh);
                    proof {
                        assert(header_requirements(policies.secret_authorization@) =~= hs2.insert(path@, rhv));
                    }
                    if let Err(e) = added {
                        assert(route_step(us, hs, route) is None);
                        assert(routes_fold(us, hs, all_routes.skip(idx as int)) is None);
                        return Err(e);
                    }
                },
                None => {},
            }
        }
        proof {
            assert(all_routes.skip(all_routes.len() as int) =~= Seq::<Route>::empty());
        }
        Ok(policies)
    }
}

/// Replaces any value with the fixed anonymized placeholder.
pub fn anonymize_text() -> (r: String)
    ensures
        r@ == "xxxxx"@,
{
    "xxxxx".to_owned()
}


/// The policy system of an apply's policy files `configs`, given `first`,
/// the first of them as parsed: no file gives the empty system and no text;
/// the first file gives the system it describes, with its text, unless it
/// does not parse or describe one; a second file is refused once the first
/// has been read.
pub fn policy_system_of_files(configs: &Vec<String>, first: Result<YamlPolicies, String>)
    -> (r: Result<(PolicySystem, String), String>)
    ensures
        if configs@.len() == 0 {
            r matches Ok((ps, text)) && {
                &&& ps.wf()
                &&& ps.labels@ == Map::<Seq<char>, Policy>::empty()
                &&& ps.user_authorization@ == Map::<Seq<char>, Pattern>::empty()
                &&& ps.secret_authorization@ == Map::<Seq<char>, RequiredHeader>::empty()
                &&& text@ == Seq::<char>::empty()
            }
        } else {
            match first {
            Err(e) => r matches Err(m) && m == e,
            Ok(doc) => if !(labels_fold(Map::empty(), yaml_labels(doc)) is Some
                && routes_fold(Map::empty(), Map::empty(), yaml_routes(doc)) is Some) {
                r is Err
            } else if configs@.len() > 1 {
                r matches Err(m) && m@ == "Currently only one policy file is supported"@
            } else {
                r matches Ok((ps, text)) && {
                    &&& text@ == configs@[0]@
                    &&& ps.wf()
                    &&& Some(labels_view(ps.labels@)) == labels_fold(Map::empty(), yaml_labels(doc))
                    &&& Some((user_patterns(ps.user_authorization@), header_requirements(ps.secret_authorization@)))
                        == routes_fold(Map::empty(), Map::empty(), yaml_routes(doc))
                }
            },
            }
        },
{
    if configs.len() == 0 {
        return Ok((PolicySystem::new(), String::new()));
    }
    let doc = match first {
        Err(e) => return Err(e),
        Ok(d) => d,
    };
    let ps = match PolicySystem::from_yaml_policies(doc) {
        Err(e) => return Err(e),
        Ok(ps) => ps,
    };
    if configs.len() > 1 {
        return Err("Currently only one policy file is supported".to_owned());
    }
    Ok((ps, configs[0].clone()))
}

} // verus!
