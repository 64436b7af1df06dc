//! A map from path keys to values that answers "which key is the longest
//! path prefix of this request path?".

use vstd::prelude::*;
use crate::text::chars_of;

verus! {

/// `needle` is a path prefix of `haystack`: `haystack` starts with `needle`, and
/// the match ends at a path-segment boundary (the needle ends with `/`, or the
/// haystack ends right after the needle, or continues with `/`).
pub open spec fn is_path_prefix(needle: Seq<char>, haystack: Seq<char>) -> bool {
    &&& needle.len() <= haystack.len()
    &&& haystack.subrange(0, needle.len() as int) == needle
    &&& {
        ||| (needle.len() > 0 && needle.last() == '/')
        ||| haystack.len() == needle.len()
        ||| haystack[needle.len() as int] == '/'
    }
}

/// Strict lexicographic order on character sequences (by code point), the order
/// in which keys are kept and listed.
pub open spec fn key_lt(a: Seq<char>, b: Seq<char>) -> bool
    decreases a.len(),
{
    if b.len() == 0 {
        false
    } else if a.len() == 0 {
        true
    } else if (a[0] as int) < (b[0] as int) {
        true
    } else if a[0] == b[0] {
        key_lt(a.drop_first(), b.drop_first())
    } else {
        false
    }
}

pub proof fn lemma_key_lt_irreflexive(a: Seq<char>)
    ensures
        !key_lt(a, a),
    decreases a.len(),
{
    if a.len() > 0 {
        lemma_key_lt_irreflexive(a.drop_first());
    }
}

pub proof fn lemma_key_lt_transitive(a: Seq<char>, b: Seq<char>, c: Seq<char>)
    requires
        key_lt(a, b),
        key_lt(b, c),
    ensures
        key_lt(a, c),
    decreases a.len(),
{
    if a.len() > 0 && b.len() > 0 && c.len() > 0 && a[0] == b[0] && b[0] == c[0] {
        lemma_key_lt_transitive(a.drop_first(), b.drop_first(), c.drop_first());
    }
}

pub proof fn lemma_key_lt_total(a: Seq<char>, b: Seq<char>)
    ensures
        a != b ==> (key_lt(a, b) || key_lt(b, a)),
    decreases a.len(),
{
    if a.len() > 0 && b.len() > 0 && a[0] == b[0] {
        lemma_key_lt_total(a.drop_first(), b.drop_first());
        if a.drop_first() == b.drop_first() {
            assert(a =~= seq![a[0]] + a.drop_first());
            assert(b =~= seq![b[0]] + b.drop_first());
        }
    } else if a.len() == 0 && b.len() == 0 {
        assert(a =~= b);
    }
}

/// `is_path_prefix` on character vectors.
pub fn is_path_prefix_chars(needle: &Vec<char>, haystack: &Vec<char>) -> (r: bool)
    ensures
        r == is_path_prefix(needle@, haystack@),
{
    if needle.len() > haystack.len() {
        return false;
    }
    let mut i: usize = 0;
    while i < needle.len()
        invariant
            needle.len() <= haystack.len(),
            i <= needle.len(),
            forall|j: int| 0 <= j < i ==> needle@[j] == haystack@[j],
        decreases needle.len() - i,
    {
        if needle[i] != haystack[i] {
            assert(haystack@.subrange(0, needle.len() as int)[i as int] != needle@[i as int]);
            return false;
        }
        i = i + 1;
    }
    assert(haystack@.subrange(0, needle.len() as int) =~= needle@);
    (needle.len() > 0 && needle[needle.len() - 1] == '/') || haystack.len() == needle.len()
        || haystack[needle.len()] == '/'
}

/// Whether `path_prefix` (a string) is a path prefix of `path`.
pub fn is_path_prefix_str(needle: &str, haystack: &str) -> (r: bool)
    ensures
        r == is_path_prefix(needle@, haystack@),
{
    let n = chars_of(needle);
    let h = chars_of(haystack);
    is_path_prefix_chars(&n, &h)
}

/// `key_lt` on character vectors.
pub fn key_lt_chars(a: &Vec<char>, b: &Vec<char>) -> (r: bool)
    ensures
        r == key_lt(a@, b@),
{
    let mut i: usize = 0;
    assert(a@.skip(0) =~= a@);
    assert(b@.skip(0) =~= b@);
    while i < a.len() && i < b.len()
        invariant
            i <= a.len(),
            i <= b.len(),
            a@.subrange(0, i as int) == b@.subrange(0, i as int),
            key_lt(a@, b@) == key_lt(a@.skip(i as int), b@.skip(i as int)),
        decreases a.len() - i,
    {
        let ca = a[i];
        let cb = b[i];
        if ca < cb {
            return true;
        }
        if ca != cb {
            return false;
        }
        assert(a@.skip(i as int).drop_first() =~= a@.skip(i + 1));
        assert(b@.skip(i as int).drop_first() =~= b@.skip(i + 1));
        assert(a@.subrange(0, i + 1) =~= a@.subrange(0, i as int).push(ca));
        assert(b@.subrange(0, i + 1) =~= b@.subrange(0, i as int).push(cb));
        i = i + 1;
    }
    i < b.len()
}


/// Keys strictly increasing in `key_lt` order.
pub open spec fn strictly_sorted(keys: Seq<Seq<char>>) -> bool {
    forall|i: int, j: int| 0 <= i < j < keys.len() ==> key_lt(#[trigger] keys[i], #[trigger] keys[j])
}

/// `k` is the longest key of `m` that is a path prefix of `path`.
pub open spec fn is_longest_prefix_key<T>(m: Map<Seq<char>, T>, path: Seq<char>, k: Seq<char>) -> bool {
    &&& m.contains_key(k)
    &&& is_path_prefix(k, path)
    &&& forall|k2: Seq<char>| #[trigger] m.contains_key(k2) && is_path_prefix(k2, path) ==> k2.len() <= k.len()
}

/// Some key of `m` is a path prefix of `path`.
pub open spec fn has_prefix_key<T>(m: Map<Seq<char>, T>, path: Seq<char>) -> bool {
    exists|k: Seq<char>| #[trigger] m.contains_key(k) && is_path_prefix(k, path)
}

/// The longest key of `m` that is a path prefix of `path`, if any.
pub open spec fn longest_prefix_key<T>(m: Map<Seq<char>, T>, path: Seq<char>) -> Option<Seq<char>> {
    if has_prefix_key(m, path) {
        Some(choose|k: Seq<char>| is_longest_prefix_key(m, path, k))
    } else {
        None
    }
}

/// Every key is a path prefix of itself.
pub proof fn lemma_path_prefix_reflexive(k: Seq<char>)
    ensures
        is_path_prefix(k, k),
{
    assert(k.subrange(0, k.len() as int) =~= k);
}

/// Two keys of the same length that are path prefixes of one path are equal.
pub proof fn lemma_path_prefix_same_len(k1: Seq<char>, k2: Seq<char>, path: Seq<char>)
    requires
        is_path_prefix(k1, path),
        is_path_prefix(k2, path),
        k1.len() == k2.len(),
    ensures
        k1 == k2,
{
}

/// The longest prefix key is unique: any two keys that are each longest are equal.
pub proof fn lemma_longest_prefix_key_unique<T>(m: Map<Seq<char>, T>, path: Seq<char>, k1: Seq<char>, k2: Seq<char>)
    requires
        is_longest_prefix_key(m, path, k1),
        is_longest_prefix_key(m, path, k2),
    ensures
        k1 == k2,
{
    lemma_path_prefix_same_len(k1, k2, path);
}

proof fn lemma_longest_exists_below<T>(m: Map<Seq<char>, T>, path: Seq<char>, n: nat)
    requires
        n <= path.len(),
        has_prefix_key(m, path),
        forall|k: Seq<char>| #[trigger] m.contains_key(k) && is_path_prefix(k, path) ==> k.len() <= n,
    ensures
        exists|k: Seq<char>| is_longest_prefix_key(m, path, k),
    decreases n,
{
    let c = path.subrange(0, n as int);
    if m.contains_key(c) && is_path_prefix(c, path) {
        assert(is_longest_prefix_key(m, path, c));
    } else {
        let w = choose|k: Seq<char>| #[trigger] m.contains_key(k) && is_path_prefix(k, path);
        if w.len() == n {
            assert(w =~= c);
        }
        assert forall|k: Seq<char>| #[trigger] m.contains_key(k) && is_path_prefix(k, path) implies k.len() <= (n - 1) as nat by {
            if k.len() == n {
                assert(k =~= c);
            }
        }
        lemma_longest_exists_below(m, path, (n - 1) as nat);
    }
}

/// When some key is a path prefix of `path`, the longest one is what
/// `longest_prefix_key` names, and it satisfies `is_longest_prefix_key`.
pub proof fn lemma_longest_prefix_key_spec<T>(m: Map<Seq<char>, T>, path: Seq<char>)
    ensures
        longest_prefix_key(m, path) is None <==> !has_prefix_key(m, path),
        longest_prefix_key(m, path) matches Some(k) ==> is_longest_prefix_key(m, path, k),
{
    if has_prefix_key(m, path) {
        lemma_longest_exists_below(m, path, path.len());
    }
}

/// A key that is longest is the one `longest_prefix_key` names.
pub proof fn lemma_longest_prefix_key_is<T>(m: Map<Seq<char>, T>, path: Seq<char>, k: Seq<char>)
    requires
        is_longest_prefix_key(m, path, k),
    ensures
        longest_prefix_key(m, path) == Some(k),
{
    lemma_longest_prefix_key_spec(m, path);
    let c = choose|k2: Seq<char>| is_longest_prefix_key(m, path, k2);
    lemma_longest_prefix_key_unique(m, path, k, c);
}

/// A map from string keys to values, kept in key order.
#[derive(Debug, Clone)]
pub struct PrefixMap<T> {
    entries: Vec<(String, T)>,
}

impl<T> PrefixMap<T> {
    /// The keys, in the order the map keeps and lists them.
    pub closed spec fn keys(&self) -> Seq<Seq<char>> {
        self.entries@.map_values(|e: (String, T)| e.0@)
    }

    /// The map is well formed: its keys are strictly increasing.
    pub closed spec fn wf(&self) -> bool {
        strictly_sorted(self.keys())
    }

    /// The contents of the map.
    pub closed spec fn view(&self) -> Map<Seq<char>, T> {
        Map::new(
            |k: Seq<char>| self.keys().contains(k),
            |k: Seq<char>| self.entries@[self.keys().index_of(k)].1,
        )
    }

    proof fn lemma_view_at(&self, i: int)
        requires
            self.wf(),
            0 <= i < self.entries@.len(),
        ensures
            self@.contains_key(self.entries@[i].0@),
            self@[self.entries@[i].0@] == self.entries@[i].1,
            self.keys()[i] == self.entries@[i].0@,
    {
        let k = self.entries@[i].0@;
        assert(self.keys()[i] == k);
        let j = self.keys().index_of(k);
        if j != i {
            if j < i {
                assert(key_lt(self.keys()[j], self.keys()[i]));
            } else {
                assert(key_lt(self.keys()[i], self.keys()[j]));
            }
            lemma_key_lt_irreflexive(k);
        }
    }

    /// The keys are well ordered and exactly the domain of the view.
    pub proof fn lemma_keys_domain(&self)
        requires
            self.wf(),
        ensures
            strictly_sorted(self.keys()),
            self.keys().to_set() == self@.dom(),
            self.keys().len() == self@.dom().len(),
            self.keys().no_duplicates(),
    {
        assert(self.keys().to_set() =~= self@.dom());
        assert forall|i: int, j: int| 0 <= i < self.keys().len() && 0 <= j < self.keys().len() && i != j
            implies self.keys()[i] != self.keys()[j] by {
            if i < j {
                assert(key_lt(self.keys()[i], self.keys()[j]));
            } else {
                assert(key_lt(self.keys()[j], self.keys()[i]));
            }
            lemma_key_lt_irreflexive(self.keys()[i]);
        }
        self.keys().unique_seq_to_set();
    }

    /// An empty map.
    pub fn new() -> (m: Self)
        ensures
            m.wf(),
            m@ == Map::<Seq<char>, T>::empty(),
    {
        let m = PrefixMap { entries: Vec::new() };
        assert(m@ =~= Map::<Seq<char>, T>::empty());
        m
    }

    /// Returns the longest map entry whose key is a path prefix of `path`, if one exists.
    pub fn longest_prefix(&self, path: &str) -> (r: Option<(&str, &T)>)
        requires
            self.wf(),
        ensures
            r is None <==> !has_prefix_key(self@, path@),
            r is None <==> longest_prefix_key(self@, path@) is None,
            r matches Some((k, v)) ==> is_longest_prefix_key(self@, path@, k@) && *v == self@[k@]
                && longest_prefix_key(self@, path@) == Some(k@),
    {
        let p = chars_of(path);
        let mut best: Option<usize> = None;
        let mut i: usize = 0;
        while i < self.entries.len()
            invariant
                self.wf(),
                p@ == path@,
                i <= self.entries@.len(),
                best matches Some(b) ==> b < i && is_path_prefix(self.keys()[b as int], path@),
                forall|j: int| 0 <= j < i && is_path_prefix(#[trigger] self.keys()[j], path@)
                    ==> best is Some && self.keys()[j].len() <= self.keys()[best->0 as int].len(),
            decreases self.entries@.len() - i,
        {
            let k = chars_of(self.entries[i].0.as_str());
            assert(self.keys()[i as int] == k@);
            if is_path_prefix_chars(&k, &p) {
                match best {
                    None => {
                        best = Some(i);
                    },
                    Some(b) => {
                        let kb = chars_of(self.entries[b].0.as_str());
                        assert(self.keys()[b as int] == kb@);
                        if k.len() >= kb.len() {
                            best = Some(i);
                        }
                    },
                }
            }
            i = i + 1;
        }
        proof { lemma_longest_prefix_key_spec(self@, path@); }
        match best {
            None => {
                assert forall|k2: Seq<char>| #[trigger] self@.contains_key(k2) implies !is_path_prefix(k2, path@) by {
                    let j = self.keys().index_of(k2);
                    assert(self.keys()[j] == k2);
                }
                None
            },
            Some(b) => {
                proof {
                    self.lemma_view_at(b as int);
                    assert forall|k2: Seq<char>| #[trigger] self@.contains_key(k2) && is_path_prefix(k2, path@)
                        implies k2.len() <= self.keys()[b as int].len() by {
                        let j = self.keys().index_of(k2);
                        assert(self.keys()[j] == k2);
                    }
                    lemma_longest_prefix_key_is(self@, path@, self.keys()[b as int]);
                }
                Some((self.entries[b].0.as_str(), &self.entries[b].1))
            },
        }
    }

    /// Inserts `v` under `k`, returning the value previously stored under `k`, if any.
    pub fn insert(&mut self, k: String, v: T) -> (r: Option<T>)
        requires
            old(self).wf(),
        ensures
            final(self).wf(),
            final(self)@ == old(self)@.insert(k@, v),
            r is Some <==> old(self)@.contains_key(k@),
            r matches Some(o) ==> o == old(self)@[k@],
    {
        let kc = chars_of(k.as_str());
        let mut i: usize = 0;
        while i < self.entries.len()
            invariant
                self.wf(),
                kc@ == k@,
                i <= self.entries@.len(),
                forall|j: int| 0 <= j < i ==> key_lt(#[trigger] self.keys()[j], k@),
            ensures
                i <= self.entries@.len(),
                forall|j: int| 0 <= j < i ==> key_lt(#[trigger] self.keys()[j], k@),
                i < self.entries@.len() ==> !key_lt(self.keys()[i as int], k@),
            decreases self.entries@.len() - i,
        {
            let ei = chars_of(self.entries[i].0.as_str());
            assert(self.keys()[i as int] == ei@);
            if !key_lt_chars(&ei, &kc) {
                break;
            }
            i = i + 1;
        }
        let ghost old_map = self@;
        let ghost old_keys = self.keys();
        if i < self.entries.len() && self.entries[i].0 == k {
            proof { self.lemma_view_at(i as int); }
            let (_, old_v) = self.entries.remove(i);
            self.entries.insert(i, (k, v));
            proof {
                assert(self.keys() =~= old_keys);
                assert forall|k2: Seq<char>| #![auto] self@.contains_key(k2) implies self@[k2] == old_map.insert(k@, v)[k2] by {
                    let j = self.keys().index_of(k2);
                    self.lemma_view_at(j);
                    if j != i {
                        assert(self.entries@[j] == old(self).entries@[j]);
                        old(self).lemma_view_at(j);
                    }
                }
                assert(self@ =~= old_map.insert(k@, v));
            }
            Some(old_v)
        } else {
            proof {
                if i < self.entries@.len() {
                    lemma_key_lt_total(self.keys()[i as int], k@);
                    assert(key_lt(k@, self.keys()[i as int]));
                }
                assert(!old_map.contains_key(k@)) by {
                    if old_map.contains_key(k@) {
                        let j = old_keys.index_of(k@);
                        if j < i {
                            lemma_key_lt_irreflexive(k@);
                        } else {
                            if j > i {
                                assert(key_lt(old_keys[i as int], old_keys[j]));
                                lemma_key_lt_transitive(k@, old_keys[i as int], old_keys[j]);
                            }
                            lemma_key_lt_irreflexive(k@);
                        }
                    }
                }
            }
            self.entries.insert(i, (k, v));
            proof {
                assert(self.keys() =~= old_keys.insert(i as int, k@));
                assert forall|a: int, b: int| 0 <= a < b < self.keys().len()
                    implies key_lt(#[trigger] self.keys()[a], #[trigger] self.keys()[b]) by {
                    if b < i {
                    } else if a < i && b == i {
                    } else if a < i && b > i {
                        assert(key_lt(old_keys[a], k@));
                        if b - 1 > i {
                            assert(key_lt(old_keys[i as int], old_keys[b - 1]));
                            lemma_key_lt_transitive(k@, old_keys[i as int], old_keys[b - 1]);
                        }
                        lemma_key_lt_transitive(old_keys[a], k@, old_keys[b - 1]);
                    } else if a == i {
                        if b - 1 > i {
                            assert(key_lt(old_keys[i as int], old_keys[b - 1]));
                            lemma_key_lt_transitive(k@, old_keys[i as int], old_keys[b - 1]);
                        }
                    } else {
                        assert(key_lt(old_keys[a - 1], old_keys[b - 1]));
                    }
                }
                assert forall|k2: Seq<char>| #![auto] self@.contains_key(k2) implies self@[k2] == old_map.insert(k@, v)[k2] by {
                    let j = self.keys().index_of(k2);
                    self.lemma_view_at(j);
                    if j < i {
                        assert(self.entries@[j] == old(self).entries@[j]);
                        old(self).lemma_view_at(j);
                    } else if j > i {
                        assert(self.entries@[j] == old(self).entries@[j - 1]);
                        old(self).lemma_view_at(j - 1);
                    }
                }
                assert forall|k2: Seq<char>| #![auto] old_map.insert(k@, v).contains_key(k2) implies self@.contains_key(k2) by {
                    if k2 != k@ {
                        let j = old_keys.index_of(k2);
                        if j < i {
                            assert(self.keys()[j] == k2);
                        } else {
                            assert(self.keys()[j + 1] == k2);
                        }
                    } else {
                        assert(self.keys()[i as int] == k2);
                    }
                }
                assert(self@ =~= old_map.insert(k@, v));
            }
            None
        }
    }

    /// Removes every entry whose key has `prefix` as a path prefix.
    pub fn remove_prefix(&mut self, prefix: &str)
        requires
            old(self).wf(),
        ensures
            final(self).wf(),
            final(self)@ == without_prefix(old(self)@, prefix@),
    {
        let p = chars_of(prefix);
        let mut old_entries: Vec<(String, T)> = Vec::new();
        std::mem::swap(&mut old_entries, &mut self.entries);
        let ghost old_keys = old_entries@.map_values(|e: (String, T)| e.0@);
        let ghost old_es = old_entries@;
        let mut kept: Vec<(String, T)> = Vec::new();
        let ghost mut src: Seq<int> = Seq::empty();
        proof {
            assert(old_keys == old(self).keys());
        }
        for e in it: old_entries.into_iter()
            invariant
                p@ == prefix@,
                it.seq() == old_es,
                strictly_sorted(old_keys),
                old_keys == old_es.map_values(|e: (String, T)| e.0@),
                src.len() == kept@.len(),
                forall|a: int| 0 <= a < src.len() ==> 0 <= #[trigger] src[a] < it.index(),
                forall|a: int, b: int| 0 <= a < b < src.len() ==> #[trigger] src[a] < #[trigger] src[b],
                forall|a: int| 0 <= a < src.len() ==> kept@[a] == old_es[#[trigger] src[a]],
                forall|a: int| 0 <= a < src.len() ==> !is_path_prefix(prefix@, old_keys[#[trigger] src[a]]),
                forall|j: int| 0 <= j < it.index() && !is_path_prefix(prefix@, #[trigger] old_keys[j])
                    ==> exists|a: int| 0 <= a < src.len() && src[a] == j,
        {
            let ghost j = it.index();
            let ghost src0 = src;
            let kc = chars_of(e.0.as_str());
            assert(old_keys[j] == kc@);
            if !is_path_prefix_chars(&p, &kc) {
                proof {
                    src = src.push(j);
                }
                kept.push(e);
            }
            proof {
                assert forall|j2: int| 0 <= j2 < j + 1 && !is_path_prefix(prefix@, #[trigger] old_keys[j2])
                    implies exists|a: int| 0 <= a < src.len() && src[a] == j2 by {
                    if j2 == j {
                        assert(src[src.len() - 1] == j);
                    } else {
                        let a = choose|a: int| 0 <= a < src0.len() && src0[a] == j2;
                        assert(src[a] == src0[a]);
                    }
                }
            }
        }
        self.entries = kept;
        proof {
            assert forall|a: int, b: int| 0 <= a < b < self.keys().len()
                implies key_lt(#[trigger] self.keys()[a], #[trigger] self.keys()[b]) by {
                assert(self.keys()[a] == old_keys[src[a]]);
                assert(self.keys()[b] == old_keys[src[b]]);
            }
            let om = old(self)@;
            assert forall|k: Seq<char>| #![auto] self@.contains_key(k) <==> without_prefix(om, prefix@).contains_key(k) by {
                if self@.contains_key(k) {
                    let a = self.keys().index_of(k);
                    assert(self.keys()[a] == old_keys[src[a]]);
                    assert(old(self).keys()[src[a]] == k);
                }
                if without_prefix(om, prefix@).contains_key(k) {
                    let j = old(self).keys().index_of(k);
                    assert(old_keys[j] == k);
                    let a = choose|a: int| 0 <= a < src.len() && src[a] == j;
                    assert(self.keys()[a] == k);
                }
            }
            assert forall|k: Seq<char>| #![auto] self@.contains_key(k) implies self@[k] == om[k] by {
                let a = self.keys().index_of(k);
                self.lemma_view_at(a);
                old(self).lemma_view_at(src[a]);
            }
            assert(self@ =~= without_prefix(om, prefix@));
        }
    }

    /// The value stored under `k`, if any.
    pub fn get(&self, k: &str) -> (r: Option<&T>)
        requires
            self.wf(),
        ensures
            r is Some <==> self@.contains_key(k@),
            r matches Some(v) ==> *v == self@[k@],
    {
        let mut i: usize = 0;
        while i < self.entries.len()
            invariant
                self.wf(),
                i <= self.entries@.len(),
                forall|j: int| 0 <= j < i ==> self.keys()[j] != k@,
            decreases self.entries@.len() - i,
        {
            proof { self.lemma_view_at(i as int); }
            if crate::text::str_eq(self.entries[i].0.as_str(), k) {
                return Some(&self.entries[i].1);
            }
            i = i + 1;
        }
        proof {
            if self@.contains_key(k@) {
                let j = self.keys().index_of(k@);
                assert(self.keys()[j] == k@);
            }
        }
        None
    }

    /// The number of entries.
    pub fn len(&self) -> (r: usize)
        requires
            self.wf(),
        ensures
            r == self@.dom().len(),
    {
        proof { self.lemma_keys_domain(); }
        self.entries.len()
    }

    /// The entries in key order, as pairs of key and value.
    pub fn iter(&self) -> (r: Vec<(&str, &T)>)
        requires
            self.wf(),
        ensures
            r@.len() == self.keys().len(),
            forall|i: int| 0 <= i < r@.len() ==> (#[trigger] r@[i]).0@ == self.keys()[i]
                && *r@[i].1 == self@[self.keys()[i]],
    {
        let mut r: Vec<(&str, &T)> = Vec::new();
        let mut i: usize = 0;
        while i < self.entries.len()
            invariant
                self.wf(),
                i <= self.entries@.len(),
                r@.len() == i,
                forall|j: int| 0 <= j < i ==> (#[trigger] r@[j]).0@ == self.keys()[j]
                    && *r@[j].1 == self@[self.keys()[j]],
            decreases self.entries@.len() - i,
        {
            proof { self.lemma_view_at(i as int); }
            r.push((self.entries[i].0.as_str(), &self.entries[i].1));
            i = i + 1;
        }
        r
    }
}

/// `m` without the entries whose key has `prefix` as a path prefix.
pub open spec fn without_prefix<T>(m: Map<Seq<char>, T>, prefix: Seq<char>) -> Map<Seq<char>, T> {
    Map::new(|k: Seq<char>| m.contains_key(k) && !is_path_prefix(prefix, k), |k: Seq<char>| m[k])
}

} // verus!