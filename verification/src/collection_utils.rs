//! Lookups in tables keyed by filesystem paths, where one path starts
//! another when its components begin the other's components.

use vstd::prelude::*;
use crate::crud::{split_seq, split_chars};
use crate::text::{chars_of, str_eq};

verus! {

/// The segments of a path that are components: the non-empty ones, with a
/// `.` kept only as the first segment.
pub open spec fn kept_segments(segs: Seq<Seq<char>>) -> Seq<Seq<char>>
    decreases segs.len(),
{
    if segs.len() == 0 {
        Seq::empty()
    } else {
        let prev = kept_segments(segs.drop_last());
        let x = segs.last();
        if x.len() > 0 && (x != "."@ || segs.len() == 1) {
            prev.push(x)
        } else {
            prev
        }
    }
}

/// The components of a Unix path: `/` for a root, then the text between
/// slashes, with repeated and trailing slashes, and `.` anywhere but at the
/// start, normalized away.
pub open spec fn path_components(p: Seq<char>) -> Seq<Seq<char>> {
    (if p.len() > 0 && p[0] == '/' { seq!["/"@] } else { Seq::empty() }) + kept_segments(split_seq(p, '/'))
}

/// Whether the path `k` starts the path `p`: its components begin `p`'s.
pub open spec fn starts_with_path(p: Seq<char>, k: Seq<char>) -> bool {
    path_components(k).is_prefix_of(path_components(p))
}

/// Whether entry `i` of `tree` is the one a lookup of `path` finds: its key
/// starts `path`, no such key has more components, and every such key
/// before it has fewer.
pub open spec fn is_longest_entry<V>(tree: Seq<(String, V)>, path: Seq<char>, i: int) -> bool {
    &&& 0 <= i < tree.len()
    &&& starts_with_path(path, tree[i].0@)
    &&& forall|j: int| 0 <= j < tree.len() && starts_with_path(path, (#[trigger] tree[j]).0@)
            ==> path_components(tree[j].0@).len() <= path_components(tree[i].0@).len()
    &&& forall|j: int| 0 <= j < i && starts_with_path(path, (#[trigger] tree[j]).0@)
            ==> path_components(tree[j].0@).len() < path_components(tree[i].0@).len()
}

/// The components of the path `p`.
pub fn components_of(p: &str) -> (r: Vec<String>)
    ensures
        r@.map_values(|x: String| x@) == path_components(p@),
{
    let segs = split_chars(p, '/');
    let ghost sv = segs@.map_values(|x: String| x@);
    let cs = chars_of(p);
    let mut out: Vec<String> = Vec::new();
    let rooted = cs.len() > 0 && cs[0] == '/';
    if rooted {
        out.push("/".to_owned());
    }
    let ghost root: Seq<Seq<char>> = if p@.len() > 0 && p@[0] == '/' { seq!["/"@] } else { Seq::empty() };
    assert(out@.map_values(|x: String| x@) =~= root + kept_segments(sv.take(0)));
    let mut i: usize = 0;
    while i < segs.len()
        invariant
            sv == segs@.map_values(|x: String| x@),
            sv == split_seq(p@, '/'),
            i <= segs@.len(),
            out@.map_values(|x: String| x@) == root + kept_segments(sv.take(i as int)),
        decreases segs@.len() - i,
    {
        let ghost before = out@.map_values(|x: String| x@);
        let seg = segs[i].as_str();
        assert(sv.take(i + 1).drop_last() =~= sv.take(i as int));
        assert(sv.take(i + 1).last() == sv[i as int]);
        assert(sv[i as int] == seg@);
        let nonempty = chars_of(seg).len() > 0;
        let ghost prev = kept_segments(sv.take(i as int));
        if nonempty && (i == 0 || !str_eq(seg, ".")) {
            out.push(seg.to_owned());
            assert(kept_segments(sv.take(i + 1)) == prev.push(seg@));
            assert(out@.map_values(|x: String| x@) =~= before.push(seg@));
            assert(root + prev.push(seg@) =~= (root + prev).push(seg@));
        } else {
            assert(kept_segments(sv.take(i + 1)) == prev);
        }
        i = i + 1;
    }
    assert(sv.take(segs@.len() as int) =~= sv);
    out
}

/// Whether the components `k` begin the components `p`.
fn starts_with_components(p: &Vec<String>, k: &Vec<String>) -> (r: bool)
    ensures
        r == k@.map_values(|x: String| x@).is_prefix_of(p@.map_values(|x: String| x@)),
{
    let ghost pv = p@.map_values(|x: String| x@);
    let ghost kv = k@.map_values(|x: String| x@);
    if k.len() > p.len() {
        return false;
    }
    let mut i: usize = 0;
    while i < k.len()
        invariant
            pv == p@.map_values(|x: String| x@),
            kv == k@.map_values(|x: String| x@),
            k@.len() <= p@.len(),
            i <= k@.len(),
            forall|j: int| 0 <= j < i ==> kv[j] == pv[j],
        decreases k@.len() - i,
    {
        if !str_eq(k[i].as_str(), p[i].as_str()) {
            assert(kv[i as int] != pv.subrange(0, kv.len() as int)[i as int]);
            return false;
        }
        i = i + 1;
    }
    assert(kv =~= pv.subrange(0, kv.len() as int));
    true
}

/// The entry of `tree` whose key is the longest path, by components, that
/// starts `path` (the first such when several keys name that same path), or
/// `None` when no key starts it.
pub fn longest_prefix<'t, V>(path: &str, tree: &'t Vec<(String, V)>) -> (r: Option<(&'t String, &'t V)>)
    ensures
        match r {
            None => forall|j: int| 0 <= j < tree@.len() ==> !starts_with_path(path@, (#[trigger] tree@[j]).0@),
            Some((k, v)) => exists|i: int| is_longest_entry(tree@, path@, i) && *k == tree@[i].0 && *v == tree@[i].1,
        },
{
    let pc = components_of(path);
    let mut best: Option<usize> = None;
    let mut best_len: usize = 0;
    let mut i: usize = 0;
    while i < tree.len()
        invariant
            pc@.map_values(|x: String| x@) == path_components(path@),
            i <= tree@.len(),
            match best {
                None => forall|j: int| 0 <= j < i ==> !starts_with_path(path@, (#[trigger] tree@[j]).0@),
                Some(b) => {
                    &&& b < i
                    &&& best_len == path_components(tree@[b as int].0@).len()
                    &&& starts_with_path(path@, tree@[b as int].0@)
                    &&& forall|j: int| 0 <= j < i && starts_with_path(path@, (#[trigger] tree@[j]).0@)
                            ==> path_components(tree@[j].0@).len() <= best_len
                    &&& forall|j: int| 0 <= j < b && starts_with_path(path@, (#[trigger] tree@[j]).0@)
                            ==> path_components(tree@[j].0@).len() < best_len
                },
            },
        decreases tree@.len() - i,
    {
        let kc = components_of(tree[i].0.as_str());
        if starts_with_components(&pc, &kc) {
            let better = match best {
                None => true,
                Some(_) => kc.len() > best_len,
            };
            if better {
                best = Some(i);
                best_len = kc.len();
            }
        }
        i = i + 1;
    }
    match best {
        None => None,
        Some(b) => {
            let e = &tree[b];
            proof {
                assert(is_longest_entry(tree@, path@, b as int));
            }
            Some((&e.0, &e.1))
        },
    }
}

} // verus!
