//! Properties of the library that span several operations.

use vstd::prelude::*;
use crate::prefix_map::{is_path_prefix, longest_prefix_key, is_longest_prefix_key, without_prefix,
    lemma_path_prefix_reflexive, lemma_longest_prefix_key_is, lemma_longest_prefix_key_spec};
use crate::crud::{view_sorts_by_id, with_id_sort, kept_pairs, form_encoded, form_bytes, form_byte, form_unchanged};
use crate::policy::{Action, action_of, action_code};
use crate::types::id_field_name;
use crate::schema::{version_position, schema_versions, lemma_version_positions};
use crate::insert::{insert_fold, deep_fold, insertion_spec, stored_fields, members_of};
use crate::rows::project_spec;
use crate::json::{Json, JsonView};
use crate::text::decimal;
use crate::api::{collapse_slashes, no_double_slash, lemma_collapse_shape, lemma_collapse_identity};
use crate::http::{canonical_path, strip_trailing_slash};
use crate::types::{ObjectType, TypeSystem, TypeId};
use crate::plan::{ColumnView, PlanState, FieldView, field_views, field_entity, join_alias, load_spec, load_fields_spec,
    entity_fields, tree_spec, fields_built, lemma_fields_built_at, join_index, lemma_join_index, Join,
    QueriedEntity, QueryField};
use crate::rows::{Cell, scalar_json, row_spec, fields_row, id_column};
use crate::query::TargetDatabase;
use crate::policies::Kind;
use crate::policies::{RequiredHeader, SecretValue, secret_allowed, secret_lookup, header_lookup, visible_ascii, bytes_spell};
use crate::expr::BinaryOp;
use crate::filter::comparison_of;
use crate::apply::{TypeEnum, spec_get_builtin};
use crate::rpc::type_msg_of;
use crate::types::Type;
use crate::crud::cursor_op;
use crate::text::ascii_lower_seq;

verus! {

/// After a value is stored under a key, looking up that very path finds that
/// key: no other key can be a longer path prefix of it.
pub proof fn law_lookup_after_insert<T>(m: Map<Seq<char>, T>, k: Seq<char>, v: T)
    ensures
        longest_prefix_key(m.insert(k, v), k) == Some(k),
        m.insert(k, v)[k] == v,
{
    let m2 = m.insert(k, v);
    lemma_path_prefix_reflexive(k);
    assert forall|k2: Seq<char>| #[trigger] m2.contains_key(k2) && is_path_prefix(k2, k) implies k2.len() <= k.len() by {
    }
    assert(is_longest_prefix_key(m2, k, k));
    lemma_longest_prefix_key_is(m2, k, k);
}

/// The key that a lookup finds is stored, is a path prefix of the path, and
/// no stored key that is a path prefix of the path is longer.
pub proof fn law_lookup_finds_longest<T>(m: Map<Seq<char>, T>, path: Seq<char>)
    ensures
        longest_prefix_key(m, path) matches Some(k) ==> {
            &&& m.contains_key(k)
            &&& is_path_prefix(k, path)
            &&& forall|k2: Seq<char>| #[trigger] m.contains_key(k2) && is_path_prefix(k2, path) ==> k2.len() <= k.len()
        },
        longest_prefix_key(m, path) is None ==> forall|k2: Seq<char>| #[trigger] m.contains_key(k2) ==> !is_path_prefix(k2, path),
{
    lemma_longest_prefix_key_spec(m, path);
}

/// Removing a prefix drops exactly the keys under it and keeps every other
/// key with its value.
pub proof fn law_remove_prefix_keeps_others<T>(m: Map<Seq<char>, T>, prefix: Seq<char>, k: Seq<char>)
    ensures
        without_prefix(m, prefix).contains_key(k) <==> (m.contains_key(k) && !is_path_prefix(prefix, k)),
        without_prefix(m, prefix).contains_key(k) ==> without_prefix(m, prefix)[k] == m[k],
{
}

/// Once the sort has been completed with `id`, it sorts by `id`, and
/// completing it again changes nothing.
pub proof fn law_sort_by_id_idempotent(keys: Seq<(Seq<char>, bool)>)
    ensures
        view_sorts_by_id(with_id_sort(keys)),
        with_id_sort(with_id_sort(keys)) == with_id_sort(keys),
{
    if !view_sorts_by_id(keys) {
        let s = keys.push((id_field_name(), true));
        assert(s[keys.len() as int].0 == id_field_name());
    }
}

/// An action's code reads back as that action, and no other code does.
pub proof fn law_action_code_roundtrip(a: Action, v: i32)
    ensures
        action_of(action_code(a)) == Some(a),
        action_of(v) == Some(a) ==> v == action_code(a),
{
}

/// A page link never carries the request's own `cursor` or `sort`
/// parameters: only the new cursor, added last.
pub proof fn law_page_link_drops_cursor_and_sort(q: Seq<(String, String)>)
    ensures
        forall|i: int| 0 <= i < kept_pairs(q).len() ==>
            (#[trigger] kept_pairs(q)[i]).0 != "cursor"@ && kept_pairs(q)[i].0 != "sort"@,
    decreases q.len(),
{
    if q.len() > 0 {
        law_page_link_drops_cursor_and_sort(q.drop_last());
        let prev = kept_pairs(q.drop_last());
        let (k, v) = q.last();
        if !(k@ == "cursor"@ || k@ == "sort"@) {
            assert(kept_pairs(q) == prev.push((k@, v@)));
            assert forall|i: int| 0 <= i < kept_pairs(q).len() implies
                (#[trigger] kept_pairs(q)[i]).0 != "cursor"@ && kept_pairs(q)[i].0 != "sort"@ by {
                if i < prev.len() {
                    assert(kept_pairs(q)[i] == prev[i]);
                }
            }
        }
    }
}

/// No form-encoded text holds `&` or `=`, so the pairs of a page link's
/// query cannot run into each other.
pub proof fn law_form_encoding_has_no_separators(s: Seq<char>)
    ensures
        forall|i: int| 0 <= i < form_encoded(s).len() ==> (#[trigger] form_encoded(s)[i]) != '&' && form_encoded(s)[i] != '=',
{
    lemma_form_bytes_no_separators(vstd::utf8::encode_utf8(s));
}

proof fn lemma_form_bytes_no_separators(bs: Seq<u8>)
    ensures
        forall|i: int| 0 <= i < form_bytes(bs).len() ==> (#[trigger] form_bytes(bs)[i]) != '&' && form_bytes(bs)[i] != '=',
    decreases bs.len(),
{
    if bs.len() > 0 {
        lemma_form_bytes_no_separators(bs.drop_first());
        let head = form_byte(bs[0]);
        let tail = form_bytes(bs.drop_first());
        assert(form_bytes(bs) == head + tail);
        assert forall|i: int| 0 <= i < head.len() implies (#[trigger] head[i]) != '&' && head[i] != '=' by {
            let b = bs[0];
            if form_unchanged(b) {
                assert(head[i] == b as char);
            } else if b == 32 {
            } else {
                let hi = b as int / 16;
                let lo = b as int % 16;
                assert(0 <= hi < 16);
                assert(0 <= lo < 16);
            }
        }
        assert forall|i: int| 0 <= i < form_bytes(bs).len() implies (#[trigger] form_bytes(bs)[i]) != '&' && form_bytes(bs)[i] != '=' by {
            if i < head.len() {
                assert(form_bytes(bs)[i] == head[i]);
            } else {
                assert(form_bytes(bs)[i] == tail[i - head.len()]);
            }
        }
    }
}


/// The version that `n` migration steps lead to from schema version `v`;
/// `None` when a step starts from an unknown or the latest version.
pub open spec fn migrate_steps(v: Seq<char>, n: nat) -> Option<Seq<char>>
    decreases n,
{
    if n == 0 {
        Some(v)
    } else {
        match version_position(v) {
            Some(i) => if i < 4 { migrate_steps(schema_versions()[i + 1], (n - 1) as nat) } else { None },
            None => None,
        }
    }
}

/// Migrating a known schema version step by step reaches the latest version
/// after as many steps as lie between them, and the latest version takes no
/// further step.
pub proof fn law_migrations_reach_latest(v: Seq<char>)
    requires
        version_position(v) is Some,
    ensures
        migrate_steps(v, (4 - version_position(v)->0) as nat) == Some(schema_versions()[4]),
        version_position(schema_versions()[4]) == Some(4int),
    decreases 4 - version_position(v)->0,
{
    lemma_version_positions();
    let i = version_position(v)->0;
    assert(0 <= i < 5) by {
        reveal_strlit("empty");
        reveal_strlit("0");
        reveal_strlit("0.7");
        reveal_strlit("0.12");
        reveal_strlit("0.13");
    }
    if i < 4 {
        let w = schema_versions()[i + 1];
        assert(version_position(w) == Some(i + 1));
        law_migrations_reach_latest(w);
    } else {
        assert(v == schema_versions()[4]) by {
            reveal_strlit("0.13");
        }
    }
}

/// The placeholders of a statement in order, `NULL` left out.
pub open spec fn placeholders(binds: Seq<Seq<char>>) -> Seq<Seq<char>>
    decreases binds.len(),
{
    if binds.len() == 0 {
        Seq::empty()
    } else if binds.last() == "NULL"@ {
        placeholders(binds.drop_last())
    } else {
        placeholders(binds.drop_last()).push(binds.last())
    }
}

/// `$1`, `$2`, ..., `$n`.
pub open spec fn numbered(n: nat) -> Seq<Seq<char>> {
    Seq::new(n, |k: int| "$"@ + decimal((k + 1) as nat))
}

proof fn lemma_insert_fold_numbered(obj: Seq<(String, Json)>, fs: Seq<(Seq<char>, TypeId, Option<Seq<char>>, bool)>)
    requires
        insert_fold(obj, fs) is Some,
    ensures
        placeholders(insert_fold(obj, fs)->0.binds) == numbered(insert_fold(obj, fs)->0.count),
    decreases fs.len(),
{
    reveal_strlit("NULL");
    reveal_strlit("$");
    if fs.len() > 0 {
        lemma_insert_fold_numbered(obj, fs.drop_last());
        let st = insert_fold(obj, fs.drop_last())->0;
        let st2 = insert_fold(obj, fs)->0;
        if st2.binds.len() > st.binds.len() {
            assert(st2.binds.drop_last() =~= st.binds);
            if st2.count == st.count {
                assert(st2.binds.last() == "NULL"@);
            } else {
                let b = "$"@ + decimal(st2.count);
                assert(st2.binds.last() == b);
                assert(b[0] == '$');
                assert("NULL"@[0] == 'N');
                assert(b != "NULL"@);
                assert(numbered(st2.count) =~= numbered(st.count).push(b));
            }
        } else {
            assert(st2 == st);
        }
    }
}

proof fn lemma_args_count(ts: TypeSystem, j: Json, fs: Seq<(Seq<char>, TypeId, Option<Seq<char>>, bool)>)
    requires
        deep_fold(ts, j, fs) is Some,
        insert_fold(members_of(j), fs) is Some,
    ensures
        deep_fold(ts, j, fs)->0.args.len() == insert_fold(members_of(j), fs)->0.count,
    decreases fs.len(),
{
    if fs.len() > 0 {
        lemma_args_count(ts, j, fs.drop_last());
    }
}

/// Saving an object binds exactly one argument to each placeholder of its
/// statement: the placeholders, `NULL`s left out, are `$1, ..., $n` in
/// column order, and the statement has `n` arguments.
pub proof fn law_insert_args_fill_placeholders(ts: TypeSystem, ty: ObjectType, obj: Vec<(String, Json)>)
    requires
        insertion_spec(ts, ty, Json::Object(obj)) is Some,
    ensures
        insert_fold(obj@, stored_fields(ty)) matches Some(st) && {
            &&& placeholders(st.binds) == numbered(st.count)
            &&& insertion_spec(ts, ty, Json::Object(obj))->0.stmts.last().1.len() == st.count
        },
{
    let j = Json::Object(obj);
    assert(members_of(j) == obj@);
    let fs = stored_fields(ty);
    assert(insert_fold(obj@, fs) is Some);
    lemma_insert_fold_numbered(obj@, fs);
    lemma_args_count(ts, j, fs);
}

/// Keeping only the allowed fields of an object keeps exactly its allowed
/// members, in order, and doing it twice changes nothing.
pub proof fn law_projection_idempotent(o: Seq<(Seq<char>, JsonView)>, allowed: Option<Seq<Seq<char>>>)
    ensures
        project_spec(project_spec(o, allowed), allowed) == project_spec(o, allowed),
        allowed matches Some(a) ==> forall|k: int| 0 <= k < project_spec(o, allowed).len()
            ==> a.contains(#[trigger] project_spec(o, allowed)[k].0),
        allowed is None ==> project_spec(o, allowed) == o,
    decreases o.len(),
{
    if o.len() > 0 {
        law_projection_idempotent(o.drop_last(), allowed);
        let rest = project_spec(o.drop_last(), allowed);
        let p = project_spec(o, allowed);
        if p.len() > rest.len() {
            assert(p.drop_last() =~= rest);
            assert(p.last() == o.last());
        } else {
            assert(p == rest);
        }
        if allowed is None {
            assert(o.drop_last().push(o.last()) =~= o);
        }
    }
}


/// Whether the columns `a` begin the columns `b`.
pub open spec fn cols_prefix(a: Seq<ColumnView>, b: Seq<ColumnView>) -> bool {
    &&& a.len() <= b.len()
    &&& forall|i: int| 0 <= i < a.len() ==> #[trigger] b[i] == a[i]
}

/// Whether each cell of a row holds a value of its column's type (any
/// value in a column that holds a nested entity's key).
pub open spec fn cells_fit(cols: Seq<ColumnView>, cells: Seq<Cell>, target: TargetDatabase) -> bool {
    &&& cells.len() == cols.len()
    &&& forall|i: int| 0 <= i < cols.len() ==> (#[trigger] cols[i]).2 is Entity || scalar_json(cols[i].2, cells[i], target) is Some
}

proof fn lemma_load_grows(ts: TypeSystem, ty: ObjectType, table: Seq<char>, st: PlanState, fuel: nat)
    requires
        load_spec(ts, ty, table, st, fuel) is Some,
    ensures
        cols_prefix(st.columns, load_spec(ts, ty, table, st, fuel)->0.columns),
    decreases fuel, 0nat, 0nat,
{
    lemma_load_fields_grows(ts, field_views(ty), table, st, (fuel - 1) as nat);
}

proof fn lemma_load_fields_grows(ts: TypeSystem, fields: Seq<FieldView>, table: Seq<char>, st: PlanState, fuel: nat)
    requires
        load_fields_spec(ts, fields, table, st, fuel) is Some,
    ensures
        cols_prefix(st.columns, load_fields_spec(ts, fields, table, st, fuel)->0.columns),
    decreases fuel, fields.len(), 1nat,
{
    if fields.len() > 0 {
        lemma_load_fields_grows(ts, fields.drop_last(), table, st, fuel);
        lemma_fields_step(ts, fields, table, st, fuel);
        let s1 = load_fields_spec(ts, fields.drop_last(), table, st, fuel)->0;
        let r = load_fields_spec(ts, fields, table, st, fuel)->0;
        assert forall|i: int| 0 <= i < st.columns.len() implies #[trigger] r.columns[i] == st.columns[i] by {
            assert(s1.columns[i] == st.columns[i]);
        }
    }
}

/// Loading one more field keeps the columns loaded before it.
proof fn lemma_fields_step(ts: TypeSystem, fields: Seq<FieldView>, table: Seq<char>, st: PlanState, fuel: nat)
    requires
        fields.len() > 0,
        load_fields_spec(ts, fields, table, st, fuel) is Some,
    ensures
        load_fields_spec(ts, fields.drop_last(), table, st, fuel) is Some,
        cols_prefix(load_fields_spec(ts, fields.drop_last(), table, st, fuel)->0.columns,
            load_fields_spec(ts, fields, table, st, fuel)->0.columns),
    decreases fuel, fields.len(), 0nat,
{
    let s1 = load_fields_spec(ts, fields.drop_last(), table, st, fuel)->0;
    let f = fields.last();
    let col = (table, f.0, f.1, f.2);
    if let Some(Some(nested)) = field_entity(ts, f.1) {
        let alias = join_alias(s1.counter, nested.name@);
        let s2 = PlanState {
            columns: s1.columns.push(col),
            joins: s1.joins.push((nested.backing_table@, alias, table, f.0, "id"@)),
            counter: s1.counter + 1,
        };
        lemma_load_grows(ts, nested, alias, s2, fuel);
        let r = load_spec(ts, nested, alias, s2, fuel)->0;
        assert forall|i: int| 0 <= i < s1.columns.len() implies #[trigger] r.columns[i] == s1.columns[i] by {
            assert(s2.columns[i] == s1.columns[i]);
        }
    }
}


/// Loading the first `m` fields keeps its columns when loading goes on to
/// the first `n`.
proof fn lemma_take_grows(ts: TypeSystem, views: Seq<FieldView>, table: Seq<char>, st: PlanState, f1: nat, m: int, n: int)
    requires
        0 <= m <= n <= views.len(),
        load_fields_spec(ts, views.take(n), table, st, f1) is Some,
    ensures
        load_fields_spec(ts, views.take(m), table, st, f1) is Some,
        cols_prefix(load_fields_spec(ts, views.take(m), table, st, f1)->0.columns,
            load_fields_spec(ts, views.take(n), table, st, f1)->0.columns),
    decreases n - m,
{
    if m < n {
        assert(views.take(n).drop_last() =~= views.take(n - 1));
        lemma_fields_step(ts, views.take(n), table, st, f1);
        lemma_take_grows(ts, views, table, st, f1, m, n - 1);
        let a = load_fields_spec(ts, views.take(m), table, st, f1)->0.columns;
        let b = load_fields_spec(ts, views.take(n - 1), table, st, f1)->0.columns;
        let c = load_fields_spec(ts, views.take(n), table, st, f1)->0.columns;
        assert forall|i: int| 0 <= i < a.len() implies #[trigger] c[i] == a[i] by {
            assert(b[i] == a[i]);
        }
    }
}

/// A lookup by name finds the first join of that name.
proof fn lemma_join_index_first(js: Seq<(String, Join)>, f: Seq<char>, i: int)
    requires
        0 <= i < js.len(),
        js[i].0@ == f,
    ensures
        join_index(js, f) <= i,
    decreases js.len(),
{
    if js[0].0@ != f {
        assert(js.drop_first()[i - 1] == js[i]);
        lemma_join_index_first(js.drop_first(), f, i - 1);
    }
}

/// Each join of a loaded entity comes from one of its fields that holds an
/// entity: the field with that many such fields before it.
proof fn lemma_join_field(ts: TypeSystem, views: Seq<FieldView>, n: int, i: int) -> (k: int)
    requires
        0 <= n <= views.len(),
        0 <= i < entity_fields(ts, views.take(n)),
    ensures
        0 <= k < n,
        entity_fields(ts, views.take(k)) == i,
        field_entity(ts, views[k].1) matches Some(Some(_)),
    decreases n,
{
    if n == 0 {
        assert(views.take(0).len() == 0);
        0
    } else {
        assert(views.take(n).drop_last() =~= views.take(n - 1));
        if i < entity_fields(ts, views.take(n - 1)) {
            lemma_join_field(ts, views, n - 1, i)
        } else {
            n - 1
        }
    }
}


/// A loaded entity reads its `id` from the first column that loading it
/// adds.
proof fn lemma_child_id(ts: TypeSystem, lv: Map<Seq<char>, (Kind, Seq<char>)>, path: Seq<char>, e: QueriedEntity,
    ty: ObjectType, table: Seq<char>, st: PlanState, fuel: nat)
    requires
        tree_spec(ts, lv, path, e, ty, table, st, fuel),
        load_spec(ts, ty, table, st, fuel) is Some,
    ensures
        id_column(e.fields@) == Some(st.columns.len() as usize),
        st.columns.len() < load_spec(ts, ty, table, st, fuel)->0.columns.len(),
{
    let f1 = (fuel - 1) as nat;
    let views = field_views(ty);
    lemma_fields_built_at(ts, lv, path, e.fields@, e.joins@, ty, table, st, f1, e.fields@.len(), 0);
    assert(views.take(0).len() == 0);
    assert(views[0] == ("id"@, TypeId::Id, None::<Seq<char>>));
    assert(views.take(views.len() as int) =~= views);
    lemma_take_grows(ts, views, table, st, f1, 1, views.len() as int);
    assert(views.take(1).drop_last() =~= views.take(0));
    assert(views.take(1).last() == views[0]);
}

proof fn lemma_row_read(ts: TypeSystem, lv: Map<Seq<char>, (Kind, Seq<char>)>, path: Seq<char>, e: QueriedEntity,
    ty: ObjectType, table: Seq<char>, st: PlanState, fuel: nat, fin: PlanState, cells: Seq<Cell>, target: TargetDatabase)
    requires
        tree_spec(ts, lv, path, e, ty, table, st, fuel),
        load_spec(ts, ty, table, st, fuel) is Some,
        cols_prefix(load_spec(ts, ty, table, st, fuel)->0.columns, fin.columns),
        cells_fit(fin.columns, cells, target),
    ensures
        row_spec(e, cells, target) is Some,
    decreases fuel, 1nat, 0nat,
{
    let f1 = (fuel - 1) as nat;
    lemma_fields_read(ts, lv, path, e, ty, table, st, f1, e.fields@.len(), fin, cells, target);
    assert(e.fields@.take(e.fields@.len() as int) =~= e.fields@);
}

proof fn lemma_fields_read(ts: TypeSystem, lv: Map<Seq<char>, (Kind, Seq<char>)>, path: Seq<char>, e: QueriedEntity,
    ty: ObjectType, table: Seq<char>, st: PlanState, f1: nat, n: nat, fin: PlanState, cells: Seq<Cell>,
    target: TargetDatabase)
    requires
        e.fields@.len() == field_views(ty).len(),
        e.joins@.len() == entity_fields(ts, field_views(ty)),
        fields_built(ts, lv, path, e.fields@, e.joins@, ty, table, st, f1, e.fields@.len()),
        n <= e.fields@.len(),
        load_fields_spec(ts, field_views(ty), table, st, f1) is Some,
        cols_prefix(load_fields_spec(ts, field_views(ty), table, st, f1)->0.columns, fin.columns),
        cells_fit(fin.columns, cells, target),
    ensures
        fields_row(e, e.fields@.take(n as int), cells, target) is Some,
    decreases f1 + 1, 0nat, n,
{
    if n > 0 {
        let k = n - 1;
        let fs = e.fields@.take(n as int);
        assert(fs.drop_last() =~= e.fields@.take(k));
        lemma_fields_read(ts, lv, path, e, ty, table, st, f1, (n - 1) as nat, fin, cells, target);
        assert(fs.last() == e.fields@[k]);
        let views = field_views(ty);
        let full = load_fields_spec(ts, views, table, st, f1)->0;
        assert(views.take(views.len() as int) =~= views);
        lemma_fields_built_at(ts, lv, path, e.fields@, e.joins@, ty, table, st, f1, e.fields@.len(), k);
        lemma_take_grows(ts, views, table, st, f1, k + 1, views.len() as int);
        assert(views.take(k + 1).drop_last() =~= views.take(k));
        assert(views.take(k + 1).last() == views[k]);
        let sk1 = load_fields_spec(ts, views.take(k + 1), table, st, f1)->0;
        assert forall|i: int| 0 <= i < sk1.columns.len() implies #[trigger] fin.columns[i] == sk1.columns[i] by {
            assert(full.columns[i] == sk1.columns[i]);
        }
        let f = views[k];
        match field_entity(ts, f.1) {
            Some(Some(nested)) => {
                lemma_entity_field_read(ts, lv, path, e, ty, table, st, f1, k, fin, cells, target);
            },
            _ => {
                let before = load_fields_spec(ts, views.take(k), table, st, f1)->0;
                let ci = before.columns.len() as int;
                assert(fin.columns[ci] == sk1.columns[ci]);
            },
        }
    }
}

proof fn lemma_entity_field_read(ts: TypeSystem, lv: Map<Seq<char>, (Kind, Seq<char>)>, path: Seq<char>, e: QueriedEntity,
    ty: ObjectType, table: Seq<char>, st: PlanState, f1: nat, k: int, fin: PlanState, cells: Seq<Cell>,
    target: TargetDatabase)
    requires
        e.fields@.len() == field_views(ty).len(),
        e.joins@.len() == entity_fields(ts, field_views(ty)),
        fields_built(ts, lv, path, e.fields@, e.joins@, ty, table, st, f1, e.fields@.len()),
        0 <= k < e.fields@.len(),
        field_entity(ts, field_views(ty)[k].1) matches Some(Some(_)),
        fields_row(e, e.fields@.take(k), cells, target) is Some,
        load_fields_spec(ts, field_views(ty), table, st, f1) is Some,
        cols_prefix(load_fields_spec(ts, field_views(ty), table, st, f1)->0.columns, fin.columns),
        cells_fit(fin.columns, cells, target),
    ensures
        fields_row(e, e.fields@.take(k + 1), cells, target) is Some,
    decreases f1 + 1, 0nat, 0nat,
{
    let views = field_views(ty);
    let full = load_fields_spec(ts, views, table, st, f1)->0;
    let fs = e.fields@.take(k + 1);
    assert(fs.drop_last() =~= e.fields@.take(k));
    assert(fs.last() == e.fields@[k]);
    assert(views.take(views.len() as int) =~= views);
    lemma_fields_built_at(ts, lv, path, e.fields@, e.joins@, ty, table, st, f1, e.fields@.len(), k);
    let j = entity_fields(ts, views.take(k)) as int;
    if let QueryField::Entity { name, is_optional, transform, keep_or_omit } = e.fields@[k] {
        lemma_join_index(e.joins@, name@);
        lemma_join_index_first(e.joins@, name@, j);
        let kk = join_index(e.joins@, name@);
        if keep_or_omit is Keep {
            let k2 = lemma_join_field(ts, views, views.len() as int, kk);
            lemma_fields_built_at(ts, lv, path, e.fields@, e.joins@, ty, table, st, f1, e.fields@.len(), k2);
            lemma_take_grows(ts, views, table, st, f1, k2 + 1, views.len() as int);
            assert(views.take(k2 + 1).drop_last() =~= views.take(k2));
            assert(views.take(k2 + 1).last() == views[k2]);
            let before2 = load_fields_spec(ts, views.take(k2), table, st, f1)->0;
            let f2 = views[k2];
            let nested2 = field_entity(ts, f2.1)->0->0;
            let alias2 = join_alias(before2.counter, nested2.name@);
            let s2 = PlanState {
                columns: before2.columns.push((table, f2.0, f2.1, f2.2)),
                joins: before2.joins.push((nested2.backing_table@, alias2, table, f2.0, "id"@)),
                counter: before2.counter + 1,
            };
            let child = e.joins@[kk].1.entity;
            let sc = load_spec(ts, nested2, alias2, s2, f1)->0;
            let sk1 = load_fields_spec(ts, views.take(k2 + 1), table, st, f1)->0;
            assert(sc == sk1);
            assert forall|i: int| 0 <= i < sc.columns.len() implies #[trigger] fin.columns[i] == sc.columns[i] by {
                assert(full.columns[i] == sk1.columns[i]);
            }
            lemma_child_id(ts, lv, path, child, nested2, alias2, s2, f1);
            lemma_row_read(ts, lv, path, child, nested2, alias2, s2, f1, fin, cells, target);
        }
    }
}


/// The entity tree and the columns that loading an entity builds fit
/// together: a row that holds, in each column read, a value of that column's
/// type reads back as an object of the entity, with every nested entity
/// found among the joins.
pub proof fn law_full_rows_read_back(ts: TypeSystem, lv: Map<Seq<char>, (Kind, Seq<char>)>, path: Seq<char>,
    e: QueriedEntity, ty: ObjectType, table: Seq<char>, st: PlanState, fuel: nat, fin: PlanState, cells: Seq<Cell>,
    target: TargetDatabase)
    requires
        tree_spec(ts, lv, path, e, ty, table, st, fuel),
        load_spec(ts, ty, table, st, fuel) == Some(fin),
        cells_fit(fin.columns, cells, target),
    ensures
        row_spec(e, cells, target) is Some,
{
    lemma_row_read(ts, lv, path, e, ty, table, st, fuel, fin, cells, target);
}


/// Collapsing keeps the first character.
proof fn lemma_collapse_first(s: Seq<char>)
    requires
        s.len() > 0,
    ensures
        collapse_slashes(s).len() > 0,
        collapse_slashes(s)[0] == s[0],
    decreases s.len(),
{
    if s.len() > 1 {
        lemma_collapse_first(s.drop_last());
    }
}

/// A slash put before a path that starts with one collapses away.
proof fn lemma_collapse_leading(c: Seq<char>)
    requires
        c.len() > 0,
        c[0] == '/',
    ensures
        collapse_slashes(seq!['/'] + c) == collapse_slashes(c),
    decreases c.len(),
{
    let s = seq!['/'] + c;
    if c.len() == 1 {
        assert(s.drop_last() =~= seq!['/']);
        assert(s[s.len() - 2] == '/');
        assert(c =~= seq!['/']);
    } else {
        lemma_collapse_leading(c.drop_last());
        assert(s.drop_last() =~= seq!['/'] + c.drop_last());
        assert(s[s.len() - 2] == c[c.len() - 2]);
        assert(s.last() == c.last());
        assert(collapse_slashes(s.drop_last()) == collapse_slashes(c.drop_last()));
    }
}

/// Normalizing a request path twice gives what normalizing it once gives.
pub proof fn law_request_path_normal_form(p: Seq<char>)
    ensures
        canonical_path(canonical_path(p)) == canonical_path(p),
{
    let full = seq!['/'] + p;
    let c0 = collapse_slashes(full);
    lemma_collapse_shape(full);
    lemma_collapse_first(full);
    let c = canonical_path(p);
    assert(c == strip_trailing_slash(c0));
    assert(no_double_slash(c)) by {
        if c0.len() > 1 && c0.last() == '/' {
            assert forall|i: int| 0 <= i < c.len() - 1 implies !(#[trigger] c[i] == '/' && c[i + 1] == '/') by {
                assert(c[i] == c0[i]);
                assert(c[i + 1] == c0[i + 1]);
            }
        }
    }
    assert(c.len() > 0 && c[0] == '/');
    assert(c.len() > 1 ==> c.last() != '/') by {
        if c0.len() > 1 && c0.last() == '/' {
            assert(c.last() == c0[c0.len() - 2]);
            assert(!(c0[c0.len() - 2] == '/' && c0[c0.len() - 1] == '/'));
        }
    }
    lemma_collapse_leading(c);
    lemma_collapse_identity(c);
}


/// What a comparison operator asserts of two numbers (`None` for an operator
/// that does not compare).
pub open spec fn op_compares(op: BinaryOp, a: int, b: int) -> Option<bool> {
    match op {
        BinaryOp::Eq => Some(a == b),
        BinaryOp::NotEq => Some(a != b),
        BinaryOp::Lt => Some(a < b),
        BinaryOp::LtEq => Some(a <= b),
        BinaryOp::Gt => Some(a > b),
        BinaryOp::GtEq => Some(a >= b),
        _ => None,
    }
}

/// What an SQL comparison operator, written as text, asserts of two numbers.
pub open spec fn sql_compares(sym: Seq<char>, a: int, b: int) -> Option<bool> {
    if sym == "="@ {
        Some(a == b)
    } else if sym == "!="@ {
        Some(a != b)
    } else if sym == "<"@ {
        Some(a < b)
    } else if sym == "<="@ {
        Some(a <= b)
    } else if sym == ">"@ {
        Some(a > b)
    } else if sym == ">="@ {
        Some(a >= b)
    } else {
        None
    }
}

/// Each comparison operator is written in SQL as the operator that asserts
/// the same of its operands: a value equal to the bound satisfies the SQL of
/// `LtEq` and `GtEq` and not that of `Lt` and `Gt`.
pub proof fn law_comparison_sql_means_the_operator(op: BinaryOp, a: int, b: int)
    ensures
        op_compares(op, a, b) is Some ==> sql_compares(op.sql(), a, b) == op_compares(op, a, b),
{
    reveal_strlit("=");
    reveal_strlit("!=");
    reveal_strlit("<");
    reveal_strlit("<=");
    reveal_strlit(">");
    reveal_strlit(">=");
    assert("="@.len() == 1 && "<"@.len() == 1 && ">"@.len() == 1);
    assert("!="@.len() == 2 && "<="@.len() == 2 && ">="@.len() == 2);
    assert("="@[0] == '=' && "<"@[0] == '<' && ">"@[0] == '>');
    assert("!="@[0] == '!' && "<="@[0] == '<' && ">="@[0] == '>');
}

/// What a filter document's comparison key asserts of a field value `a`
/// and the given value `b`.
pub open spec fn filter_key_compares(key: Seq<char>, a: int, b: int) -> Option<bool> {
    if key == "$eq"@ {
        Some(a == b)
    } else if key == "$ne"@ {
        Some(a != b)
    } else if key == "$gt"@ {
        Some(a > b)
    } else if key == "$gte"@ {
        Some(a >= b)
    } else if key == "$lt"@ {
        Some(a < b)
    } else if key == "$lte"@ {
        Some(a <= b)
    } else {
        None
    }
}

/// Each comparison key of a filter document becomes the operator that
/// asserts what the key names, and its SQL asserts the same; two different
/// keys never give the same operator.
pub proof fn law_filter_keys_compare_as_named(key: Seq<char>, key2: Seq<char>, a: int, b: int)
    ensures
        filter_key_compares(key, a, b) is Some ==> {
            &&& comparison_of(key) is Some
            &&& op_compares(comparison_of(key)->0, a, b) == filter_key_compares(key, a, b)
            &&& sql_compares(comparison_of(key)->0.sql(), a, b) == filter_key_compares(key, a, b)
        },
        filter_key_compares(key, a, b) is None ==> comparison_of(key) is None,
        comparison_of(key) is Some && key != key2 ==> comparison_of(key) != comparison_of(key2),
{
    reveal_strlit("$eq");
    reveal_strlit("$ne");
    reveal_strlit("$gt");
    reveal_strlit("$gte");
    reveal_strlit("$lt");
    reveal_strlit("$lte");
    if comparison_of(key) is Some {
        law_comparison_sql_means_the_operator(comparison_of(key)->0, a, b);
    }
}

/// A type that does not refer to an entity.
pub open spec fn entity_free(t: Type) -> bool
    decreases t,
{
    match t {
        Type::Entity(_) => false,
        Type::Array(inner) => entity_free(*inner),
        _ => true,
    }
}

/// Resolving the field type that describes a type gives that type back:
/// a date stays a date, a number a number, and so on, inside arrays too.
pub proof fn law_field_types_resolve_to_what_they_describe(t: Type, ts: TypeSystem)
    requires
        entity_free(t),
    ensures
        spec_get_builtin(type_msg_of(t).type_enum->0, ts) == Ok::<Type, Seq<char>>(t),
    decreases t,
{
    if let Type::Array(inner) = t {
        law_field_types_resolve_to_what_they_describe(*inner, ts);
    }
}

/// Whether two field types are of the same kind, whatever their flags.
pub open spec fn same_kind(a: TypeEnum, b: TypeEnum) -> bool {
    match (a, b) {
        (TypeEnum::String(_), TypeEnum::String(_)) => true,
        (TypeEnum::Number(_), TypeEnum::Number(_)) => true,
        (TypeEnum::Bool(_), TypeEnum::Bool(_)) => true,
        (TypeEnum::JsDate(_), TypeEnum::JsDate(_)) => true,
        (TypeEnum::ArrayBuffer(_), TypeEnum::ArrayBuffer(_)) => true,
        _ => false,
    }
}

/// A scalar field type resolves to a type that is described by a field type
/// of the same kind.
pub proof fn law_scalar_field_types_keep_their_kind(te: TypeEnum, ts: TypeSystem)
    requires
        same_kind(te, te),
    ensures
        spec_get_builtin(te, ts) matches Ok(t) && same_kind(type_msg_of(t).type_enum->0, te),
{
}

/// The comparison a cursor uses on one axis selects the values beyond the
/// pivot in the direction of travel and none on the other side; the pivot's
/// own value is selected exactly when the cursor is inclusive, so the pages
/// an exclusive cursor joins never share a row.
pub proof fn law_cursor_comparison_moves_past_the_pivot(ascending: bool, forward: bool, inclusive: bool, v: int, p: int)
    ensures
        op_compares(cursor_op(ascending, forward, inclusive), p, p) == Some(inclusive),
        ascending == forward && v > p ==> op_compares(cursor_op(ascending, forward, inclusive), v, p) == Some(true),
        ascending == forward && v < p ==> op_compares(cursor_op(ascending, forward, inclusive), v, p) == Some(false),
        ascending != forward && v < p ==> op_compares(cursor_op(ascending, forward, inclusive), v, p) == Some(true),
        ascending != forward && v > p ==> op_compares(cursor_op(ascending, forward, inclusive), v, p) == Some(false),
        !inclusive ==> cursor_op(ascending, forward, inclusive) == BinaryOp::Gt
            || cursor_op(ascending, forward, inclusive) == BinaryOp::Lt,
{
}

/// Whether the headers carry, under the requirement's header name, the text
/// of the secret it names.
pub open spec fn carries_secret(h: RequiredHeader, headers: Seq<(String, Vec<u8>)>, secrets: Seq<(String, SecretValue)>) -> bool {
    exists|s: String| secret_lookup(secrets, h.secret_name@) == Some(SecretValue::Text(s))
        && header_spells(header_lookup(headers, ascii_lower_seq(h.header_name@)), s@)
}

/// Whether a header is present, readable as text, and spells `s`.
pub open spec fn header_spells(header: Option<Seq<u8>>, s: Seq<char>) -> bool {
    match header {
        Some(b) => visible_ascii(b) && bytes_spell(b, s),
        None => false,
    }
}

/// A header requirement with a method list applies to exactly the listed
/// methods: a request made with another method is allowed whatever its
/// headers, and a request made with a listed method (or under a requirement
/// without a list) is allowed exactly when it carries the secret. A path
/// that no requirement covers is allowed.
pub proof fn law_header_requirements_cover_their_methods(
    routes: Map<Seq<char>, RequiredHeader>,
    method: Seq<char>,
    headers: Seq<(String, Vec<u8>)>,
    secrets: Seq<(String, SecretValue)>,
    path: Seq<char>,
)
    ensures
        longest_prefix_key(routes, path) is None ==> secret_allowed(routes, method, headers, secrets, path),
        longest_prefix_key(routes, path) matches Some(k) ==> {
            let h = routes[k];
            &&& (h.methods matches Some(v) && !v@.map_values(|m: String| m@).contains(method))
                ==> secret_allowed(routes, method, headers, secrets, path)
            &&& (h.methods matches Some(v) && v@.map_values(|m: String| m@).contains(method))
                ==> (secret_allowed(routes, method, headers, secrets, path) <==> carries_secret(h, headers, secrets))
            &&& h.methods is None
                ==> (secret_allowed(routes, method, headers, secrets, path) <==> carries_secret(h, headers, secrets))
        },
{
    if let Some(k) = longest_prefix_key(routes, path) {
        let h = routes[k];
        if let Some(SecretValue::Text(s)) = secret_lookup(secrets, h.secret_name@) {
            if secret_allowed(routes, method, headers, secrets, path) && !(h.methods matches Some(v) && !v@.map_values(|m: String| m@).contains(method)) {
                assert(secret_lookup(secrets, h.secret_name@) == Some(SecretValue::Text(s))
                    && header_spells(header_lookup(headers, ascii_lower_seq(h.header_name@)), s@));
                assert(carries_secret(h, headers, secrets));
            }
        }
    }
}

} // verus!
