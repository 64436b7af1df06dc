//! Query plans: which columns a query reads, which tables it joins to reach
//! nested entities, which filters enforce login restrictions, and the SQL
//! text that runs the query's operators.

use vstd::prelude::*;
use crate::types::{ObjectType, TypeId, TypeSystem, Field, Type, same_type};
use crate::policies::{FieldPolicies, PolicySystem, Transformation, Kind, KindClass, field_policy_names, labels_view, names_of};
use crate::query::{Column, KeepOrOmitField, QueryOp, SortBy, TargetDatabase, sql_quoted, escape_string};
use crate::query::{first_break, lemma_first_break_bounds, filters_conjunction, last_sort_index, lemma_last_sort_index,
    count_takes, count_skips, take_count, skip_count, limit_offset_sql, sort_keys_sql,
    split_on_first_take, gather_filters, find_last_sort_by, find_take_count, find_skip_count,
    make_sort_string, make_limit_and_offset_string, convert_ops, chain_ops, QueryOpChain};
use crate::query::{truncated_identifier, truncate_identifier};
use crate::expr::{Expr, Value, BinaryExpr, BinaryOp, PropertyAccess};
use crate::text::{str_eq, string_concat, u64_to_string, decimal};
use crate::rows::lemma_child_decreases;

verus! {

/// A field of a queried entity as the result is rebuilt from a row.
#[derive(Debug)]
pub enum QueryField {
    /// A field read from the column at `column_idx`.
    Scalar {
        name: String,
        type_id: TypeId,
        is_optional: bool,
        column_idx: usize,
        transform: Option<Transformation>,
        keep_or_omit: KeepOrOmitField,
    },
    /// A nested entity, rebuilt from the joined table of the same name.
    Entity {
        name: String,
        is_optional: bool,
        transform: Option<Transformation>,
        keep_or_omit: KeepOrOmitField,
    },
}

/// An entity that a query reads, under the table alias `table_alias`, with
/// the entities joined to it under the names of the fields that hold them.
#[derive(Debug)]
pub struct QueriedEntity {
    pub fields: Vec<QueryField>,
    pub ty_name: String,
    pub field_names: Vec<String>,
    pub table_alias: String,
    pub joins: Vec<(String, Join)>,
}

/// A join of `entity` to the entity that holds it, on equal `lkey` (of the
/// holder) and `rkey` (of the joined entity).
#[derive(Debug)]
pub struct Join {
    pub entity: QueriedEntity,
    pub lkey: String,
    pub rkey: String,
}

/// A join as the SQL text uses it: the joined table, its alias, the holder's
/// alias, and the two keys.
#[derive(Debug)]
pub struct JoinLine {
    pub table: String,
    pub alias: String,
    pub parent: String,
    pub lkey: String,
    pub rkey: String,
}

/// A column as plain values: table, name, field type and default.
pub type ColumnView = (Seq<char>, Seq<char>, TypeId, Option<Seq<char>>);

/// A join line as plain values: table, alias, holder alias, left key, right key.
pub type JoinView = (Seq<char>, Seq<char>, Seq<char>, Seq<char>, Seq<char>);

/// The state a plan builds up: the columns read, the joins made, and the
/// number of joins counted so far (which numbers the join aliases).
pub struct PlanState {
    pub columns: Seq<ColumnView>,
    pub joins: Seq<JoinView>,
    pub counter: nat,
}

/// The text of an optional string.
pub open spec fn opt_view(o: Option<String>) -> Option<Seq<char>> {
    match o {
        Some(s) => Some(s@),
        None => None,
    }
}

/// A field as plain values: name, type and default.
pub type FieldView = (Seq<char>, TypeId, Option<Seq<char>>);

/// The fields of an entity, the implicit `id` first.
pub open spec fn field_views(ty: ObjectType) -> Seq<FieldView> {
    seq![("id"@, TypeId::Id, None::<Seq<char>>)]
        + ty.user_fields@.map_values(|f: Field| (f.name@, f.type_id, opt_view(f.default)))
}

/// The entity a field type refers to: `Some(None)` for a field that is not
/// an entity, `None` when the entity is unknown.
pub open spec fn field_entity(ts: TypeSystem, t: TypeId) -> Option<Option<ObjectType>> {
    match t {
        TypeId::Entity { name, .. } => if ts.entities@.contains_key(name@) {
            Some(Some(ts.entities@[name@]))
        } else if ts.builtin@.contains_key(name@) {
            Some(Some(ts.builtin@[name@]))
        } else {
            None
        },
        _ => Some(None),
    }
}

/// The alias of the `counter`-th join, to entity `nested`.
pub open spec fn join_alias(counter: nat, nested: Seq<char>) -> Seq<char> {
    truncated_identifier("JOIN"@ + decimal(counter) + "_"@ + nested + "_TO_"@ + nested)
}

/// The plan state after loading entity `ty` under table alias `table`: its
/// fields' columns, and for each field holding an entity a join to that
/// entity's table, loaded in turn; `None` when an entity is unknown, the
/// nesting runs deeper than `fuel`, or the join counter would overflow.
pub open spec fn load_spec(ts: TypeSystem, ty: ObjectType, table: Seq<char>, st: PlanState, fuel: nat) -> Option<PlanState>
    decreases fuel, 0nat,
{
    if fuel == 0 {
        None
    } else {
        load_fields_spec(ts, field_views(ty), table, st, (fuel - 1) as nat)
    }
}

/// The plan state after loading `fields` of an entity under alias `table`.
pub open spec fn load_fields_spec(ts: TypeSystem, fields: Seq<FieldView>, table: Seq<char>, st: PlanState, fuel: nat) -> Option<PlanState>
    decreases fuel, fields.len(),
{
    if fields.len() == 0 {
        Some(st)
    } else {
        match load_fields_spec(ts, fields.drop_last(), table, st, fuel) {
            None => None,
            Some(s1) => {
                let f = fields.last();
                let col = (table, f.0, f.1, f.2);
                match field_entity(ts, f.1) {
                    None => None,
                    Some(None) => Some(PlanState { columns: s1.columns.push(col), joins: s1.joins, counter: s1.counter }),
                    Some(Some(nested)) => if s1.counter >= usize::MAX {
                        None
                    } else {
                        let alias = join_alias(s1.counter, nested.name@);
                        let s2 = PlanState {
                            columns: s1.columns.push(col),
                            joins: s1.joins.push((nested.backing_table@, alias, table, f.0, "id"@)),
                            counter: s1.counter + 1,
                        };
                        load_spec(ts, nested, alias, s2, fuel)
                    },
                }
            },
        }
    }
}

/// The transformation that the field policies of labels `lv` on `path`
/// give the field `name` of `ty`.
pub open spec fn transform_spec(lv: Map<Seq<char>, (Kind, Seq<char>)>, path: Seq<char>, ty: ObjectType, name: Seq<char>)
    -> Option<Transformation>
{
    if field_policy_names(lv, path, ty, KindClass::Transform).contains(name) {
        Some(Transformation::Anonymize)
    } else {
        None
    }
}

/// Whether the field policies of labels `lv` on `path` leave the field
/// `name` of `ty` out of results.
pub open spec fn keep_spec(lv: Map<Seq<char>, (Kind, Seq<char>)>, path: Seq<char>, ty: ObjectType, name: Seq<char>)
    -> KeepOrOmitField
{
    if field_policy_names(lv, path, ty, KindClass::Omit).contains(name) {
        KeepOrOmitField::Omit
    } else {
        KeepOrOmitField::Keep
    }
}

/// Whether field number `k` of `ty` is optional; the implicit `id`
/// (number 0) is not.
pub open spec fn field_optional(ty: ObjectType, k: int) -> bool {
    if k == 0 { false } else { ty.user_fields@[k - 1].is_optional }
}

/// The number of fields among `fs` that hold entities.
pub open spec fn entity_fields(ts: TypeSystem, fs: Seq<FieldView>) -> nat
    decreases fs.len(),
{
    if fs.len() == 0 {
        0
    } else {
        entity_fields(ts, fs.drop_last()) + if field_entity(ts, fs.last().1) matches Some(Some(_)) { 1nat } else { 0nat }
    }
}

/// Whether `fields` and `joins` hold, at field number `k` of `ty`, what
/// loading `ty` under alias `table` from state `st` builds: a scalar reads
/// the column it added; an entity is joined, under the field's name, and
/// loaded in turn; each has the transformation and omission of its policies.
pub open spec fn field_built(ts: TypeSystem, lv: Map<Seq<char>, (Kind, Seq<char>)>, path: Seq<char>, fields: Seq<QueryField>,
    joins: Seq<(String, Join)>, ty: ObjectType, table: Seq<char>, st: PlanState, f1: nat, k: int) -> bool
    decreases f1 + 1, 0nat, 0nat,
{
    let views = field_views(ty);
    let f = views[k];
    let before = load_fields_spec(ts, views.take(k), table, st, f1)->0;
    let j = entity_fields(ts, views.take(k)) as int;
    match field_entity(ts, f.1) {
        Some(Some(nested)) => {
            let alias = join_alias(before.counter, nested.name@);
            let s2 = PlanState {
                columns: before.columns.push((table, f.0, f.1, f.2)),
                joins: before.joins.push((nested.backing_table@, alias, table, f.0, "id"@)),
                counter: before.counter + 1,
            };
            &&& fields[k] matches QueryField::Entity { name, is_optional, transform, keep_or_omit }
                && name@ == f.0 && is_optional == field_optional(ty, k)
                && transform == transform_spec(lv, path, ty, f.0) && keep_or_omit == keep_spec(lv, path, ty, f.0)
            &&& 0 <= j < joins.len()
            &&& joins[j].0@ == f.0 && joins[j].1.lkey@ == f.0 && joins[j].1.rkey@ == "id"@
            &&& tree_spec(ts, lv, path, joins[j].1.entity, nested, alias, s2, f1)
        },
        _ => fields[k] matches QueryField::Scalar { name, type_id, is_optional, column_idx, transform, keep_or_omit }
            && name@ == f.0 && type_id == f.1 && is_optional == field_optional(ty, k)
            && column_idx == before.columns.len()
            && transform == transform_spec(lv, path, ty, f.0) && keep_or_omit == keep_spec(lv, path, ty, f.0),
    }
}

/// Whether the first `n` fields of `ty` are built as `field_built` says.
pub open spec fn fields_built(ts: TypeSystem, lv: Map<Seq<char>, (Kind, Seq<char>)>, path: Seq<char>, fields: Seq<QueryField>,
    joins: Seq<(String, Join)>, ty: ObjectType, table: Seq<char>, st: PlanState, f1: nat, n: nat) -> bool
    decreases f1 + 1, 1nat, n,
{
    if n == 0 {
        true
    } else {
        fields_built(ts, lv, path, fields, joins, ty, table, st, f1, (n - 1) as nat)
            && field_built(ts, lv, path, fields, joins, ty, table, st, f1, n - 1)
    }
}

/// Whether `e` is the entity tree that loading `ty` under alias `table`
/// from state `st` builds, nesting no deeper than `fuel`: the entity's name
/// and alias, its field names (the implicit `id` first), and each field as
/// `field_built` says.
pub open spec fn tree_spec(ts: TypeSystem, lv: Map<Seq<char>, (Kind, Seq<char>)>, path: Seq<char>, e: QueriedEntity,
    ty: ObjectType, table: Seq<char>, st: PlanState, fuel: nat) -> bool
    decreases fuel, 2nat, 0nat,
{
    &&& fuel > 0
    &&& e.ty_name@ == ty.name@
    &&& e.table_alias@ == table
    &&& names_of(e.field_names@) == ty.all_field_names()
    &&& e.fields@.len() == field_views(ty).len()
    &&& e.joins@.len() == entity_fields(ts, field_views(ty))
    &&& fields_built(ts, lv, path, e.fields@, e.joins@, ty, table, st, (fuel - 1) as nat, e.fields@.len())
}

pub proof fn lemma_fields_built_at(ts: TypeSystem, lv: Map<Seq<char>, (Kind, Seq<char>)>, path: Seq<char>, fields: Seq<QueryField>,
    joins: Seq<(String, Join)>, ty: ObjectType, table: Seq<char>, st: PlanState, f1: nat, n: nat, k: int)
    requires
        fields_built(ts, lv, path, fields, joins, ty, table, st, f1, n),
        0 <= k < n,
    ensures
        field_built(ts, lv, path, fields, joins, ty, table, st, f1, k),
    decreases n,
{
    if k < n - 1 {
        lemma_fields_built_at(ts, lv, path, fields, joins, ty, table, st, f1, (n - 1) as nat, k);
    }
}

proof fn lemma_tree_spec_intro(ts: TypeSystem, lv: Map<Seq<char>, (Kind, Seq<char>)>, path: Seq<char>, e: QueriedEntity,
    ty: ObjectType, table: Seq<char>, st: PlanState, fuel: nat, f1: nat)
    requires
        fuel == f1 + 1,
        e.ty_name@ == ty.name@,
        e.table_alias@ == table,
        names_of(e.field_names@) == ty.all_field_names(),
        e.fields@.len() == field_views(ty).len(),
        e.joins@.len() == entity_fields(ts, field_views(ty)),
        fields_built(ts, lv, path, e.fields@, e.joins@, ty, table, st, f1, e.fields@.len()),
    ensures
        tree_spec(ts, lv, path, e, ty, table, st, fuel),
{
}

proof fn lemma_fields_built_extends(ts: TypeSystem, lv: Map<Seq<char>, (Kind, Seq<char>)>, path: Seq<char>,
    fields: Seq<QueryField>, joins: Seq<(String, Join)>, fields2: Seq<QueryField>, joins2: Seq<(String, Join)>,
    ty: ObjectType, table: Seq<char>, st: PlanState, f1: nat, n: nat)
    requires
        fields_built(ts, lv, path, fields, joins, ty, table, st, f1, n),
        n <= fields.len() <= fields2.len(),
        joins.len() <= joins2.len(),
        forall|i: int| 0 <= i < fields.len() ==> fields2[i] == fields[i],
        forall|i: int| 0 <= i < joins.len() ==> joins2[i] == joins[i],
    ensures
        fields_built(ts, lv, path, fields2, joins2, ty, table, st, f1, n),
    decreases n,
{
    if n > 0 {
        lemma_fields_built_extends(ts, lv, path, fields, joins, fields2, joins2, ty, table, st, f1, (n - 1) as nat);
        lemma_field_built_extends(ts, lv, path, fields, joins, fields2, joins2, ty, table, st, f1, n - 1);
    }
}

proof fn lemma_field_built_extends(ts: TypeSystem, lv: Map<Seq<char>, (Kind, Seq<char>)>, path: Seq<char>,
    fields: Seq<QueryField>, joins: Seq<(String, Join)>, fields2: Seq<QueryField>, joins2: Seq<(String, Join)>,
    ty: ObjectType, table: Seq<char>, st: PlanState, f1: nat, k: int)
    requires
        field_built(ts, lv, path, fields, joins, ty, table, st, f1, k),
        0 <= k < fields.len() <= fields2.len(),
        joins.len() <= joins2.len(),
        forall|i: int| 0 <= i < fields.len() ==> fields2[i] == fields[i],
        forall|i: int| 0 <= i < joins.len() ==> joins2[i] == joins[i],
    ensures
        field_built(ts, lv, path, fields2, joins2, ty, table, st, f1, k),
{
    let views = field_views(ty);
    let j = entity_fields(ts, views.take(k)) as int;
    assert(fields2[k] == fields[k]);
    if field_entity(ts, views[k].1) matches Some(Some(_)) {
        assert(joins2[j] == joins[j]);
    }
}

/// Whether `name` is among the names.
pub open spec fn has_name(v: Seq<String>, name: Seq<char>) -> bool {
    exists|i: int| 0 <= i < v.len() && (#[trigger] v[i])@ == name
}

fn contains_str(v: &Vec<String>, name: &str) -> (r: bool)
    ensures
        r == has_name(v@, name@),
{
    let mut i: usize = 0;
    while i < v.len()
        invariant
            i <= v@.len(),
            forall|k: int| 0 <= k < i ==> (#[trigger] v@[k])@ != name@,
        decreases v@.len() - i,
    {
        if str_eq(v[i].as_str(), name) {
            return true;
        }
        i = i + 1;
    }
    false
}

fn transform_of(transforms: &Vec<(String, Transformation)>, name: &str) -> (r: Option<Transformation>)
    ensures
        r is Some <==> exists|i: int| 0 <= i < transforms@.len() && (#[trigger] transforms@[i]).0@ == name@,
        r matches Some(t) ==> exists|i: int| 0 <= i < transforms@.len() && (#[trigger] transforms@[i]).0@ == name@
            && transforms@[i].1 == t,
{
    let mut i: usize = 0;
    while i < transforms.len()
        invariant
            i <= transforms@.len(),
            forall|k: int| 0 <= k < i ==> (#[trigger] transforms@[k]).0@ != name@,
        decreases transforms@.len() - i,
    {
        if str_eq(transforms[i].0.as_str(), name) {
            return Some(transforms[i].1);
        }
        i = i + 1;
    }
    None
}

pub(crate) fn entity_of<'a>(ts: &'a TypeSystem, t: &TypeId) -> (r: Result<Option<&'a ObjectType>, String>)
    requires
        ts.wf(),
    ensures
        match field_entity(*ts, *t) {
            None => r is Err,
            Some(None) => r matches Ok(None),
            Some(Some(e)) => r matches Ok(Some(x)) && *x == e,
        },
{
    match t {
        TypeId::Entity { name, .. } => match ts.entities.get(name.as_str()) {
            Some(e) => Ok(Some(e)),
            None => match ts.builtin.get(name.as_str()) {
                Some(e) => Ok(Some(e)),
                None => {
                    proof {
                        reveal_strlit("type `");
                        reveal_strlit("` not found");
                    }
                    Err(string_concat("type `", name.as_str()).concat("` not found"))
                },
            },
        },
        _ => Ok(None),
    }
}

/// A query plan: the columns read, the joins made, the entity tree the
/// result is rebuilt with, the fields the caller asked for, and the
/// operators that shape the result.
#[derive(Debug)]
pub struct QueryPlan {
    pub base: ObjectType,
    pub columns: Vec<Column>,
    pub join_lines: Vec<JoinLine>,
    pub entity: QueriedEntity,
    pub allowed_fields: Option<Vec<String>>,
    pub join_counter: usize,
    pub operators: Vec<QueryOp>,
}

impl QueryPlan {
    /// The columns, joins and join count of the plan as plain values.
    pub open spec fn state(&self) -> PlanState {
        PlanState {
            columns: self.columns@.map_values(|c: Column| (c.table_name@, c.name@, c.type_id, opt_view(c.default))),
            joins: self.join_lines@.map_values(|j: JoinLine| (j.table@, j.alias@, j.parent@, j.lkey@, j.rkey@)),
            counter: self.join_counter as nat,
        }
    }

    fn push_column(&mut self, table: &str, name: &str, type_id: TypeId, default: Option<String>) -> (r: usize)
        ensures
            r == old(self).columns@.len(),
            final(self).state() == (PlanState {
                columns: old(self).state().columns.push((table@, name@, type_id, opt_view(default))),
                joins: old(self).state().joins,
                counter: old(self).state().counter,
            }),
            final(self).entity == old(self).entity,
            final(self).allowed_fields == old(self).allowed_fields,
            final(self).operators == old(self).operators,
            final(self).base == old(self).base,
    {
        let idx = self.columns.len();
        let ghost before = self.state();
        let ghost dv = opt_view(default);
        self.columns.push(Column { name: name.to_owned(), table_name: table.to_owned(), type_id, default });
        assert(self.state().columns =~= before.columns.push((table@, name@, type_id, dv)));
        idx
    }

    fn load_entity_recursive(
        &mut self,
        ts: &TypeSystem,
        ps: &PolicySystem,
        user_id: &Option<String>,
        path: &str,
        ty: &ObjectType,
        current_table: &str,
        fuel: usize,
    ) -> (r: Result<QueriedEntity, String>)
        requires
            ts.wf(),
            ps.wf(),
        ensures
            match load_spec(*ts, *ty, current_table@, old(self).state(), fuel as nat) {
                None => r is Err,
                Some(st) => r matches Ok(e) && final(self).state() == st
                    && tree_spec(*ts, labels_view(ps.labels@), path@, e, *ty, current_table@, old(self).state(), fuel as nat),
            },
            final(self).allowed_fields == old(self).allowed_fields,
            final(self).operators == old(self).operators,
            final(self).base == old(self).base,
        decreases fuel,
    {
        if fuel == 0 {
            return Err("entity nesting too deep".to_owned());
        }
        let fp = ps.make_field_policies(user_id, path, ty);
        let ghost lv = labels_view(ps.labels@);
        let ghost views = field_views(*ty);
        let ghost st0 = self.state();
        let ghost f1 = (fuel - 1) as nat;
        let mut fields: Vec<QueryField> = Vec::new();
        let mut joins: Vec<(String, Join)> = Vec::new();
        let mut names: Vec<String> = Vec::new();
        let idx = self.push_column(current_table, "id", TypeId::Id, None);
        proof {
            reveal_strlit("id");
            let t = views.take(1);
            assert(t.drop_last() =~= Seq::<FieldView>::empty());
            assert(t.last() == views[0]);
            assert(views[0] == ("id"@, TypeId::Id, None::<Seq<char>>));
            assert(load_fields_spec(*ts, t.drop_last(), current_table@, st0, f1) == Some(st0));
            assert(self.state().columns =~= st0.columns.push((current_table@, "id"@, TypeId::Id, None::<Seq<char>>)));
            assert(load_fields_spec(*ts, t, current_table@, st0, f1) == Some(self.state()));
        }
        let id_transform = transform_for(&fp, "id", Ghost(field_policy_names(lv, path@, *ty, KindClass::Transform)));
        let id_keep = keep_for(&fp, "id", Ghost(field_policy_names(lv, path@, *ty, KindClass::Omit)));
        fields.push(QueryField::Scalar {
            name: "id".to_owned(),
            type_id: TypeId::Id,
            is_optional: false,
            column_idx: idx,
            transform: id_transform,
            keep_or_omit: id_keep,
        });
        names.push("id".to_owned());
        proof {
            assert(views.take(0) =~= Seq::<FieldView>::empty());
            assert(views.take(1).drop_last() =~= views.take(0));
            assert(views.take(1).last() == views[0]);
            assert(field_entity(*ts, TypeId::Id) == Some(None::<ObjectType>));
            assert(entity_fields(*ts, views.take(0)) == 0);
            assert(entity_fields(*ts, views.take(1)) == 0);
            assert(field_built(*ts, lv, path@, fields@, joins@, *ty, current_table@, st0, f1, 0));
            assert(fields_built(*ts, lv, path@, fields@, joins@, *ty, current_table@, st0, f1, 0));
            assert(fields_built(*ts, lv, path@, fields@, joins@, *ty, current_table@, st0, f1, 1));
            assert(names_of(names@) =~= ty.all_field_names().take(1));
        }
        let mut i: usize = 0;
        while i < ty.user_fields.len()
            invariant
                ts.wf(),
                ps.wf(),
                fuel > 0,
                f1 == fuel - 1,
                views == field_views(*ty),
                lv == labels_view(ps.labels@),
                st0 == old(self).state(),
                i <= ty.user_fields@.len(),
                load_fields_spec(*ts, views.take(i + 1), current_table@, st0, f1) == Some(self.state()),
                self.allowed_fields == old(self).allowed_fields,
                self.operators == old(self).operators,
                self.base == old(self).base,
                names_of(fp.omit@).to_set() == field_policy_names(lv, path@, *ty, KindClass::Omit),
                fp.transforms@.map_values(|e: (String, Transformation)| e.0@).to_set()
                    == field_policy_names(lv, path@, *ty, KindClass::Transform),
                forall|k: int| 0 <= k < fp.transforms@.len() ==> fp.transforms@[k].1 == Transformation::Anonymize,
                fields@.len() == i + 1,
                joins@.len() == entity_fields(*ts, views.take(i + 1)),
                names_of(names@) == ty.all_field_names().take(i + 1),
                fields_built(*ts, lv, path@, fields@, joins@, *ty, current_table@, st0, f1, (i + 1) as nat),
            decreases ty.user_fields@.len() - i,
        {
            let f = &ty.user_fields[i];
            let ghost t = views.take(i + 2);
            let ghost s1 = self.state();
            let ghost fields0 = fields@;
            let ghost joins0 = joins@;
            let ghost names0 = names@;
            proof {
                assert(t.drop_last() =~= views.take(i + 1));
                assert(t.last() == views[i + 1]);
                assert(views[i + 1] == (f.name@, f.type_id, opt_view(f.default)));
            }
            let transform = transform_for(&fp, f.name.as_str(), Ghost(field_policy_names(lv, path@, *ty, KindClass::Transform)));
            let keep = keep_for(&fp, f.name.as_str(), Ghost(field_policy_names(lv, path@, *ty, KindClass::Omit)));
            let dv = match &f.default {
                Some(d) => Some(d.clone()),
                None => None,
            };
            match entity_of(ts, &f.type_id) {
                Err(e) => {
                    proof {
                        assert(load_fields_spec(*ts, t, current_table@, st0, f1) is None);
                        lemma_load_fields_none_extends(*ts, views, current_table@, st0, f1, i + 2);
                        assert(load_spec(*ts, *ty, current_table@, st0, fuel as nat) is None);
                    }
                    return Err(e);
                },
                Ok(None) => {
                    let idx = self.push_column(current_table, f.name.as_str(), f.type_id.copy(), dv);
                    fields.push(QueryField::Scalar {
                        name: f.name.clone(),
                        type_id: f.type_id.copy(),
                        is_optional: f.is_optional,
                        column_idx: idx,
                        transform,
                        keep_or_omit: keep,
                    });
                    proof {
                        assert(entity_fields(*ts, t) == entity_fields(*ts, views.take(i + 1)));
                        lemma_fields_built_extends(*ts, lv, path@, fields0, joins0, fields@, joins@, *ty,
                            current_table@, st0, f1, (i + 1) as nat);
                        assert(field_optional(*ty, i + 1) == f.is_optional);
                        assert(field_built(*ts, lv, path@, fields@, joins@, *ty, current_table@, st0, f1, i + 1));
                        assert(fields_built(*ts, lv, path@, fields@, joins@, *ty, current_table@, st0, f1, (i + 2) as nat));
                    }
                },
                Ok(Some(nested)) => {
                    if self.join_counter == usize::MAX {
                        proof {
                            assert(load_fields_spec(*ts, t, current_table@, st0, f1) is None);
                            lemma_load_fields_none_extends(*ts, views, current_table@, st0, f1, i + 2);
                            assert(load_spec(*ts, *ty, current_table@, st0, fuel as nat) is None);
                        }
                        return Err("too many joins".to_owned());
                    }
                    let n = u64_to_string(self.join_counter as u64);
                    let raw = string_concat("JOIN", n.as_str()).concat("_").concat(nested.name.as_str())
                        .concat("_TO_").concat(nested.name.as_str());
                    let _len = raw.as_str().as_bytes().len();
                    proof {
                        reveal_strlit("JOIN");
                        reveal_strlit("_");
                        reveal_strlit("_TO_");
                    }
                    let alias = truncate_identifier(raw.as_str()).to_owned();
                    assert(alias@ == join_alias(s1.counter, nested.name@));
                    self.join_counter = self.join_counter + 1;
                    let _ = self.push_column(current_table, f.name.as_str(), f.type_id.copy(), dv);
                    let ghost before_joins = self.state().joins;
                    self.join_lines.push(JoinLine {
                        table: nested.backing_table.clone(),
                        alias: alias.clone(),
                        parent: current_table.to_owned(),
                        lkey: f.name.clone(),
                        rkey: "id".to_owned(),
                    });
                    proof {
                        assert(self.state().joins =~= before_joins.push((nested.backing_table@, alias@, current_table@, f.name@, "id"@)));
                    }
                    let ghost s2 = PlanState {
                        columns: s1.columns.push((current_table@, f.name@, f.type_id, opt_view(f.default))),
                        joins: s1.joins.push((nested.backing_table@, alias@, current_table@, f.name@, "id"@)),
                        counter: s1.counter + 1,
                    };
                    proof {
                        assert(self.state().columns =~= s2.columns);
                        assert(self.state() == s2);
                        assert(load_fields_spec(*ts, t, current_table@, st0, f1) == load_spec(*ts, *nested, alias@, s2, f1));
                    }
                    match self.load_entity_recursive(ts, ps, user_id, path, nested, alias.as_str(), fuel - 1) {
                        Err(e) => {
                            proof {
                                lemma_load_fields_none_extends(*ts, views, current_table@, st0, f1, i + 2);
                            }
                            return Err(e);
                        },
                        Ok(child) => {
                            proof {
                                assert(tree_spec(*ts, lv, path@, child, *nested, alias@, s2, f1));
                            }
                            joins.push((f.name.clone(), Join { entity: child, lkey: f.name.clone(), rkey: "id".to_owned() }));
                        },
                    }
                    fields.push(QueryField::Entity { name: f.name.clone(), is_optional: f.is_optional, transform, keep_or_omit: keep });
                    proof {
                        assert(entity_fields(*ts, t) == entity_fields(*ts, views.take(i + 1)) + 1);
                        lemma_fields_built_extends(*ts, lv, path@, fields0, joins0, fields@, joins@, *ty,
                            current_table@, st0, f1, (i + 1) as nat);
                        assert(field_optional(*ty, i + 1) == f.is_optional);
                        assert(joins@[joins0.len() as int].1.rkey@ == "id"@);
                        assert(field_built(*ts, lv, path@, fields@, joins@, *ty, current_table@, st0, f1, i + 1));
                        assert(fields_built(*ts, lv, path@, fields@, joins@, *ty, current_table@, st0, f1, (i + 2) as nat));
                    }
                },
            }
            names.push(f.name.clone());
            proof {
                assert(names_of(names@) =~= names_of(names0).push(f.name@));
                assert(ty.all_field_names().take(i + 2) =~= ty.all_field_names().take(i + 1).push(f.name@));
            }
            i = i + 1;
        }
        proof {
            assert(views.take(ty.user_fields@.len() as int + 1) =~= views);
            assert(ty.all_field_names().take(ty.user_fields@.len() as int + 1) =~= ty.all_field_names());
            assert(load_spec(*ts, *ty, current_table@, st0, fuel as nat) == load_fields_spec(*ts, views, current_table@, st0, f1));
        }
        let e = QueriedEntity { fields, ty_name: ty.name.clone(), field_names: names, table_alias: current_table.to_owned(), joins };
        proof {
            lemma_tree_spec_intro(*ts, lv, path@, e, *ty, current_table@, st0, fuel as nat, f1);
        }
        Ok(e)
    }
}

fn transform_for(fp: &FieldPolicies, name: &str, Ghost(set): Ghost<Set<Seq<char>>>) -> (r: Option<Transformation>)
    requires
        fp.transforms@.map_values(|e: (String, Transformation)| e.0@).to_set() == set,
        forall|k: int| 0 <= k < fp.transforms@.len() ==> fp.transforms@[k].1 == Transformation::Anonymize,
    ensures
        r == (if set.contains(name@) { Some(Transformation::Anonymize) } else { None }),
{
    let r = transform_of(&fp.transforms, name);
    proof {
        let keys = fp.transforms@.map_values(|e: (String, Transformation)| e.0@);
        if set.contains(name@) {
            assert(keys.contains(name@));
            let i = choose|i: int| 0 <= i < keys.len() && keys[i] == name@;
            assert(fp.transforms@[i].0@ == name@);
        }
        if r is Some {
            let i = choose|i: int| 0 <= i < fp.transforms@.len() && (#[trigger] fp.transforms@[i]).0@ == name@
                && fp.transforms@[i].1 == r->0;
            assert(keys[i] == name@);
            assert(keys.contains(name@));
        }
    }
    r
}

fn keep_for(fp: &FieldPolicies, name: &str, Ghost(set): Ghost<Set<Seq<char>>>) -> (r: KeepOrOmitField)
    requires
        names_of(fp.omit@).to_set() == set,
    ensures
        r == (if set.contains(name@) { KeepOrOmitField::Omit } else { KeepOrOmitField::Keep }),
{
    let c = contains_str(&fp.omit, name);
    proof {
        let ns = names_of(fp.omit@);
        if set.contains(name@) {
            assert(ns.contains(name@));
            let i = choose|i: int| 0 <= i < ns.len() && ns[i] == name@;
            assert(fp.omit@[i]@ == name@);
        }
        if c {
            let i = choose|i: int| 0 <= i < fp.omit@.len() && (#[trigger] fp.omit@[i])@ == name@;
            assert(ns[i] == name@);
            assert(ns.contains(name@));
        }
    }
    if c { KeepOrOmitField::Omit } else { KeepOrOmitField::Keep }
}

proof fn lemma_load_fields_none_extends(ts: TypeSystem, views: Seq<FieldView>, table: Seq<char>, st: PlanState, fuel: nat, k: int)
    requires
        0 <= k <= views.len(),
        load_fields_spec(ts, views.take(k), table, st, fuel) is None,
    ensures
        load_fields_spec(ts, views, table, st, fuel) is None,
    decreases views.len() - k,
{
    if k < views.len() {
        assert(views.take(k + 1).drop_last() =~= views.take(k));
        lemma_load_fields_none_extends(ts, views, table, st, fuel, k + 1);
    } else {
        assert(views.take(k) =~= views);
    }
}

/// `e` addresses a property of the query's parameter through the chain of
/// field names `names` (outermost first).
pub open spec fn is_chain(e: Expr, names: Seq<Seq<char>>) -> bool
    decreases names.len(),
{
    if names.len() == 0 {
        e == Expr::Parameter { position: 0 }
    } else {
        e matches Expr::Property(pa) && pa.property@ == names.last() && is_chain(*pa.object, names.drop_last())
    }
}

/// `op` filters for the property at `names` being equal to the text `user`.
pub open spec fn is_login_filter(op: QueryOp, names: Seq<Seq<char>>, user: Seq<char>) -> bool {
    match op {
        QueryOp::Filter { expression } => match expression {
            Expr::Binary(b) => b.op == BinaryOp::Eq && is_chain(*b.left, names) && match *b.right {
                Expr::Value { value } => match value {
                    Value::String(u) => u@ == user,
                    _ => false,
                },
                _ => false,
            },
            _ => false,
        },
        _ => false,
    }
}

/// The text a login filter compares with: the user's id, or `NULL` when no
/// user is logged in.
pub open spec fn login_value(user_id: Option<String>) -> Seq<char> {
    match user_id {
        Some(u) => u@,
        None => "NULL"@,
    }
}

/// The property chains that login filters restrict in entity `ty` reached
/// through `chain`: each field holding the user entity that a `MatchLogin`
/// policy covers, and those found in the other entities the fields hold;
/// `None` when an entity is unknown or the nesting runs deeper than `fuel`.
pub open spec fn login_spec(ts: TypeSystem, labels: Map<Seq<char>, (Kind, Seq<char>)>, path: Seq<char>, ty: ObjectType,
    chain: Seq<Seq<char>>, fuel: nat) -> Option<Seq<Seq<Seq<char>>>>
    decreases fuel, 0nat,
{
    if fuel == 0 {
        None
    } else {
        login_fields_spec(ts, labels, path, ty, ty.user_fields@, chain, (fuel - 1) as nat)
    }
}

/// The login-restricted chains found in `fields` of entity `ty`.
pub open spec fn login_fields_spec(ts: TypeSystem, labels: Map<Seq<char>, (Kind, Seq<char>)>, path: Seq<char>, ty: ObjectType,
    fields: Seq<Field>, chain: Seq<Seq<char>>, fuel: nat) -> Option<Seq<Seq<Seq<char>>>>
    decreases fuel, fields.len(),
{
    if fields.len() == 0 {
        Some(Seq::empty())
    } else {
        match login_fields_spec(ts, labels, path, ty, fields.drop_last(), chain, fuel) {
            None => None,
            Some(prev) => {
                let f = fields.last();
                match field_entity(ts, f.type_id) {
                    None => None,
                    Some(None) => Some(prev),
                    Some(Some(nested)) => if nested.name@ == "AuthUser"@ {
                        if field_policy_names(labels, path, ty, KindClass::MatchLogin).contains(f.name@) {
                            Some(prev.push(chain.push(f.name@)))
                        } else {
                            Some(prev)
                        }
                    } else {
                        match login_spec(ts, labels, path, nested, chain.push(f.name@), fuel) {
                            None => None,
                            Some(sub) => Some(prev + sub),
                        }
                    },
                }
            },
        }
    }
}

/// The operators `new` are `old` followed by one login filter per chain.
pub open spec fn login_ops(old_ops: Seq<QueryOp>, new_ops: Seq<QueryOp>, chains: Seq<Seq<Seq<char>>>, user: Seq<char>) -> bool {
    &&& new_ops.len() == old_ops.len() + chains.len()
    &&& forall|k: int| 0 <= k < old_ops.len() ==> new_ops[k] == old_ops[k]
    &&& forall|j: int| 0 <= j < chains.len() ==> is_login_filter(#[trigger] new_ops[old_ops.len() + j], chains[j], user)
}

proof fn lemma_login_fields_none_extends(ts: TypeSystem, labels: Map<Seq<char>, (Kind, Seq<char>)>, path: Seq<char>, ty: ObjectType,
    fields: Seq<Field>, chain: Seq<Seq<char>>, fuel: nat, k: int)
    requires
        0 <= k <= fields.len(),
        login_fields_spec(ts, labels, path, ty, fields.take(k), chain, fuel) is None,
    ensures
        login_fields_spec(ts, labels, path, ty, fields, chain, fuel) is None,
    decreases fields.len() - k,
{
    if k < fields.len() {
        assert(fields.take(k + 1).drop_last() =~= fields.take(k));
        lemma_login_fields_none_extends(ts, labels, path, ty, fields, chain, fuel, k + 1);
    } else {
        assert(fields.take(k) =~= fields);
    }
}

impl QueryPlan {
    fn add_login_filters_recursive(
        &mut self,
        ts: &TypeSystem,
        ps: &PolicySystem,
        user_id: &Option<String>,
        path: &str,
        ty: &ObjectType,
        chain: Expr,
        Ghost(names): Ghost<Seq<Seq<char>>>,
        fuel: usize,
    ) -> (r: Result<(), String>)
        requires
            ts.wf(),
            ps.wf(),
            is_chain(chain, names),
        ensures
            match login_spec(*ts, labels_view(ps.labels@), path@, *ty, names, fuel as nat) {
                None => r is Err,
                Some(chains) => r is Ok && login_ops(old(self).operators@, final(self).operators@, chains, login_value(*user_id)),
            },
            final(self).state() == old(self).state(),
            final(self).allowed_fields == old(self).allowed_fields,
            final(self).base == old(self).base,
        decreases fuel,
    {
        if fuel == 0 {
            return Err("entity nesting too deep".to_owned());
        }
        let fp = ps.make_field_policies(user_id, path, ty);
        let ghost lv = labels_view(ps.labels@);
        let ghost fields = ty.user_fields@;
        let ghost f1 = (fuel - 1) as nat;
        let ghost ops0 = self.operators@;
        let user_text: String = match user_id {
            Some(u) => u.clone(),
            None => "NULL".to_owned(),
        };
        assert(user_text@ == login_value(*user_id));
        let mut i: usize = 0;
        assert(fields.take(0) =~= Seq::<Field>::empty());
        assert(login_ops(ops0, self.operators@, Seq::empty(), login_value(*user_id)));
        while i < ty.user_fields.len()
            invariant
                ts.wf(),
                ps.wf(),
                fuel > 0,
                f1 == fuel - 1,
                lv == labels_view(ps.labels@),
                fields == ty.user_fields@,
                ops0 == old(self).operators@,
                is_chain(chain, names),
                user_text@ == login_value(*user_id),
                names_of(fp.match_login@).to_set() == field_policy_names(lv, path@, *ty, KindClass::MatchLogin),
                i <= fields.len(),
                login_fields_spec(*ts, lv, path@, *ty, fields.take(i as int), names, f1) is Some,
                login_ops(ops0, self.operators@, login_fields_spec(*ts, lv, path@, *ty, fields.take(i as int), names, f1)->0, login_value(*user_id)),
                self.state() == old(self).state(),
                self.allowed_fields == old(self).allowed_fields,
                self.base == old(self).base,
            decreases fields.len() - i,
        {
            let f = &ty.user_fields[i];
            let ghost t = fields.take(i + 1);
            let ghost prev = login_fields_spec(*ts, lv, path@, *ty, fields.take(i as int), names, f1)->0;
            let ghost ops_before = self.operators@;
            proof {
                assert(t.drop_last() =~= fields.take(i as int));
                assert(t.last() == fields[i as int]);
            }
            match entity_of(ts, &f.type_id) {
                Err(e) => {
                    proof {
                        assert(login_fields_spec(*ts, lv, path@, *ty, t, names, f1) is None);
                        lemma_login_fields_none_extends(*ts, lv, path@, *ty, fields, names, f1, i + 1);
                    }
                    return Err(e);
                },
                Ok(None) => {
                    assert(login_fields_spec(*ts, lv, path@, *ty, t, names, f1) == Some(prev));
                },
                Ok(Some(nested)) => {
                    let access = Expr::Property(PropertyAccess { property: f.name.clone(), object: Box::new(chain.copy()) });
                    let ghost chain2 = names.push(f.name@);
                    proof {
                        assert(chain2.drop_last() =~= names);
                        assert(is_chain(access, chain2));
                    }
                    if str_eq(nested.name.as_str(), "AuthUser") {
                        if contains_str(&fp.match_login, f.name.as_str()) {
                            proof {
                                let w = choose|q: int| 0 <= q < fp.match_login@.len() && (#[trigger] fp.match_login@[q])@ == f.name@;
                                assert(names_of(fp.match_login@)[w] == f.name@);
                                assert(names_of(fp.match_login@).to_set().contains(f.name@));
                            }
                            let value = Expr::Value { value: Value::String(user_text.clone()) };
                            let expr = BinaryExpr::eq(access, value);
                            self.operators.push(QueryOp::Filter { expression: expr });
                            proof {
                                assert(login_fields_spec(*ts, lv, path@, *ty, t, names, f1) == Some(prev.push(chain2)));
                                assert(is_login_filter(self.operators@[ops0.len() + prev.len() as int], chain2, login_value(*user_id)));
                                assert forall|j: int| 0 <= j < prev.push(chain2).len() implies
                                    is_login_filter(#[trigger] self.operators@[ops0.len() + j], prev.push(chain2)[j], login_value(*user_id)) by {
                                    if j < prev.len() {
                                        assert(self.operators@[ops0.len() + j] == ops_before[ops0.len() + j]);
                                    }
                                }
                            }
                        } else {
                            proof {
                                if field_policy_names(lv, path@, *ty, KindClass::MatchLogin).contains(f.name@) {
                                    assert(names_of(fp.match_login@).to_set().contains(f.name@));
                                    let w = choose|q: int| 0 <= q < names_of(fp.match_login@).len() && names_of(fp.match_login@)[q] == f.name@;
                                    assert(fp.match_login@[w]@ == f.name@);
                                }
                            }
                            assert(login_fields_spec(*ts, lv, path@, *ty, t, names, f1) == Some(prev));
                        }
                    } else {
                        match self.add_login_filters_recursive(ts, ps, user_id, path, nested, access, Ghost(chain2), fuel - 1) {
                            Err(e) => {
                                proof {
                                    assert(login_fields_spec(*ts, lv, path@, *ty, t, names, f1) is None);
                                    lemma_login_fields_none_extends(*ts, lv, path@, *ty, fields, names, f1, i + 1);
                                }
                                return Err(e);
                            },
                            Ok(()) => {
                                proof {
                                    let sub = login_spec(*ts, lv, path@, *nested, chain2, f1)->0;
                                    assert(login_fields_spec(*ts, lv, path@, *ty, t, names, f1) == Some(prev + sub));
                                    assert forall|j: int| 0 <= j < (prev + sub).len() implies
                                        is_login_filter(#[trigger] self.operators@[ops0.len() + j], (prev + sub)[j], login_value(*user_id)) by {
                                        if j < prev.len() {
                                            assert(self.operators@[ops0.len() + j] == ops_before[ops0.len() + j]);
                                        } else {
                                            assert(self.operators@[ops_before.len() + (j - prev.len())] == self.operators@[ops0.len() + j]);
                                        }
                                    }
                                    assert forall|k: int| 0 <= k < ops0.len() implies self.operators@[k] == ops0[k] by {
                                        assert(self.operators@[k] == ops_before[k]);
                                    }
                                }
                            },
                        }
                    }
                },
            }
            i = i + 1;
        }
        proof {
            assert(fields.take(fields.len() as int) =~= fields);
        }
        Ok(())
    }
}

/// How a column is selected: its value (or its default, when it has one and
/// the value is NULL), named by its alias, and a trailing comma.
pub open spec fn column_sql(c: ColumnView) -> Seq<char> {
    let (t, n, ty, d) = c;
    match d {
        Some(dfl) => {
            let v = if ty == TypeId::String { "'"@ + dfl + "'"@ } else { dfl };
            "coalesce(\""@ + t + "\".\""@ + n + "\","@ + v + ") AS \""@ + t + "_"@ + n + "\","@
        },
        None => "\""@ + t + "\".\""@ + n + "\" AS \""@ + t + "_"@ + n + "\","@,
    }
}

/// The selections of all the columns, one after another.
pub open spec fn columns_text(cols: Seq<ColumnView>) -> Seq<char>
    decreases cols.len(),
{
    if cols.len() == 0 {
        Seq::empty()
    } else {
        columns_text(cols.drop_last()) + column_sql(cols.last())
    }
}

/// The column list of a `SELECT`: the selections without the last comma.
pub open spec fn columns_sql(cols: Seq<ColumnView>) -> Seq<char> {
    let t = columns_text(cols);
    if t.len() == 0 { t } else { t.drop_last() }
}

/// A `LEFT JOIN` line.
pub open spec fn join_sql(j: JoinView) -> Seq<char> {
    let (table, alias, parent, lkey, rkey) = j;
    "LEFT JOIN \""@ + table + "\" AS \""@ + alias + "\" ON \""@ + parent + "\".\""@ + lkey
        + "\"=\""@ + alias + "\".\""@ + rkey + "\"\n"@
}

/// The `LEFT JOIN` lines of all the joins.
pub open spec fn joins_sql(joins: Seq<JoinView>) -> Seq<char>
    decreases joins.len(),
{
    if joins.len() == 0 {
        Seq::empty()
    } else {
        joins_sql(joins.drop_last()) + join_sql(joins.last())
    }
}

/// The innermost `SELECT` of a plan: its columns from the base table, with
/// its joins.
pub open spec fn core_select_sql(st: PlanState, base_table: Seq<char>) -> Seq<char> {
    "SELECT "@ + columns_sql(st.columns) + " FROM \""@ + base_table + "\" "@ + joins_sql(st.joins)
}

impl QueryPlan {
    fn make_column_string(&self) -> (r: String)
        ensures
            r@ == columns_sql(self.state().columns),
    {
        let ghost cols = self.state().columns;
        let mut out = String::new();
        let mut i: usize = 0;
        proof {
            reveal_strlit("coalesce(\"");
            reveal_strlit("\".\"");
            reveal_strlit("\",");
            reveal_strlit(") AS \"");
            reveal_strlit("_");
            reveal_strlit("'");
            reveal_strlit("\" AS \"");
            reveal_strlit("\"");
        }
        assert(cols.take(0) =~= Seq::<ColumnView>::empty());
        while i < self.columns.len()
            invariant
                cols == self.state().columns,
                i <= cols.len(),
                out@ == columns_text(cols.take(i as int)),
            decreases cols.len() - i,
        {
            let c = &self.columns[i];
            let ghost t = cols.take(i + 1);
            assert(t.drop_last() =~= cols.take(i as int));
            assert(t.last() == cols[i as int]);
            let piece = match &c.default {
                Some(dfl) => {
                    let v = match c.type_id {
                        TypeId::String => string_concat("'", dfl.as_str()).concat("'"),
                        _ => dfl.clone(),
                    };
                    let p = string_concat("coalesce(\"", c.table_name.as_str()).concat("\".\"").concat(c.name.as_str());
                    let p = p.concat("\",").concat(v.as_str()).concat(") AS \"").concat(c.table_name.as_str());
                    p.concat("_").concat(c.name.as_str()).concat("\",")
                },
                None => {
                    let p = string_concat("\"", c.table_name.as_str()).concat("\".\"").concat(c.name.as_str());
                    let p = p.concat("\" AS \"").concat(c.table_name.as_str()).concat("_");
                    p.concat(c.name.as_str()).concat("\",")
                },
            };
            assert(piece@ == column_sql(cols[i as int]));
            out = out.concat(piece.as_str());
            i = i + 1;
        }
        assert(cols.take(cols.len() as int) =~= cols);
        let v = crate::text::chars_of(out.as_str());
        let n = v.len();
        if n > 0 {
            let w = crate::migrate::sub_chars(&v, 0, n - 1);
            assert(w@ =~= out@.drop_last());
            crate::text::string_of_chars(&w)
        } else {
            out
        }
    }

    fn make_join_string(&self) -> (r: String)
        ensures
            r@ == joins_sql(self.state().joins),
    {
        let ghost js = self.state().joins;
        let mut out = String::new();
        let mut i: usize = 0;
        proof {
            reveal_strlit("LEFT JOIN \"");
            reveal_strlit("\" AS \"");
            reveal_strlit("\" ON \"");
            reveal_strlit("\".\"");
            reveal_strlit("\"=\"");
            reveal_strlit("\"\n");
        }
        assert(js.take(0) =~= Seq::<JoinView>::empty());
        while i < self.join_lines.len()
            invariant
                js == self.state().joins,
                i <= js.len(),
                out@ == joins_sql(js.take(i as int)),
            decreases js.len() - i,
        {
            let j = &self.join_lines[i];
            let ghost t = js.take(i + 1);
            assert(t.drop_last() =~= js.take(i as int));
            assert(t.last() == js[i as int]);
            let p = string_concat("LEFT JOIN \"", j.table.as_str()).concat("\" AS \"").concat(j.alias.as_str());
            let p = p.concat("\" ON \"").concat(j.parent.as_str()).concat("\".\"").concat(j.lkey.as_str());
            let p = p.concat("\"=\"").concat(j.alias.as_str()).concat("\".\"").concat(j.rkey.as_str()).concat("\"\n");
            assert(p@ == join_sql(js[i as int]));
            out = out.concat(p.as_str());
            i = i + 1;
        }
        assert(js.take(js.len() as int) =~= js);
        out
    }
}

/// The decimal text of a signed number.
pub open spec fn signed_decimal(n: int) -> Seq<char> {
    if n < 0 {
        "-"@ + decimal((-n) as nat)
    } else {
        decimal(n as nat)
    }
}

pub(crate) fn i64_to_string(n: i64) -> (r: String)
    ensures
        r@ == signed_decimal(n as int),
{
    if n < 0 {
        let m: u64 = (0i128 - (n as i128)) as u64;
        proof {
            reveal_strlit("-");
        }
        string_concat("-", u64_to_string(m).as_str())
    } else {
        u64_to_string(n as u64)
    }
}

/// The SQL text of a literal value. A floating-point number keeps the
/// decimal text it was given in.
pub open spec fn value_sql(v: Value) -> Seq<char> {
    match v {
        Value::Bool(b) => if b { "true"@ } else { "false"@ },
        Value::U64(n) => decimal(n as nat),
        Value::I64(n) => signed_decimal(n as int),
        Value::F64(t) => t@,
        Value::String(s) => sql_quoted(s@),
        Value::Null => "NULL"@,
    }
}

fn value_to_sql(v: &Value) -> (r: String)
    ensures
        r@ == value_sql(*v),
{
    match v {
        Value::Bool(b) => if *b { "true".to_owned() } else { "false".to_owned() },
        Value::U64(n) => u64_to_string(*n),
        Value::I64(n) => i64_to_string(*n),
        Value::F64(t) => t.clone(),
        Value::String(s) => escape_string(s.as_str()),
        Value::Null => "NULL".to_owned(),
    }
}

/// The field names of a property access, outermost first; `None` when the
/// chain does not start at the query's parameter.
pub open spec fn prop_chain(pa: PropertyAccess) -> Option<Seq<Seq<char>>>
    decreases pa,
{
    match *pa.object {
        Expr::Property(obj) => match prop_chain(obj) {
            Some(ns) => Some(ns.push(pa.property@)),
            None => None,
        },
        Expr::Parameter { .. } => Some(seq![pa.property@]),
        _ => None,
    }
}

/// The position of the join held by field `f` (the number of joins if none).
pub open spec fn join_index(js: Seq<(String, Join)>, f: Seq<char>) -> int
    decreases js.len(),
{
    if js.len() == 0 {
        0
    } else if js[0].0@ == f {
        0
    } else {
        1 + join_index(js.drop_first(), f)
    }
}

/// The column alias that a chain of field names reaches from entity `e`:
/// each name but the last must hold a joined entity, and each must be a
/// field of the entity it is looked up in.
pub open spec fn resolve_chain(e: QueriedEntity, names: Seq<Seq<char>>) -> Option<Seq<char>>
    decreases names.len(),
{
    if names.len() == 0 {
        None
    } else if !has_name(e.field_names@, names[0]) {
        None
    } else if names.len() == 1 {
        Some(e.table_alias@ + "_"@ + names[0])
    } else {
        let k = join_index(e.joins@, names[0]);
        if 0 <= k < e.joins@.len() {
            resolve_chain(e.joins@[k].1.entity, names.drop_first())
        } else {
            None
        }
    }
}

/// The SQL text of a filter expression over the entity `e`; `None` when a
/// property chain does not resolve or a parameter stands alone.
pub open spec fn expr_sql(e: QueriedEntity, x: Expr) -> Option<Seq<char>>
    decreases x,
{
    match x {
        Expr::Value { value } => Some(value_sql(value)),
        Expr::Binary(b) => match (expr_sql(e, *b.left), expr_sql(e, *b.right)) {
            (Some(l), Some(r)) => Some("("@ + l + " "@ + b.op.sql() + " "@ + r + ")"@),
            _ => None,
        },
        Expr::Property(pa) => match prop_chain(pa) {
            Some(ns) => match resolve_chain(e, ns) {
                Some(a) => Some("\""@ + a + "\""@),
                None => None,
            },
            None => None,
        },
        Expr::Parameter { .. } => None,
        Expr::Not(inner) => match expr_sql(e, *inner) {
            Some(i) => Some("NOT ("@ + i + ")"@),
            None => None,
        },
    }
}

fn get_property_chain(pa: &PropertyAccess) -> (r: Result<Vec<String>, String>)
    ensures
        match prop_chain(*pa) {
            Some(ns) => r matches Ok(v) && v@.map_values(|s: String| s@) == ns,
            None => r is Err,
        },
    decreases pa,
{
    match &*pa.object {
        Expr::Property(obj) => match get_property_chain(obj) {
            Ok(mut v) => {
                let ghost before = v@.map_values(|s: String| s@);
                v.push(pa.property.clone());
                assert(v@.map_values(|s: String| s@) =~= before.push(pa.property@));
                Ok(v)
            },
            Err(e) => Err(e),
        },
        Expr::Parameter { .. } => {
            let mut v: Vec<String> = Vec::new();
            v.push(pa.property.clone());
            assert(v@.map_values(|s: String| s@) =~= seq![pa.property@]);
            Ok(v)
        },
        _ => Err("unexpected expression in property chain!".to_owned()),
    }
}

pub proof fn lemma_join_index(js: Seq<(String, Join)>, f: Seq<char>)
    ensures
        0 <= join_index(js, f) <= js.len(),
        join_index(js, f) < js.len() ==> js[join_index(js, f)].0@ == f,
    decreases js.len(),
{
    if js.len() > 0 && js[0].0@ != f {
        lemma_join_index(js.drop_first(), f);
        let k = join_index(js.drop_first(), f);
        if k < js.drop_first().len() {
            assert(js[k + 1] == js.drop_first()[k]);
        }
    }
}

fn find_join<'a>(js: &'a Vec<(String, Join)>, f: &str) -> (r: Option<&'a Join>)
    ensures
        0 <= join_index(js@, f@) <= js@.len(),
        join_index(js@, f@) < js@.len() ==> (r matches Some(j) && *j == js@[join_index(js@, f@)].1),
        join_index(js@, f@) == js@.len() ==> r is None,
{
    proof { lemma_join_index(js@, f@); }
    let mut i: usize = 0;
    assert(js@.skip(0) =~= js@);
    while i < js.len()
        invariant
            i <= js@.len(),
            join_index(js@, f@) == i + join_index(js@.skip(i as int), f@),
        decreases js@.len() - i,
    {
        assert(js@.skip(i as int)[0] == js@[i as int]);
        if str_eq(js[i].0.as_str(), f) {
            return Some(&js[i].1);
        }
        assert(js@.skip(i as int).drop_first() =~= js@.skip(i + 1));
        i = i + 1;
    }
    None
}

fn resolve_alias(entity: &QueriedEntity, names: &Vec<String>) -> (r: Result<String, String>)
    ensures
        match resolve_chain(*entity, names@.map_values(|s: String| s@)) {
            Some(a) => r matches Ok(s) && s@ == a,
            None => r is Err,
        },
{
    let ghost all = names@.map_values(|s: String| s@);
    if names.len() == 0 {
        return Err("expression error: empty property chain".to_owned());
    }
    let mut cur: &QueriedEntity = entity;
    let mut i: usize = 0;
    assert(all.skip(0) =~= all);
    loop
        invariant
            all == names@.map_values(|s: String| s@),
            i < names@.len(),
            resolve_chain(*entity, all) == resolve_chain(*cur, all.skip(i as int)),
        decreases names@.len() - i,
    {
        let f = names[i].as_str();
        let ghost rest = all.skip(i as int);
        assert(rest[0] == f@);
        if !contains_str(&cur.field_names, f) {
            let m = string_concat("expression error: entity '", cur.ty_name.as_str()).concat("' doesn't have field '");
            return Err(m.concat(f).concat("'"));
        }
        if i == names.len() - 1 {
            proof {
                reveal_strlit("_");
            }
            return Ok(string_concat(cur.table_alias.as_str(), "_").concat(f));
        }
        match find_join(&cur.joins, f) {
            None => {
                return Err(string_concat("expression error: unable to locate joined entity on field ", f));
            },
            Some(j) => {
                assert(rest.drop_first() =~= all.skip(i + 1));
                cur = &j.entity;
                i = i + 1;
            },
        }
    }
}

/// The `WHERE` clause of a filter, or nothing without one.
pub open spec fn filter_clause(e: QueriedEntity, f: Option<Expr>) -> Option<Seq<char>> {
    match f {
        None => Some(Seq::empty()),
        Some(x) => match expr_sql(e, x) {
            Some(s) => Some("WHERE "@ + s),
            None => None,
        },
    }
}

impl QueryPlan {
    fn filter_expr_to_string(&self, expr: &Expr) -> (r: Result<String, String>)
        ensures
            match expr_sql(self.entity, *expr) {
                Some(s) => r matches Ok(t) && t@ == s,
                None => r is Err,
            },
        decreases expr,
    {
        match expr {
            Expr::Value { value } => Ok(value_to_sql(value)),
            Expr::Binary(b) => {
                let l = match self.filter_expr_to_string(&b.left) {
                    Ok(l) => l,
                    Err(e) => return Err(e),
                };
                let r = match self.filter_expr_to_string(&b.right) {
                    Ok(r) => r,
                    Err(e) => return Err(e),
                };
                proof {
                    reveal_strlit("(");
                    reveal_strlit(" ");
                    reveal_strlit(")");
                }
                let s = string_concat("(", l.as_str()).concat(" ").concat(b.op.to_sql_string()).concat(" ");
                Ok(s.concat(r.as_str()).concat(")"))
            },
            Expr::Property(pa) => self.property_expr_to_string(pa),
            Expr::Parameter { .. } => Err("unexpected standalone parameter usage".to_owned()),
            Expr::Not(inner) => {
                let i = match self.filter_expr_to_string(inner) {
                    Ok(i) => i,
                    Err(e) => return Err(e),
                };
                proof {
                    reveal_strlit("NOT (");
                    reveal_strlit(")");
                }
                Ok(string_concat("NOT (", i.as_str()).concat(")"))
            },
        }
    }

    fn property_expr_to_string(&self, pa: &PropertyAccess) -> (r: Result<String, String>)
        ensures
            match prop_chain(*pa) {
                Some(ns) => match resolve_chain(self.entity, ns) {
                    Some(a) => r matches Ok(t) && t@ == "\""@ + a + "\""@,
                    None => r is Err,
                },
                None => r is Err,
            },
    {
        let names = match get_property_chain(pa) {
            Ok(v) => v,
            Err(e) => return Err(e),
        };
        let a = match resolve_alias(&self.entity, &names) {
            Ok(a) => a,
            Err(e) => return Err(e),
        };
        proof {
            reveal_strlit("\"");
        }
        Ok(string_concat("\"", a.as_str()).concat("\""))
    }

    fn make_filter_string(&self, expr: &Option<Expr>) -> (r: Result<String, String>)
        ensures
            match filter_clause(self.entity, *expr) {
                Some(s) => r matches Ok(t) && t@ == s,
                None => r is Err,
            },
    {
        match expr {
            Some(x) => match self.filter_expr_to_string(x) {
                Ok(c) => {
                    proof {
                        reveal_strlit("WHERE ");
                    }
                    Ok(string_concat("WHERE ", c.as_str()))
                },
                Err(e) => Err(e),
            },
            None => Ok(String::new()),
        }
    }
}

proof fn lemma_break_prefix(ops: Seq<QueryOp>)
    ensures
        forall|j: int| 0 <= j < first_break(ops) - 1 ==> !(#[trigger] ops[j] is Take) && !(ops[j] is Skip),
    decreases ops.len(),
{
    lemma_first_break_bounds(ops);
    if ops.len() > 0 && !(ops[0] is Take || ops[0] is Skip) {
        lemma_break_prefix(ops.drop_first());
        assert forall|j: int| 0 <= j < first_break(ops) - 1 implies !(#[trigger] ops[j] is Take) && !(ops[j] is Skip) by {
            if j > 0 {
                assert(ops[j] == ops.drop_first()[j - 1]);
            }
        }
    }
}

proof fn lemma_no_takes(s: Seq<QueryOp>)
    requires
        forall|j: int| 0 <= j < s.len() ==> !(#[trigger] s[j] is Take) && !(s[j] is Skip),
    ensures
        count_takes(s) == 0,
        count_skips(s) == 0,
    decreases s.len(),
{
    if s.len() > 0 {
        assert forall|j: int| 0 <= j < s.drop_last().len() implies !(#[trigger] s.drop_last()[j] is Take) && !(s.drop_last()[j] is Skip) by {
            assert(s.drop_last()[j] == s[j]);
        }
        lemma_no_takes(s.drop_last());
        assert(!(s[s.len() - 1] is Take));
    }
}

proof fn lemma_group_counts(ops: Seq<QueryOp>)
    ensures
        count_takes(ops.subrange(0, first_break(ops))) <= 1,
        count_skips(ops.subrange(0, first_break(ops))) <= 1,
{
    lemma_first_break_bounds(ops);
    lemma_break_prefix(ops);
    let g = ops.subrange(0, first_break(ops));
    if g.len() > 0 {
        assert forall|j: int| 0 <= j < g.drop_last().len() implies !(#[trigger] g.drop_last()[j] is Take) && !(g.drop_last()[j] is Skip) by {
            assert(g.drop_last()[j] == ops[j]);
        }
        lemma_no_takes(g.drop_last());
    }
}

/// The `ORDER BY` clause of the last sort of a group of operators, over the
/// base table whose fields are `names`; nothing without a sort, `None` when
/// a sort key names no field.
pub open spec fn sort_clause(table: Seq<char>, names: Seq<Seq<char>>, g: Seq<QueryOp>) -> Option<Seq<char>> {
    let si = last_sort_index(g);
    if si < 0 {
        Some(Seq::empty())
    } else {
        match g[si] {
            QueryOp::SortBy(sb) => if forall|i: int| 0 <= i < sb.keys@.len() ==> names.contains(#[trigger] sb.keys@[i].field_name@) {
                Some("ORDER BY "@ + sort_keys_sql(table, sb.keys@))
            } else {
                None
            },
            _ => None,
        }
    }
}

/// The SQL of a query: `acc` wrapped once per group of operators (each
/// group ending at a `Take` or `Skip`) in a `SELECT` that applies the
/// group's filters, its last sort, and its limit and offset.
pub open spec fn groups_sql(e: QueriedEntity, table: Seq<char>, names: Seq<Seq<char>>, target: TargetDatabase,
    ops: Seq<QueryOp>, acc: Seq<char>) -> Option<Seq<char>>
    decreases ops.len(),
{
    if ops.len() == 0 {
        Some(acc)
    } else {
        proof {
            lemma_first_break_bounds(ops);
        }
        let k = first_break(ops);
        let g = ops.subrange(0, k);
        match filter_clause(e, filters_conjunction(g)) {
            None => None,
            Some(f) => match sort_clause(table, names, g) {
                None => None,
                Some(srt) => groups_sql(e, table, names, target, ops.subrange(k, ops.len() as int),
                    "SELECT * FROM ("@ + acc + ") AS subquery "@ + f + " "@ + srt + " "@
                        + limit_offset_sql(target, take_count(g), skip_count(g))),
            },
        }
    }
}

/// A query ready to run: its SQL, the entity tree its rows are rebuilt
/// with, and the fields the caller asked for (all when `None`).
#[derive(Debug)]
pub struct SqlQuery {
    pub raw_sql: String,
    pub entity: QueriedEntity,
    pub allowed_fields: Option<Vec<String>>,
}

/// The operators without the projections, in order.
pub open spec fn without_projections(ops: Seq<QueryOp>) -> Seq<QueryOp>
    decreases ops.len(),
{
    if ops.len() == 0 {
        Seq::empty()
    } else if ops.last() is Projection {
        without_projections(ops.drop_last())
    } else {
        without_projections(ops.drop_last()).push(ops.last())
    }
}

/// The fields of the last projection, if there is one.
pub open spec fn last_projection(ops: Seq<QueryOp>) -> Option<Seq<Seq<char>>>
    decreases ops.len(),
{
    if ops.len() == 0 {
        None
    } else {
        match ops.last() {
            QueryOp::Projection { fields } => Some(fields@.map_values(|f: String| f@)),
            _ => last_projection(ops.drop_last()),
        }
    }
}

/// The text of the allowed fields, if any.
pub open spec fn allowed_view(a: Option<Vec<String>>) -> Option<Seq<Seq<char>>> {
    match a {
        Some(v) => Some(v@.map_values(|f: String| f@)),
        None => None,
    }
}

/// The empty plan state.
pub open spec fn empty_state() -> PlanState {
    PlanState { columns: Seq::empty(), joins: Seq::empty(), counter: 0 }
}

/// How deep entities may nest in a type system: no deeper than it has
/// entities.
pub open spec fn nesting_fuel(ts: TypeSystem) -> nat {
    (ts.entities@.dom().len() + ts.builtin@.dom().len() + 1) as nat
}

/// The entity named `name` in a type system: a user-defined one first.
pub open spec fn lookup_entity_spec(ts: TypeSystem, name: Seq<char>) -> Option<ObjectType> {
    if ts.entities@.contains_key(name) {
        Some(ts.entities@[name])
    } else if ts.builtin@.contains_key(name) {
        Some(ts.builtin@[name])
    } else {
        None
    }
}

/// What loading entity `ty` into an empty plan yields: the login filters'
/// chains and the plan state; `None` when either fails.
pub open spec fn loaded(ts: TypeSystem, ps: PolicySystem, user_id: Option<String>, path: Seq<char>, ty: ObjectType, fuel: nat)
    -> Option<(Seq<Seq<Seq<char>>>, PlanState)>
{
    match login_spec(ts, labels_view(ps.labels@), path, ty, Seq::empty(), fuel) {
        None => None,
        Some(chains) => match load_spec(ts, ty, ty.backing_table@, empty_state(), fuel) {
            None => None,
            Some(st) => Some((chains, st)),
        },
    }
}

impl QueryPlan {
    /// An empty plan over the base entity `base_type`.
    pub fn new(base_type: &ObjectType) -> (r: Self)
        ensures
            same_type(r.base, *base_type),
            r.state() == empty_state(),
            r.operators@.len() == 0,
            r.allowed_fields is None,
            r.entity.table_alias@ == base_type.backing_table@,
    {
        let r = QueryPlan {
            base: base_type.copy(),
            columns: Vec::new(),
            join_lines: Vec::new(),
            entity: QueriedEntity {
                fields: Vec::new(),
                ty_name: base_type.name.clone(),
                field_names: Vec::new(),
                table_alias: base_type.backing_table.clone(),
                joins: Vec::new(),
            },
            allowed_fields: None,
            join_counter: 0,
            operators: Vec::new(),
        };
        assert(r.state().columns =~= Seq::<ColumnView>::empty());
        assert(r.state().joins =~= Seq::<JoinView>::empty());
        r
    }

    /// A shallow plan that reads every field of `ty` from its own table; the
    /// fields holding entities are read as their keys (strings).
    pub fn from_type(ty: &ObjectType) -> (r: Self)
        ensures
            same_type(r.base, *ty),
            r.state().columns == field_views(*ty).map_values(|f: FieldView|
                (ty.backing_table@, f.0, if f.1 is Entity { TypeId::String } else { f.1 }, f.2)),
            r.state().joins.len() == 0,
            r.operators@.len() == 0,
            r.allowed_fields is None,
    {
        let mut plan = Self::new(ty);
        let ghost target = field_views(*ty).map_values(|f: FieldView|
            (ty.backing_table@, f.0, if f.1 is Entity { TypeId::String } else { f.1 }, f.2));
        let idx = plan.push_column(ty.backing_table.as_str(), "id", TypeId::Id, None);
        plan.entity.fields.push(QueryField::Scalar {
            name: "id".to_owned(),
            type_id: TypeId::Id,
            is_optional: false,
            column_idx: idx,
            transform: None,
            keep_or_omit: KeepOrOmitField::Keep,
        });
        plan.entity.field_names.push("id".to_owned());
        proof {
            reveal_strlit("id");
            assert(plan.state().columns =~= target.take(1));
        }
        let mut i: usize = 0;
        while i < ty.user_fields.len()
            invariant
                i <= ty.user_fields@.len(),
                target == field_views(*ty).map_values(|f: FieldView|
                    (ty.backing_table@, f.0, if f.1 is Entity { TypeId::String } else { f.1 }, f.2)),
                plan.state().columns == target.take(i + 1),
                plan.state().joins.len() == 0,
                plan.operators@.len() == 0,
                plan.allowed_fields is None,
                same_type(plan.base, *ty),
            decreases ty.user_fields@.len() - i,
        {
            let f = &ty.user_fields[i];
            let type_id = match &f.type_id {
                TypeId::Entity { .. } => TypeId::String,
                other => other.copy(),
            };
            let dv = match &f.default {
                Some(d) => Some(d.clone()),
                None => None,
            };
            let ghost before = plan.state().columns;
            let idx = plan.push_column(ty.backing_table.as_str(), f.name.as_str(), type_id.copy(), dv);
            proof {
                assert(field_views(*ty)[i + 1] == (f.name@, f.type_id, opt_view(f.default)));
                assert(target.take(i + 2) =~= target.take(i + 1).push(target[i + 1]));
            }
            plan.entity.fields.push(QueryField::Scalar {
                name: f.name.clone(),
                type_id,
                is_optional: f.is_optional,
                column_idx: idx,
                transform: None,
                keep_or_omit: KeepOrOmitField::Keep,
            });
            plan.entity.field_names.push(f.name.clone());
            i = i + 1;
        }
        assert(target.take(ty.user_fields@.len() as int + 1) =~= target);
        plan
    }

    fn make_core_select(&self) -> (r: String)
        ensures
            r@ == core_select_sql(self.state(), self.base.backing_table@),
    {
        let cols = self.make_column_string();
        let joins = self.make_join_string();
        proof {
            reveal_strlit("SELECT ");
            reveal_strlit(" FROM \"");
            reveal_strlit("\" ");
        }
        let s = string_concat("SELECT ", cols.as_str()).concat(" FROM \"").concat(self.base.backing_table.as_str());
        s.concat("\" ").concat(joins.as_str())
    }

    /// The SQL text of the plan for the given database.
    pub fn make_raw_query(&self, target: TargetDatabase) -> (r: Result<String, String>)
        ensures
            match groups_sql(self.entity, self.base.backing_table@, self.base.all_field_names(), target,
                self.operators@, core_select_sql(self.state(), self.base.backing_table@)) {
                Some(s) => r matches Ok(t) && t@ == s,
                None => r is Err,
            },
    {
        let mut sql = self.make_core_select();
        let mut remaining: &[QueryOp] = self.operators.as_slice();
        let ghost e = self.entity;
        let ghost table = self.base.backing_table@;
        let ghost names = self.base.all_field_names();
        proof {
            reveal_strlit("SELECT * FROM (");
            reveal_strlit(") AS subquery ");
            reveal_strlit(" ");
        }
        while remaining.len() > 0
            invariant
                e == self.entity,
                table == self.base.backing_table@,
                names == self.base.all_field_names(),
                groups_sql(e, table, names, target, self.operators@, core_select_sql(self.state(), table))
                    == groups_sql(e, table, names, target, remaining@, sql@),
            decreases remaining@.len(),
        {
            let ghost rem = remaining@;
            proof {
                lemma_first_break_bounds(rem);
                lemma_group_counts(rem);
                lemma_last_sort_index(rem.subrange(0, first_break(rem)));
            }
            let (ops, rest) = split_on_first_take(remaining);
            let filter = gather_filters(ops);
            let fs = match self.make_filter_string(&filter) {
                Ok(f) => f,
                Err(err) => return Err(err),
            };
            let sort = find_last_sort_by(ops);
            let ss = match make_sort_string(&self.base, sort) {
                Ok(s) => s,
                Err(err) => return Err(err),
            };
            let limit = find_take_count(ops);
            let offset = find_skip_count(ops);
            let lo = make_limit_and_offset_string(target, limit, offset);
            let next = string_concat("SELECT * FROM (", sql.as_str()).concat(") AS subquery ").concat(fs.as_str());
            sql = next.concat(" ").concat(ss.as_str()).concat(" ").concat(lo.as_str());
            remaining = rest;
        }
        Ok(sql)
    }

    /// The query of the plan for the given database.
    pub fn build_query(&self, target: TargetDatabase) -> (r: Result<SqlQuery, String>)
        ensures
            match groups_sql(self.entity, self.base.backing_table@, self.base.all_field_names(), target,
                self.operators@, core_select_sql(self.state(), self.base.backing_table@)) {
                Some(s) => r matches Ok(q) && q.raw_sql@ == s && same_entity(self.entity, q.entity)
                    && allowed_view(q.allowed_fields) == allowed_view(self.allowed_fields),
                None => r is Err,
            },
    {
        match self.make_raw_query(target) {
            Ok(raw_sql) => Ok(SqlQuery { raw_sql, entity: self.entity.copy(), allowed_fields: self.allowed_fields.clone() }),
            Err(e) => Err(e),
        }
    }

    /// Appends operators: projections set the fields returned (the last
    /// one wins), the others apply in order.
    pub fn extend_operators(&mut self, ops: Vec<QueryOp>)
        ensures
            final(self).operators@ == old(self).operators@ + without_projections(ops@),
            allowed_view(final(self).allowed_fields) == match last_projection(ops@) {
                Some(p) => Some(p),
                None => allowed_view(old(self).allowed_fields),
            },
            final(self).state() == old(self).state(),
            final(self).entity == old(self).entity,
            final(self).base == old(self).base,
    {
        let ghost ov = ops@;
        let ghost start = self.operators@;
        let ghost start_allowed = allowed_view(self.allowed_fields);
        let mut rest = ops;
        assert(ov.len() == rest.len());
        let mut i: usize = 0;
        assert(ov.take(0) =~= Seq::<QueryOp>::empty());
        assert(rest@ =~= ov.skip(0));
        while rest.len() > 0
            invariant
                ov.len() <= usize::MAX,
                i + rest@.len() == ov.len(),
                rest@ == ov.skip(i as int),
                self.operators@ == start + without_projections(ov.take(i as int)),
                allowed_view(self.allowed_fields) == match last_projection(ov.take(i as int)) {
                    Some(p) => Some(p),
                    None => start_allowed,
                },
                self.state() == old(self).state(),
                self.entity == old(self).entity,
                self.base == old(self).base,
            decreases rest@.len(),
        {
            let op = rest.remove(0);
            let ghost t = ov.take(i + 1);
            assert(t.drop_last() =~= ov.take(i as int));
            assert(t.last() == ov[i as int]);
            assert(op == ov[i as int]);
            match op {
                QueryOp::Projection { fields } => {
                    self.allowed_fields = Some(fields);
                },
                other => {
                    let ghost before = self.operators@;
                    self.operators.push(other);
                    assert(self.operators@ =~= start + without_projections(t)) by {
                        assert(without_projections(t) == without_projections(ov.take(i as int)).push(ov[i as int]));
                    }
                },
            }
            assert(rest@ =~= ov.skip(i + 1));
            i = i + 1;
        }
        assert(ov.take(ov.len() as int) =~= ov);
    }

    fn load_entity(&mut self, ts: &TypeSystem, ps: &PolicySystem, user_id: &Option<String>, path: &str, ty: &ObjectType, fuel: usize)
        -> (r: Result<QueriedEntity, String>)
        requires
            ts.wf(),
            ps.wf(),
        ensures
            match login_spec(*ts, labels_view(ps.labels@), path@, *ty, Seq::empty(), fuel as nat) {
                None => r is Err,
                Some(chains) => match load_spec(*ts, *ty, ty.backing_table@, old(self).state(), fuel as nat) {
                    None => r is Err,
                    Some(st) => r matches Ok(e) && final(self).state() == st
                        && login_ops(old(self).operators@, final(self).operators@, chains, login_value(*user_id))
                        && tree_spec(*ts, labels_view(ps.labels@), path@, e, *ty, ty.backing_table@, old(self).state(), fuel as nat),
                },
            },
            final(self).allowed_fields == old(self).allowed_fields,
            final(self).base == old(self).base,
    {
        proof {
            assert(is_chain(Expr::Parameter { position: 0 }, Seq::empty()));
        }
        match self.add_login_filters_recursive(ts, ps, user_id, path, ty, Expr::Parameter { position: 0 }, Ghost(Seq::empty()), fuel) {
            Err(e) => return Err(e),
            Ok(()) => {},
        }
        let ghost ops = self.operators@;
        let r = self.load_entity_recursive(ts, ps, user_id, path, ty, ty.backing_table.as_str(), fuel);
        assert(self.operators@ == ops);
        r
    }
}

fn fuel_of(ts: &TypeSystem) -> (r: usize)
    requires
        ts.wf(),
    ensures
        r as nat == nesting_fuel(*ts) || (r == usize::MAX && nesting_fuel(*ts) > usize::MAX),
{
    let a = ts.entities.len();
    let b = ts.builtin.len();
    if a < usize::MAX - b {
        a + b + 1
    } else {
        usize::MAX
    }
}

impl QueryField {
    /// A copy of this field.
    pub fn copy(&self) -> (r: Self)
        ensures
            r == *self,
    {
        match self {
            QueryField::Scalar { name, type_id, is_optional, column_idx, transform, keep_or_omit } => QueryField::Scalar {
                name: name.clone(),
                type_id: type_id.copy(),
                is_optional: *is_optional,
                column_idx: *column_idx,
                transform: *transform,
                keep_or_omit: *keep_or_omit,
            },
            QueryField::Entity { name, is_optional, transform, keep_or_omit } => QueryField::Entity {
                name: name.clone(),
                is_optional: *is_optional,
                transform: *transform,
                keep_or_omit: *keep_or_omit,
            },
        }
    }
}

/// Whether two entity trees hold the same values: the same fields, names
/// and alias, and joins under the same names and keys to trees that hold the
/// same values.
pub open spec fn same_entity(a: QueriedEntity, b: QueriedEntity) -> bool
    decreases a, 1nat, 0nat,
{
    &&& a.fields@ == b.fields@
    &&& a.ty_name == b.ty_name
    &&& a.field_names@ == b.field_names@
    &&& a.table_alias == b.table_alias
    &&& a.joins@.len() == b.joins@.len()
    &&& same_joins(a, b, a.joins@.len())
}

/// Whether the first `n` joins of `a` and `b` have the same names and keys
/// and join trees that hold the same values.
pub open spec fn same_joins(a: QueriedEntity, b: QueriedEntity, n: nat) -> bool
    decreases a, 0nat, n,
{
    if n == 0 || n > a.joins@.len() {
        n == 0
    } else {
        let k = n - 1;
        proof {
            lemma_child_decreases(a, k);
        }
        &&& same_joins(a, b, (n - 1) as nat)
        &&& a.joins@[k].0 == b.joins@[k].0
        &&& a.joins@[k].1.lkey == b.joins@[k].1.lkey
        &&& a.joins@[k].1.rkey == b.joins@[k].1.rkey
        &&& same_entity(a.joins@[k].1.entity, b.joins@[k].1.entity)
    }
}

proof fn lemma_same_joins(a: QueriedEntity, b: QueriedEntity, n: nat)
    requires
        n <= a.joins@.len(),
        a.joins@.len() == b.joins@.len(),
        forall|k: int| 0 <= k < n ==> {
            &&& (#[trigger] b.joins@[k]).0 == a.joins@[k].0
            &&& b.joins@[k].1.lkey == a.joins@[k].1.lkey
            &&& b.joins@[k].1.rkey == a.joins@[k].1.rkey
            &&& same_entity(a.joins@[k].1.entity, b.joins@[k].1.entity)
        },
    ensures
        same_joins(a, b, n),
    decreases n,
{
    if n > 0 {
        lemma_same_joins(a, b, (n - 1) as nat);
        assert(b.joins@[n - 1].0 == a.joins@[n - 1].0);
    }
}

impl QueriedEntity {
    /// A copy of this entity tree.
    pub fn copy(&self) -> (r: Self)
        ensures
            same_entity(*self, r),
        decreases self,
    {
        let mut fields: Vec<QueryField> = Vec::new();
        let mut i: usize = 0;
        while i < self.fields.len()
            invariant
                i <= self.fields@.len(),
                fields@ == self.fields@.take(i as int),
            decreases self.fields@.len() - i,
        {
            fields.push(self.fields[i].copy());
            i = i + 1;
            assert(fields@ =~= self.fields@.take(i as int));
        }
        let mut names: Vec<String> = Vec::new();
        let mut i: usize = 0;
        while i < self.field_names.len()
            invariant
                i <= self.field_names@.len(),
                names@ == self.field_names@.take(i as int),
            decreases self.field_names@.len() - i,
        {
            names.push(self.field_names[i].clone());
            i = i + 1;
            assert(names@ =~= self.field_names@.take(i as int));
        }
        let mut joins: Vec<(String, Join)> = Vec::new();
        let mut i: usize = 0;
        while i < self.joins.len()
            invariant
                i <= self.joins@.len(),
                joins@.len() == i,
                forall|k: int| 0 <= k < i ==> {
                    &&& (#[trigger] joins@[k]).0 == self.joins@[k].0
                    &&& joins@[k].1.lkey == self.joins@[k].1.lkey
                    &&& joins@[k].1.rkey == self.joins@[k].1.rkey
                    &&& same_entity(self.joins@[k].1.entity, joins@[k].1.entity)
                },
            decreases self.joins@.len() - i,
        {
            let (k, j) = &self.joins[i];
            proof {
                broadcast use vstd::std_specs::vec::axiom_vec_index_decreases;
                assert(decreases_to!(self.joins => self.joins@[i as int]));
            }
            let child = j.entity.copy();
            joins.push((k.clone(), Join { entity: child, lkey: j.lkey.clone(), rkey: j.rkey.clone() }));
            i = i + 1;
        }
        assert(fields@ =~= self.fields@);
        assert(names@ =~= self.field_names@);
        let r = QueriedEntity {
            fields,
            ty_name: self.ty_name.clone(),
            field_names: names,
            table_alias: self.table_alias.clone(),
            joins,
        };
        proof {
            lemma_same_joins(*self, r, self.joins@.len());
        }
        r
    }
}

/// The nesting allowed when planning over a type system (capped by the
/// machine word).
pub open spec fn plan_fuel(ts: TypeSystem) -> nat {
    if nesting_fuel(ts) <= usize::MAX { nesting_fuel(ts) } else { usize::MAX as nat }
}

/// The operators of a plan: one login filter per chain, then `extra`.
pub open spec fn plan_ops(ops: Seq<QueryOp>, chains: Seq<Seq<Seq<char>>>, user: Seq<char>, extra: Seq<QueryOp>) -> bool {
    &&& ops.len() == chains.len() + extra.len()
    &&& forall|j: int| 0 <= j < chains.len() ==> is_login_filter(#[trigger] ops[j], chains[j], user)
    &&& forall|k: int| 0 <= k < extra.len() ==> #[trigger] ops[chains.len() + k] == extra[k]
}

/// The message for an entity name that names no entity.
pub open spec fn unknown_entity_message(name: Seq<char>) -> Seq<char> {
    "unable to construct QueryPlan from an unknown entity name `"@ + name + "`"@
}

fn lookup_any_entity<'a>(ts: &'a TypeSystem, name: &str) -> (r: Option<&'a ObjectType>)
    requires
        ts.wf(),
    ensures
        match lookup_entity_spec(*ts, name@) {
            Some(e) => r matches Some(x) && *x == e,
            None => r is None,
        },
{
    match ts.entities.get(name) {
        Some(e) => Some(e),
        None => ts.builtin.get(name),
    }
}

impl QueryPlan {
    /// The plan that reads entity `ty` with the given operators, for a
    /// request of user `user_id` to `path`: login filters first (from the
    /// policies), then the operators.
    pub fn from_ops(ts: &TypeSystem, ps: &PolicySystem, user_id: &Option<String>, path: &str, ty: &ObjectType,
        operators: Vec<QueryOp>) -> (r: Result<QueryPlan, String>)
        requires
            ts.wf(),
            ps.wf(),
        ensures
            match loaded(*ts, *ps, *user_id, path@, *ty, plan_fuel(*ts)) {
                None => r is Err,
                Some((chains, st)) => r matches Ok(p) && p.state() == st && same_type(p.base, *ty)
                    && plan_ops(p.operators@, chains, login_value(*user_id), without_projections(operators@))
                    && allowed_view(p.allowed_fields) == last_projection(operators@)
                    && tree_spec(*ts, labels_view(ps.labels@), path@, p.entity, *ty, ty.backing_table@, empty_state(), plan_fuel(*ts)),
            },
    {
        let fuel = fuel_of(ts);
        let mut plan = Self::new(ty);
        let entity = match plan.load_entity(ts, ps, user_id, path, ty, fuel) {
            Ok(e) => e,
            Err(e) => return Err(e),
        };
        plan.entity = entity;
        let ghost ops0 = plan.operators@;
        plan.extend_operators(operators);
        proof {
            let chains = login_spec(*ts, labels_view(ps.labels@), path@, *ty, Seq::empty(), fuel as nat)->0;
            assert forall|j: int| 0 <= j < chains.len() implies is_login_filter(#[trigger] plan.operators@[j], chains[j], login_value(*user_id)) by {
                assert(plan.operators@[j] == ops0[j]);
                assert(ops0[0 + j] == ops0[j]);
            }
        }
        Ok(plan)
    }

    /// The plan that reads the entity named `entity_name`, for a request of
    /// user `user_id` to `path`.
    pub fn from_entity_name(ts: &TypeSystem, ps: &PolicySystem, user_id: &Option<String>, path: &str, entity_name: &str)
        -> (r: Result<QueryPlan, String>)
        requires
            ts.wf(),
            ps.wf(),
        ensures
            match lookup_entity_spec(*ts, entity_name@) {
                None => r matches Err(e) && e@ == unknown_entity_message(entity_name@),
                Some(ty) => match loaded(*ts, *ps, *user_id, path@, ty, plan_fuel(*ts)) {
                    None => r is Err,
                    Some((chains, st)) => r matches Ok(p) && p.state() == st && same_type(p.base, ty)
                        && plan_ops(p.operators@, chains, login_value(*user_id), Seq::empty())
                        && p.allowed_fields is None
                        && tree_spec(*ts, labels_view(ps.labels@), path@, p.entity, ty, ty.backing_table@, empty_state(), plan_fuel(*ts)),
                },
            },
    {
        let ty = match lookup_any_entity(ts, entity_name) {
            Some(t) => t,
            None => {
                proof {
                    reveal_strlit("unable to construct QueryPlan from an unknown entity name `");
                    reveal_strlit("`");
                }
                return Err(string_concat("unable to construct QueryPlan from an unknown entity name `", entity_name).concat("`"));
            },
        };
        let r = Self::from_ops(ts, ps, user_id, path, ty, Vec::new());
        proof {
            assert(without_projections(Seq::<QueryOp>::empty()) =~= Seq::<QueryOp>::empty());
        }
        r
    }

    /// The plan of an operator chain: the entity at its bottom, read with
    /// its operators.
    pub fn from_op_chain(ts: &TypeSystem, ps: &PolicySystem, user_id: &Option<String>, path: &str, op_chain: QueryOpChain)
        -> (r: Result<QueryPlan, String>)
        requires
            ts.wf(),
            ps.wf(),
        ensures
            ({
                let (name, ops) = chain_ops(op_chain);
                match lookup_entity_spec(*ts, name) {
                    None => r matches Err(e) && e@ == unknown_entity_message(name),
                    Some(ty) => match loaded(*ts, *ps, *user_id, path@, ty, plan_fuel(*ts)) {
                        None => r is Err,
                        Some((chains, st)) => r matches Ok(p) && p.state() == st && same_type(p.base, ty)
                            && plan_ops(p.operators@, chains, login_value(*user_id), without_projections(ops))
                            && allowed_view(p.allowed_fields) == last_projection(ops)
                            && tree_spec(*ts, labels_view(ps.labels@), path@, p.entity, ty, ty.backing_table@, empty_state(), plan_fuel(*ts)),
                    },
                }
            }),
    {
        let (name, ops) = match convert_ops(op_chain) {
            Ok(x) => x,
            Err(e) => return Err(e),
        };
        let ty = match lookup_any_entity(ts, name.as_str()) {
            Some(t) => t,
            None => {
                proof {
                    reveal_strlit("unable to construct QueryPlan from an unknown entity name `");
                    reveal_strlit("`");
                }
                return Err(string_concat("unable to construct QueryPlan from an unknown entity name `", name.as_str()).concat("`"));
            },
        };
        Self::from_ops(ts, ps, user_id, path, ty, ops)
    }
}

/// A statement that changes stored data: a delete of the rows of
/// `base_entity` that the plan selects.
#[derive(Debug)]
pub struct Mutation {
    pub base_entity: ObjectType,
    pub filter_query_plan: QueryPlan,
}

/// The statement that deletes the rows of `base_table` whose ids the query
/// `select_sql` selects.
pub open spec fn delete_sql(base_table: Seq<char>, select_sql: Seq<char>) -> Seq<char> {
    "DELETE FROM \""@ + base_table + "\"\n                WHERE \"id\" IN (\n                    SELECT \""@
        + base_table + "_id\" FROM ("@ + select_sql + ") as subquery\n                )"@
}

impl Mutation {
    /// The delete of the rows of type `ty_name` that `filter_expr` selects
    /// (all rows without a filter); only an entity type can be deleted from.
    pub fn delete_from_expr(ts: &TypeSystem, ps: &PolicySystem, user_id: &Option<String>, path: &str, ty_name: &str,
        filter_expr: &Option<Expr>) -> (r: Result<Mutation, String>)
        requires
            ts.wf(),
            ps.wf(),
            forall|n: Seq<char>| ts.entities@.contains_key(n) ==> (#[trigger] ts.entities@[n]).name@ == n,
            forall|n: Seq<char>| ts.builtin@.contains_key(n) ==> (#[trigger] ts.builtin@[n]).name@ == n,
        ensures
            match ts.spec_lookup_type(ty_name@) {
                None => r matches Err(e) && e@ == "Cannot delete from type `"@ + ty_name@ + "`, type not found"@,
                Some(Type::Entity(n)) => match loaded(*ts, *ps, *user_id, path@, lookup_entity_spec(*ts, ty_name@)->0, plan_fuel(*ts)) {
                    None => r is Err,
                    Some((chains, st)) => r matches Ok(m) && m.filter_query_plan.state() == st
                        && same_type(m.base_entity, lookup_entity_spec(*ts, ty_name@)->0)
                        && same_type(m.filter_query_plan.base, lookup_entity_spec(*ts, ty_name@)->0)
                        && plan_ops(m.filter_query_plan.operators@, chains, login_value(*user_id),
                            match filter_expr { Some(x) => seq![QueryOp::Filter { expression: *x }], None => Seq::empty() })
                        && tree_spec(*ts, labels_view(ps.labels@), path@, m.filter_query_plan.entity,
                            lookup_entity_spec(*ts, ty_name@)->0, (lookup_entity_spec(*ts, ty_name@)->0).backing_table@,
                            empty_state(), plan_fuel(*ts)),
                },
                Some(t) => r is Err,
            },
    {
        match ts.lookup_type(ty_name) {
            None => {
                proof {
                    reveal_strlit("Cannot delete from type `");
                    reveal_strlit("`, type not found");
                }
                return Err(string_concat("Cannot delete from type `", ty_name).concat("`, type not found"));
            },
            Some(Type::Entity(_)) => {},
            Some(_) => {
                return Err(string_concat("Cannot delete scalar type ", ty_name));
            },
        }
        let base = match lookup_any_entity(ts, ty_name) {
            Some(t) => t.copy(),
            None => return Err(string_concat("Cannot delete from type `", ty_name).concat("`, type not found")),
        };
        let mut plan = match QueryPlan::from_entity_name(ts, ps, user_id, path, ty_name) {
            Ok(p) => p,
            Err(e) => return Err(e),
        };
        let ghost ops0 = plan.operators@;
        match filter_expr {
            Some(x) => {
                let mut v: Vec<QueryOp> = Vec::new();
                v.push(QueryOp::Filter { expression: x.copy() });
                plan.extend_operators(v);
                proof {
                    let extra = seq![QueryOp::Filter { expression: *x }];
                    assert(without_projections(extra) =~= extra) by {
                        assert(extra.drop_last() =~= Seq::<QueryOp>::empty());
                        assert(!(extra.last() is Projection));
                        assert(without_projections(Seq::<QueryOp>::empty()) =~= Seq::<QueryOp>::empty());
                    }
                    let pair = loaded(*ts, *ps, *user_id, path@, lookup_entity_spec(*ts, ty_name@)->0, plan_fuel(*ts))->0;
                    let chains = pair.0;
                    assert forall|j: int| 0 <= j < chains.len() implies is_login_filter(#[trigger] plan.operators@[j], chains[j], login_value(*user_id)) by {
                        assert(plan.operators@[j] == ops0[j]);
                    }
                    assert(plan.operators@[chains.len() as int] == extra[0]);
                }
            },
            None => {},
        }
        Ok(Mutation { base_entity: base, filter_query_plan: plan })
    }

    /// The SQL statement of the delete, for the given database.
    pub fn build_sql(&self, target: TargetDatabase) -> (r: Result<String, String>)
        ensures
            match groups_sql(self.filter_query_plan.entity, self.filter_query_plan.base.backing_table@,
                self.filter_query_plan.base.all_field_names(), target, self.filter_query_plan.operators@,
                core_select_sql(self.filter_query_plan.state(), self.filter_query_plan.base.backing_table@)) {
                Some(s) => r matches Ok(t) && t@ == delete_sql(self.base_entity.backing_table@, s),
                None => r is Err,
            },
    {
        let select_sql = match self.filter_query_plan.make_raw_query(target) {
            Ok(s) => s,
            Err(e) => return Err(e),
        };
        proof {
            reveal_strlit("DELETE FROM \"");
            reveal_strlit("\"\n                WHERE \"id\" IN (\n                    SELECT \"");
            reveal_strlit("_id\" FROM (");
            reveal_strlit(") as subquery\n                )");
        }
        let t = self.base_entity.backing_table.as_str();
        let s = string_concat("DELETE FROM \"", t).concat("\"\n                WHERE \"id\" IN (\n                    SELECT \"").concat(t);
        Ok(s.concat("_id\" FROM (").concat(select_sql.as_str()).concat(") as subquery\n                )"))
    }
}


impl QueriedEntity {
    /// The entity joined under the field `child_name`.
    pub fn get_child_entity<'a>(&'a self, child_name: &str) -> (r: Option<&'a QueriedEntity>)
        ensures
            match r {
                Some(c) => 0 <= join_index(self.joins@, child_name@) < self.joins@.len() && *c == self.joins@[join_index(self.joins@, child_name@)].1.entity,
                None => !(0 <= join_index(self.joins@, child_name@) < self.joins@.len()),
            },
    {
        proof {
            lemma_join_index(self.joins@, child_name@);
        }
        let mut i: usize = 0;
        assert(self.joins@.skip(0) =~= self.joins@);
        while i < self.joins.len()
            invariant
                i <= self.joins@.len(),
                join_index(self.joins@, child_name@) == i + join_index(self.joins@.skip(i as int), child_name@),
                0 <= join_index(self.joins@, child_name@) <= self.joins@.len(),
            decreases self.joins@.len() - i,
        {
            assert(self.joins@.skip(i as int)[0] == self.joins@[i as int]);
            if str_eq(self.joins[i].0.as_str(), child_name) {
                return Some(&self.joins[i].1.entity);
            }
            assert(self.joins@.skip(i as int).drop_first() =~= self.joins@.skip(i + 1));
            i = i + 1;
        }
        assert(self.joins@.skip(i as int) =~= Seq::<(String, Join)>::empty());
        None
    }
}

} // verus!
