//! Rebuilding query results: a row read from the database becomes a JSON
//! object shaped like the queried entity, with nested entities as nested
//! objects, field policies applied, and only the fields asked for.

use crate::json::{json_view, members_view, Json, JsonNumber, JsonView, NumberView};
use crate::plan::{allowed_view, join_index, Join, QueriedEntity, QueryField};
use crate::policies::{anonymize_text, Transformation};
use crate::query::{KeepOrOmitField, TargetDatabase};
use crate::text::{ascii_lower_seq, ascii_lowercase_chars, chars_of, str_eq};
use crate::types::TypeId;
use vstd::prelude::*;

verus! {

/// How a column is read from a row.
#[derive(Debug, Clone, Copy, PartialEq, Eq, Structural)]
pub enum ReadKind {
    Float,
    Text,
    Bool,
}

/// A cell of a row as read: null, text, the decimal text of a
/// floating-point number, or a boolean.
#[derive(Debug)]
pub enum Cell {
    Null,
    Text(String),
    Float(String),
    Bool(bool),
}

/// How a column of type `t` is read: numbers as floats, text and keys as
/// text, booleans as booleans (as text on SQLite, where a default written by
/// `coalesce` carries no type); nothing for other types.
pub open spec fn read_kind_spec(t: TypeId, target: TargetDatabase) -> Option<ReadKind> {
    match t {
        TypeId::Float | TypeId::JsDate => Some(ReadKind::Float),
        TypeId::String | TypeId::Id | TypeId::EntityId(_) | TypeId::Entity { .. } => Some(ReadKind::Text),
        TypeId::Boolean => if target == TargetDatabase::Sqlite { Some(ReadKind::Text) } else { Some(ReadKind::Bool) },
        _ => None,
    }
}

/// How a column of type `t` is read.
pub fn read_kind(t: &TypeId, target: TargetDatabase) -> (r: Option<ReadKind>)
    ensures
        r == read_kind_spec(*t, target),
{
    match t {
        TypeId::Float | TypeId::JsDate => Some(ReadKind::Float),
        TypeId::String | TypeId::Id | TypeId::EntityId(_) | TypeId::Entity { .. } => Some(ReadKind::Text),
        TypeId::Boolean => match target {
            TargetDatabase::Sqlite => Some(ReadKind::Text),
            TargetDatabase::Postgres => Some(ReadKind::Bool),
        },
        _ => None,
    }
}

/// The JSON value of a scalar field of type `t` read as cell `c`; a
/// boolean read as text is true when it is `1` or, in any case, `true`.
pub open spec fn scalar_json(t: TypeId, c: Cell, target: TargetDatabase) -> Option<JsonView> {
    match t {
        TypeId::Float | TypeId::JsDate => match c {
            Cell::Float(x) => Some(JsonView::Number(NumberView::Float(x@))),
            _ => None,
        },
        TypeId::String | TypeId::Id | TypeId::EntityId(_) => match c {
            Cell::Text(s) => Some(JsonView::String(s@)),
            _ => None,
        },
        TypeId::Boolean => if target == TargetDatabase::Sqlite {
            match c {
                Cell::Text(s) => Some(JsonView::Bool(s@ == "1"@ || ascii_lower_seq(s@) == "true"@)),
                _ => None,
            }
        } else {
            match c {
                Cell::Bool(b) => Some(JsonView::Bool(b)),
                _ => None,
            }
        },
        _ => None,
    }
}

/// A value after a field policy's transformation.
pub open spec fn transformed(t: Option<Transformation>, v: JsonView) -> JsonView {
    match t {
        Some(Transformation::Anonymize) => JsonView::String("xxxxx"@),
        None => v,
    }
}

/// The column of the first scalar field named `id`.
pub open spec fn id_column(fs: Seq<QueryField>) -> Option<usize>
    decreases fs.len(),
{
    if fs.len() == 0 {
        None
    } else {
        match fs[0] {
            QueryField::Scalar { name, column_idx, .. } => if name@ == "id"@ {
                Some(column_idx)
            } else {
                id_column(fs.drop_first())
            },
            _ => id_column(fs.drop_first()),
        }
    }
}

/// The object that a row gives for entity `e`: its fields in order, an
/// omitted field or an optional one whose value (or nested entity's id) is
/// null left out; `None` when a value does not have its field's type or a
/// column or joined entity is missing.
pub open spec fn row_spec(e: QueriedEntity, cells: Seq<Cell>, target: TargetDatabase) -> Option<Seq<(Seq<char>, JsonView)>>
    decreases e, 1nat, 0nat,
{
    fields_row(e, e.fields@, cells, target)
}

/// The members that the fields `fs` of entity `e` give.
pub open spec fn fields_row(e: QueriedEntity, fs: Seq<QueryField>, cells: Seq<Cell>, target: TargetDatabase)
    -> Option<Seq<(Seq<char>, JsonView)>>
    decreases e, 0nat, fs.len(),
{
    if fs.len() == 0 {
        Some(Seq::empty())
    } else {
        match fields_row(e, fs.drop_last(), cells, target) {
            None => None,
            Some(acc) => match fs.last() {
                QueryField::Scalar { name, type_id, is_optional, column_idx, transform, keep_or_omit } => {
                    if keep_or_omit is Omit {
                        Some(acc)
                    } else if column_idx >= cells.len() {
                        None
                    } else if is_optional && cells[column_idx as int] is Null {
                        Some(acc)
                    } else {
                        match scalar_json(type_id, cells[column_idx as int], target) {
                            None => None,
                            Some(v) => Some(acc.push((name@, transformed(transform, v)))),
                        }
                    }
                },
                QueryField::Entity { name, is_optional, transform, keep_or_omit } => {
                    let k = join_index(e.joins@, name@);
                    if k < 0 || k >= e.joins@.len() {
                        None
                    } else {
                        let child = e.joins@[k].1.entity;
                        if keep_or_omit is Omit {
                            Some(acc)
                        } else {
                            let null_id = match id_column(child.fields@) {
                                None => None,
                                Some(ci) => if ci >= cells.len() { None } else { Some(cells[ci as int] is Null) },
                            };
                            if is_optional && null_id is None {
                                None
                            } else if is_optional && null_id == Some(true) {
                                Some(acc)
                            } else {
                                proof {
                                    lemma_child_decreases(e, k);
                                }
                                match row_spec(child, cells, target) {
                                    None => None,
                                    Some(o) => Some(acc.push((name@, transformed(transform, JsonView::Object(o))))),
                                }
                            }
                        }
                    }
                },
            },
        }
    }
}

pub proof fn lemma_child_decreases(e: QueriedEntity, k: int)
    requires
        0 <= k < e.joins@.len(),
    ensures
        decreases_to!(e => e.joins@[k].1.entity),
{
    broadcast use vstd::std_specs::vec::axiom_vec_index_decreases;
    let js = e.joins;
    assert(decreases_to!(e => js));
    assert(decreases_to!(js => js[k]));
    assert(decreases_to!(js[k] => js[k].1));
    let j: Join = js[k].1;
    assert(decreases_to!(j => j.entity));
}

/// The column of the first scalar field named `id`.
pub fn id_idx(fs: &Vec<QueryField>) -> (r: Option<usize>)
    ensures
        r == id_column(fs@),
{
    let mut i: usize = 0;
    assert(fs@.skip(0) =~= fs@);
    while i < fs.len()
        invariant
            i <= fs@.len(),
            id_column(fs@) == id_column(fs@.skip(i as int)),
        decreases fs@.len() - i,
    {
        assert(fs@.skip(i as int)[0] == fs@[i as int]);
        assert(fs@.skip(i as int).drop_first() =~= fs@.skip(i + 1));
        match &fs[i] {
            QueryField::Scalar { name, column_idx, .. } => {
                proof {
                    reveal_strlit("id");
                }
                if str_eq(name.as_str(), "id") {
                    return Some(*column_idx);
                }
            },
            _ => {},
        }
        i = i + 1;
    }
    assert(fs@.skip(i as int) =~= Seq::<QueryField>::empty());
    None
}

fn is_true_text(s: &str) -> (r: bool)
    ensures
        r == (s@ == "1"@ || ascii_lower_seq(s@) == "true"@),
{
    proof {
        reveal_strlit("1");
        reveal_strlit("true");
    }
    if str_eq(s, "1") {
        return true;
    }
    let low = ascii_lowercase_chars(s);
    let t = chars_of("true");
    crate::text::chars_eq(&low, &t)
}

fn scalar_value(t: &TypeId, c: &Cell, target: TargetDatabase) -> (r: Option<Json>)
    ensures
        match scalar_json(*t, *c, target) {
            Some(v) => r matches Some(j) && json_view(j) == v,
            None => r is None,
        },
{
    match t {
        TypeId::Float | TypeId::JsDate => match c {
            Cell::Float(x) => Some(Json::Number(JsonNumber::Float(x.clone()))),
            _ => None,
        },
        TypeId::String | TypeId::Id | TypeId::EntityId(_) => match c {
            Cell::Text(s) => Some(Json::String(s.clone())),
            _ => None,
        },
        TypeId::Boolean => match target {
            TargetDatabase::Sqlite => match c {
                Cell::Text(s) => Some(Json::Bool(is_true_text(s.as_str()))),
                _ => None,
            },
            TargetDatabase::Postgres => match c {
                Cell::Bool(b) => Some(Json::Bool(*b)),
                _ => None,
            },
        },
        _ => None,
    }
}

fn apply_transform(t: &Option<Transformation>, v: Json) -> (r: Json)
    ensures
        json_view(r) == transformed(*t, json_view(v)),
{
    match t {
        Some(Transformation::Anonymize) => Json::String(anonymize_text()),
        None => v,
    }
}

proof fn lemma_fields_row_none(e: QueriedEntity, fs: Seq<QueryField>, cells: Seq<Cell>, target: TargetDatabase, k: int)
    requires
        0 < k <= fs.len(),
        fields_row(e, fs.take(k), cells, target) is None,
    ensures
        fields_row(e, fs, cells, target) is None,
    decreases fs.len() - k,
{
    if k < fs.len() {
        let t = fs.take(k + 1);
        assert(t.drop_last() =~= fs.take(k));
        lemma_fields_row_none(e, fs, cells, target, k + 1);
    } else {
        assert(fs.take(k) =~= fs);
    }
}

/// The JSON object that row `cells` gives for entity `e`.
pub fn row_to_json(e: &QueriedEntity, cells: &Vec<Cell>, target: TargetDatabase) -> (r: Result<Vec<(String, Json)>, String>)
    ensures
        match row_spec(*e, cells@, target) {
            None => r is Err,
            Some(o) => r matches Ok(v) && members_view(v@) == o,
        },
    decreases e,
{
    let mut out: Vec<(String, Json)> = Vec::new();
    let mut i: usize = 0;
    assert(e.fields@.take(0) =~= Seq::<QueryField>::empty());
    while i < e.fields.len()
        invariant
            i <= e.fields@.len(),
            fields_row(*e, e.fields@.take(i as int), cells@, target) == Some(members_view(out@)),
        decreases e.fields@.len() - i,
    {
        let ghost acc = members_view(out@);
        let ghost out0 = out@;
        proof {
            let t = e.fields@.take(i + 1);
            assert(t.drop_last() =~= e.fields@.take(i as int));
            assert(t.last() == e.fields@[i as int]);
        }
        match &e.fields[i] {
            QueryField::Scalar { name, type_id, is_optional, column_idx, transform, keep_or_omit } => {
                let omit = match keep_or_omit {
                    KeepOrOmitField::Omit => true,
                    KeepOrOmitField::Keep => false,
                };
                if !omit {
                    if *column_idx >= cells.len() {
                        proof {
                            lemma_fields_row_none(*e, e.fields@, cells@, target, i + 1);
                        }
                        return Err("column index out of range".to_owned());
                    }
                    let c = &cells[*column_idx];
                    let null = match c {
                        Cell::Null => true,
                        _ => false,
                    };
                    if !(*is_optional && null) {
                        match scalar_value(type_id, c, target) {
                            None => {
                                proof {
                                    lemma_fields_row_none(*e, e.fields@, cells@, target, i + 1);
                                }
                                return Err("value does not have its field's type".to_owned());
                            },
                            Some(v) => {
                                let v = apply_transform(transform, v);
                                out.push((name.clone(), v));
                                proof {
                                    assert(out@.drop_last() =~= out0);
                                }
                            },
                        }
                    }
                }
            },
            QueryField::Entity { name, is_optional, transform, keep_or_omit } => {
                let child = match e.get_child_entity(name.as_str()) {
                    Some(c) => c,
                    None => {
                        proof {
                            lemma_fields_row_none(*e, e.fields@, cells@, target, i + 1);
                        }
                        return Err("no joined entity for a nested field".to_owned());
                    },
                };
                let omit = match keep_or_omit {
                    KeepOrOmitField::Omit => true,
                    KeepOrOmitField::Keep => false,
                };
                if !omit {
                    let skip = if *is_optional {
                        let ci = match id_idx(&child.fields) {
                            Some(ci) => ci,
                            None => {
                                proof {
                                    lemma_fields_row_none(*e, e.fields@, cells@, target, i + 1);
                                }
                                return Err("No id field among Entity children".to_owned());
                            },
                        };
                        if ci >= cells.len() {
                            proof {
                                lemma_fields_row_none(*e, e.fields@, cells@, target, i + 1);
                            }
                            return Err("column index out of range".to_owned());
                        }
                        match &cells[ci] {
                            Cell::Null => true,
                            _ => false,
                        }
                    } else {
                        false
                    };
                    if !skip {
                        proof {
                            lemma_child_decreases(*e, join_index(e.joins@, name@));
                        }
                        match row_to_json(child, cells, target) {
                            Ok(o) => {
                                let v = apply_transform(transform, Json::Object(o));
                                out.push((name.clone(), v));
                                proof {
                                    assert(out@.drop_last() =~= out0);
                                }
                            },
                            Err(err) => {
                                proof {
                                    lemma_fields_row_none(*e, e.fields@, cells@, target, i + 1);
                                }
                                return Err(err);
                            },
                        }
                    }
                }
            },
        }
        i = i + 1;
    }
    assert(e.fields@.take(e.fields@.len() as int) =~= e.fields@);
    Ok(out)
}

/// The members whose names are allowed (all without a list).
pub open spec fn project_spec(o: Seq<(Seq<char>, JsonView)>, allowed: Option<Seq<Seq<char>>>) -> Seq<(Seq<char>, JsonView)>
    decreases o.len(),
{
    if o.len() == 0 {
        Seq::empty()
    } else {
        let rest = project_spec(o.drop_last(), allowed);
        match allowed {
            Some(a) => if a.contains(o.last().0) { rest.push(o.last()) } else { rest },
            None => rest.push(o.last()),
        }
    }
}

fn is_allowed(a: &Vec<String>, n: &str) -> (r: bool)
    ensures
        r == a@.map_values(|s: String| s@).contains(n@),
{
    let ghost v = a@.map_values(|s: String| s@);
    let mut i: usize = 0;
    while i < a.len()
        invariant
            i <= a@.len(),
            v == a@.map_values(|s: String| s@),
            forall|j: int| 0 <= j < i ==> v[j] != n@,
        decreases a@.len() - i,
    {
        if str_eq(a[i].as_str(), n) {
            assert(v[i as int] == n@);
            return true;
        }
        i = i + 1;
    }
    false
}

/// The object with only the fields asked for.
pub fn project(o: Vec<(String, Json)>, allowed_fields: &Option<Vec<String>>) -> (r: Vec<(String, Json)>)
    ensures
        members_view(r@) == project_spec(members_view(o@), allowed_view(*allowed_fields)),
{
    let ghost ov = o@;
    let n = o.len();
    let mut rest = o;
    let mut out: Vec<(String, Json)> = Vec::new();
    let mut i: usize = 0;
    assert(ov.take(0) =~= Seq::<(String, Json)>::empty());
    assert(rest@ =~= ov.skip(0));
    while rest.len() > 0
        invariant
            i + rest@.len() == ov.len(),
            ov.len() == n,
            rest@ == ov.skip(i as int),
            members_view(out@) == project_spec(members_view(ov.take(i as int)), allowed_view(*allowed_fields)),
        decreases rest@.len(),
    {
        let m = rest.remove(0);
        proof {
            let t = ov.take(i + 1);
            assert(t.drop_last() =~= ov.take(i as int));
            assert(t.last() == ov[i as int]);
            assert(m == ov[i as int]);
            assert(members_view(t).drop_last() =~= members_view(ov.take(i as int)));
            assert(members_view(t).last() == (m.0@, json_view(m.1)));
        }
        let ghost out0 = out@;
        let keep = match allowed_fields {
            Some(a) => is_allowed(a, m.0.as_str()),
            None => true,
        };
        if keep {
            out.push(m);
            assert(out@.drop_last() =~= out0);
        }
        assert(rest@ =~= ov.skip(i + 1));
        i = i + 1;
    }
    assert(ov.take(ov.len() as int) =~= ov);
    out
}

} // verus!
