//! A simplified description of entity types, as the TypeScript side of the
//! runtime reads it.

use vstd::prelude::*;
use crate::types::{ObjectType, TypeId, Field, TypeSystem};

verus! {

/// The type of a field, simplified.
#[derive(Debug)]
pub enum SimpleTypeId {
    String,
    Number,
    Boolean,
    JsDate,
    ArrayBuffer,
    Entity { entity_name: String },
    EntityId { entity_name: String },
    Array { element_type: Box<SimpleTypeId> },
}

/// A field, simplified.
#[derive(Debug)]
pub struct SimpleField {
    pub name: String,
    pub field_type: SimpleTypeId,
    pub is_optional: bool,
    pub is_unique: bool,
}

/// An entity type, simplified.
#[derive(Debug)]
pub struct SimpleEntity {
    pub name: String,
    pub fields: Vec<SimpleField>,
}

/// The simplified form of a field type: identifiers are strings, and
/// entities and references to them keep the entity's name.
pub open spec fn spec_simplify(ty: TypeId) -> SimpleTypeId
    decreases ty,
{
    match ty {
        TypeId::String => SimpleTypeId::String,
        TypeId::Float => SimpleTypeId::Number,
        TypeId::Boolean => SimpleTypeId::Boolean,
        TypeId::JsDate => SimpleTypeId::JsDate,
        TypeId::ArrayBuffer => SimpleTypeId::ArrayBuffer,
        TypeId::Id => SimpleTypeId::String,
        TypeId::Array(e) => SimpleTypeId::Array { element_type: Box::new(spec_simplify(*e)) },
        TypeId::Entity { name, .. } => SimpleTypeId::Entity { entity_name: name },
        TypeId::EntityId(n) => SimpleTypeId::EntityId { entity_name: n },
    }
}

/// Simplifies a field type.
pub fn simplify_type_id(ty: &TypeId) -> (r: SimpleTypeId)
    ensures
        r == spec_simplify(*ty),
    decreases ty,
{
    match ty {
        TypeId::String => SimpleTypeId::String,
        TypeId::Float => SimpleTypeId::Number,
        TypeId::Boolean => SimpleTypeId::Boolean,
        TypeId::JsDate => SimpleTypeId::JsDate,
        TypeId::ArrayBuffer => SimpleTypeId::ArrayBuffer,
        TypeId::Id => SimpleTypeId::String,
        TypeId::Array(e) => SimpleTypeId::Array { element_type: Box::new(simplify_type_id(e)) },
        TypeId::Entity { name, .. } => SimpleTypeId::Entity { entity_name: name.clone() },
        TypeId::EntityId(n) => SimpleTypeId::EntityId { entity_name: n.clone() },
    }
}

/// The simplified form of a field.
pub open spec fn simple_field_of(f: Field) -> (Seq<char>, SimpleTypeId, bool, bool) {
    (f.name@, spec_simplify(f.type_id), f.is_optional, f.is_unique)
}

/// The view of a simplified field.
pub open spec fn simple_field_view(f: SimpleField) -> (Seq<char>, SimpleTypeId, bool, bool) {
    (f.name@, f.field_type, f.is_optional, f.is_unique)
}

/// Whether `r` is the simplified form of entity type `obj`: its name and
/// all its fields, the implicit `id` (a required string) first.
pub open spec fn simplifies(r: SimpleEntity, obj: ObjectType) -> bool {
    &&& r.name@ == obj.name@
    &&& r.fields@.len() == obj.user_fields@.len() + 1
    &&& simple_field_view(r.fields@[0]) == ("id"@, SimpleTypeId::String, false, false)
    &&& forall|k: int| 0 <= k < obj.user_fields@.len() ==>
        simple_field_view(#[trigger] r.fields@[k + 1]) == simple_field_of(obj.user_fields@[k])
}

/// Simplifies an entity type: its name and all its fields, the implicit `id`
/// (a required string) first.
pub fn simplify_object_type(obj: &ObjectType) -> (r: SimpleEntity)
    ensures
        simplifies(r, *obj),
{
    let mut fields: Vec<SimpleField> = Vec::new();
    fields.push(SimpleField { name: "id".to_owned(), field_type: SimpleTypeId::String, is_optional: false, is_unique: false });
    let mut i: usize = 0;
    while i < obj.user_fields.len()
        invariant
            i <= obj.user_fields@.len(),
            fields@.len() == i + 1,
            simple_field_view(fields@[0]) == ("id"@, SimpleTypeId::String, false, false),
            forall|k: int| 0 <= k < i ==> simple_field_view(#[trigger] fields@[k + 1]) == simple_field_of(obj.user_fields@[k]),
        decreases obj.user_fields@.len() - i,
    {
        let f = &obj.user_fields[i];
        fields.push(SimpleField {
            name: f.name.clone(),
            field_type: simplify_type_id(&f.type_id),
            is_optional: f.is_optional,
            is_unique: f.is_unique,
        });
        i = i + 1;
    }
    SimpleEntity { name: obj.name.clone(), fields }
}


/// The simplified entity types of a type system, by name: the user-defined
/// ones and the built-in ones, a built-in one winning over a user-defined
/// one of the same name. Each name is listed once.
pub fn simple_type_system(ts: &TypeSystem) -> (r: Vec<(String, SimpleEntity)>)
    requires
        ts.wf(),
    ensures
        r@.map_values(|e: (String, SimpleEntity)| e.0@).no_duplicates(),
        forall|i: int| 0 <= i < r@.len() ==> {
            let n = (#[trigger] r@[i]).0@;
            if ts.builtin@.contains_key(n) {
                simplifies(r@[i].1, ts.builtin@[n])
            } else {
                ts.entities@.contains_key(n) && simplifies(r@[i].1, ts.entities@[n])
            }
        },
        forall|n: Seq<char>| ts.entities@.contains_key(n) || ts.builtin@.contains_key(n) ==>
            r@.map_values(|e: (String, SimpleEntity)| e.0@).contains(n),
{
    proof {
        ts.entities.lemma_keys_domain();
        ts.builtin.lemma_keys_domain();
    }
    let custom = ts.entities.iter();
    let builtin = ts.builtin.iter();
    let ghost ck = ts.entities.keys();
    let ghost bk = ts.builtin.keys();
    let mut r: Vec<(String, SimpleEntity)> = Vec::new();
    let mut i: usize = 0;
    while i < custom.len()
        invariant
            ts.wf(),
            ck == ts.entities.keys(),
            bk == ts.builtin.keys(),
            ck.no_duplicates(),
            ck.to_set() == ts.entities@.dom(),
            bk.to_set() == ts.builtin@.dom(),
            custom@.len() == ck.len(),
            forall|j: int| 0 <= j < custom@.len() ==> (#[trigger] custom@[j]).0@ == ck[j] && *custom@[j].1 == ts.entities@[ck[j]],
            i <= custom@.len(),
            forall|k: int| 0 <= k < r@.len() ==> {
                let n = (#[trigger] r@[k]).0@;
                &&& !ts.builtin@.contains_key(n)
                &&& ts.entities@.contains_key(n)
                &&& simplifies(r@[k].1, ts.entities@[n])
                &&& exists|j: int| 0 <= j < i && ck[j] == n
            },
            r@.map_values(|e: (String, SimpleEntity)| e.0@).no_duplicates(),
            forall|j: int| 0 <= j < i && !ts.builtin@.contains_key(ck[j]) ==>
                r@.map_values(|e: (String, SimpleEntity)| e.0@).contains(#[trigger] ck[j]),
        decreases custom@.len() - i,
    {
        let (name, e) = custom[i];
        proof {
            assert(ck.to_set().contains(ck[i as int]));
        }
        if ts.builtin.get(name).is_none() {
            let ghost before = r@.map_values(|x: (String, SimpleEntity)| x.0@);
            r.push((name.to_owned(), simplify_object_type(e)));
            proof {
                let after = r@.map_values(|x: (String, SimpleEntity)| x.0@);
                assert(after =~= before.push(name@));
                assert forall|a: int, b: int| 0 <= a < b < after.len() implies after[a] != after[b] by {
                    if b == after.len() - 1 && after[a] == after[b] {
                        let k = a;
                        let n = r@[k].0@;
                        let j = choose|j: int| 0 <= j < i && ck[j] == n;
                        assert(ck[j] == ck[i as int]);
                    }
                }
                assert(after[after.len() - 1] == ck[i as int]);
                assert forall|j: int| 0 <= j < i + 1 && !ts.builtin@.contains_key(ck[j]) implies
                    after.contains(#[trigger] ck[j]) by {
                    if j < i {
                        let k = choose|k: int| 0 <= k < before.len() && before[k] == ck[j];
                        assert(after[k] == before[k]);
                    }
                }
            }
        }
        i = i + 1;
    }
    let ghost stage = r@.map_values(|x: (String, SimpleEntity)| x.0@);
    let mut k: usize = 0;
    while k < builtin.len()
        invariant
            ts.wf(),
            ck == ts.entities.keys(),
            bk == ts.builtin.keys(),
            bk.no_duplicates(),
            ck.to_set() == ts.entities@.dom(),
            bk.to_set() == ts.builtin@.dom(),
            builtin@.len() == bk.len(),
            forall|j: int| 0 <= j < builtin@.len() ==> (#[trigger] builtin@[j]).0@ == bk[j] && *builtin@[j].1 == ts.builtin@[bk[j]],
            k <= builtin@.len(),
            stage.len() <= r@.len(),
            r@.len() == stage.len() + k,
            forall|q: int| 0 <= q < stage.len() ==> r@.map_values(|x: (String, SimpleEntity)| x.0@)[q] == #[trigger] stage[q],
            forall|q: int| 0 <= q < stage.len() ==> !ts.builtin@.contains_key(#[trigger] stage[q]),
            forall|q: int| 0 <= q < k ==> r@[stage.len() + q].0@ == #[trigger] bk[q],
            forall|q: int| 0 <= q < r@.len() ==> {
                let n = (#[trigger] r@[q]).0@;
                if ts.builtin@.contains_key(n) {
                    simplifies(r@[q].1, ts.builtin@[n])
                } else {
                    ts.entities@.contains_key(n) && simplifies(r@[q].1, ts.entities@[n])
                }
            },
            r@.map_values(|e: (String, SimpleEntity)| e.0@).no_duplicates(),
            forall|n: Seq<char>| ts.entities@.contains_key(n) && !ts.builtin@.contains_key(n) ==>
                stage.contains(n),
        decreases builtin@.len() - k,
    {
        let (name, e) = builtin[k];
        let ghost before = r@.map_values(|x: (String, SimpleEntity)| x.0@);
        proof {
            assert(bk.to_set().contains(bk[k as int]));
        }
        r.push((name.to_owned(), simplify_object_type(e)));
        proof {
            let after = r@.map_values(|x: (String, SimpleEntity)| x.0@);
            assert(after =~= before.push(name@));
            assert forall|a: int, b: int| 0 <= a < b < after.len() implies after[a] != after[b] by {
                if b == after.len() - 1 && after[a] == after[b] {
                    if a < stage.len() {
                        assert(before[a] == stage[a]);
                    } else {
                        let q = a - stage.len();
                        assert(r@[stage.len() + q].0@ == bk[q]);
                        assert(bk[q] == bk[k as int]);
                    }
                }
            }
        }
        k = k + 1;
    }
    proof {
        let names = r@.map_values(|x: (String, SimpleEntity)| x.0@);
        assert forall|n: Seq<char>| ts.entities@.contains_key(n) || ts.builtin@.contains_key(n) implies names.contains(n) by {
            if ts.builtin@.contains_key(n) {
                assert(bk.to_set().contains(n));
                let q = choose|q: int| 0 <= q < bk.len() && bk[q] == n;
                assert(names[stage.len() + q] == n);
            } else {
                assert(stage.contains(n));
                let q = choose|q: int| 0 <= q < stage.len() && stage[q] == n;
                assert(names[q] == n);
            }
        }
    }
    r
}

} // verus!
