//! Applying a new set of type definitions to an API version: the definitions
//! as the client sends them, the resolution of their field types, the order
//! in which dependent types are created, and which old types go away.

use vstd::prelude::*;
use crate::text::{str_eq, string_concat, lemma_push_to_set, u64_to_string, decimal};
use crate::types::{Type, TypeSystem};

verus! {

/// The type of a field as the client describes it.
#[derive(Debug)]
pub enum TypeEnum {
    String(bool),
    Number(bool),
    Bool(bool),
    JsDate(bool),
    ArrayBuffer(bool),
    Entity(String),
    EntityId(String),
    Array(Box<ContainerType>),
}

/// A field type message; the type itself may be missing.
#[derive(Debug)]
pub struct TypeMsg {
    pub type_enum: Option<TypeEnum>,
}

/// The element type of an array; it may be missing.
#[derive(Debug)]
pub struct ContainerType {
    pub value_type: Option<Box<TypeMsg>>,
}

/// A field of a type definition sent by the client.
#[derive(Debug)]
pub struct FieldDefinition {
    pub name: String,
    pub field_type: Option<TypeMsg>,
    pub labels: Vec<String>,
    pub default_value: Option<String>,
    pub is_optional: bool,
    pub is_unique: bool,
}

/// A type definition sent by the client.
#[derive(Debug)]
pub struct AddTypeRequest {
    pub name: String,
    pub field_defs: Vec<FieldDefinition>,
}

/// A set of fields of an entity that the client asks to index.
#[derive(Debug)]
pub struct IndexCandidate {
    pub entity_name: String,
    pub properties: Vec<String>,
}

/// A database index over some fields of an entity; `meta_id` is the index's
/// identifier in the metadata store once it has been stored.
#[derive(Debug)]
pub struct DbIndex {
    pub meta_id: Option<i32>,
    pub fields: Vec<String>,
}

impl DbIndex {
    /// A new index over `fields`, not yet stored.
    pub fn new_from_fields(fields: Vec<String>) -> (r: Self)
        ensures
            r.meta_id is None,
            r.fields@ == fields@,
    {
        DbIndex { meta_id: None, fields }
    }
}

/// The field's type, or the message that says what is missing.
pub open spec fn spec_field_type(f: FieldDefinition) -> Result<TypeEnum, Seq<char>> {
    match f.field_type {
        None => Err("field_type of field '"@ + f.name@ + "' is None"@),
        Some(m) => match m.type_enum {
            None => Err("type_enum of field '"@ + f.name@ + "' is None"@),
            Some(t) => Ok(t),
        },
    }
}

/// The array's element type, or the message that says what is missing.
pub open spec fn spec_value_type(c: ContainerType) -> Result<TypeEnum, Seq<char>> {
    match c.value_type {
        None => Err("value_type of ContainerType is None"@),
        Some(m) => match m.type_enum {
            None => Err("type_enum of value_type of ContainerType is None"@),
            Some(t) => Ok(t),
        },
    }
}

impl FieldDefinition {
    /// The field's type.
    pub fn field_type(&self) -> (r: Result<&TypeEnum, String>)
        ensures
            match (r, spec_field_type(*self)) {
                (Ok(t), Ok(s)) => *t == s,
                (Err(e), Err(m)) => e@ == m,
                _ => false,
            },
    {
        proof {
            reveal_strlit("field_type of field '");
            reveal_strlit("type_enum of field '");
            reveal_strlit("' is None");
        }
        match &self.field_type {
            None => Err(string_concat("field_type of field '", self.name.as_str()).concat("' is None")),
            Some(m) => match &m.type_enum {
                None => Err(string_concat("type_enum of field '", self.name.as_str()).concat("' is None")),
                Some(t) => Ok(t),
            },
        }
    }
}

impl ContainerType {
    /// The array's element type.
    pub fn value_type(&self) -> (r: Result<&TypeEnum, String>)
        ensures
            match (r, spec_value_type(*self)) {
                (Ok(t), Ok(s)) => *t == s,
                (Err(e), Err(m)) => e@ == m,
                _ => false,
            },
    {
        match &self.value_type {
            None => Err("value_type of ContainerType is None".to_owned()),
            Some(m) => match &m.type_enum {
                None => Err("type_enum of value_type of ContainerType is None".to_owned()),
                Some(t) => Ok(t),
            },
        }
    }
}

/// Whether a field type is built in (a scalar, a built-in entity, a reference
/// to a built-in entity, or an array of such), or the message of a missing
/// element type.
pub open spec fn spec_is_builtin(t: TypeEnum, ts: TypeSystem) -> Result<bool, Seq<char>>
    decreases t,
{
    match t {
        TypeEnum::Entity(n) => Ok(ts.spec_builtin_type(n@) is Some),
        TypeEnum::EntityId(n) => Ok(ts.spec_builtin_type(n@) is Some),
        TypeEnum::Array(c) => match c.value_type {
            None => Err("value_type of ContainerType is None"@),
            Some(m) => match m.type_enum {
                None => Err("type_enum of value_type of ContainerType is None"@),
                Some(inner) => spec_is_builtin(inner, ts),
            },
        },
        _ => Ok(true),
    }
}

/// The message for a type name that names no type.
pub open spec fn no_such_type(name: Seq<char>) -> Seq<char> {
    "type `"@ + name + "` not found"@
}

/// The resolved built-in type of a field type, or the message of what fails.
pub open spec fn spec_get_builtin(t: TypeEnum, ts: TypeSystem) -> Result<Type, Seq<char>>
    decreases t,
{
    match t {
        TypeEnum::String(_) => Ok(Type::String),
        TypeEnum::Number(_) => Ok(Type::Float),
        TypeEnum::Bool(_) => Ok(Type::Boolean),
        TypeEnum::JsDate(_) => Ok(Type::JsDate),
        TypeEnum::ArrayBuffer(_) => Ok(Type::ArrayBuffer),
        TypeEnum::Entity(n) => match ts.spec_builtin_type(n@) {
            Some(ty) => Ok(ty),
            None => Err(no_such_type(n@)),
        },
        TypeEnum::EntityId(n) => Ok(Type::EntityId(n)),
        TypeEnum::Array(c) => match c.value_type {
            None => Err("value_type of ContainerType is None"@),
            Some(m) => match m.type_enum {
                None => Err("type_enum of value_type of ContainerType is None"@),
                Some(inner) => match spec_get_builtin(inner, ts) {
                    Ok(e) => Ok(Type::Array(Box::new(e))),
                    Err(msg) => Err(msg),
                },
            },
        },
    }
}

impl TypeEnum {
    /// Whether this field type is built in.
    pub fn is_builtin(&self, ts: &TypeSystem) -> (r: Result<bool, String>)
        requires
            ts.wf(),
        ensures
            match (r, spec_is_builtin(*self, *ts)) {
                (Ok(b), Ok(c)) => b == c,
                (Err(e), Err(m)) => e@ == m,
                _ => false,
            },
        decreases self,
    {
        match self {
            TypeEnum::Entity(n) => Ok(ts.lookup_builtin_type(n.as_str()).is_some()),
            TypeEnum::EntityId(n) => Ok(ts.lookup_builtin_type(n.as_str()).is_some()),
            TypeEnum::Array(c) => match c.value_type() {
                Ok(inner) => inner.is_builtin(ts),
                Err(e) => Err(e),
            },
            _ => Ok(true),
        }
    }

    /// The resolved built-in type of this field type.
    pub fn get_builtin(&self, ts: &TypeSystem) -> (r: Result<Type, String>)
        requires
            ts.wf(),
        ensures
            match (r, spec_get_builtin(*self, *ts)) {
                (Ok(t), Ok(u)) => t == u,
                (Err(e), Err(m)) => e@ == m,
                _ => false,
            },
        decreases self,
    {
        match self {
            TypeEnum::String(_) => Ok(Type::String),
            TypeEnum::Number(_) => Ok(Type::Float),
            TypeEnum::Bool(_) => Ok(Type::Boolean),
            TypeEnum::JsDate(_) => Ok(Type::JsDate),
            TypeEnum::ArrayBuffer(_) => Ok(Type::ArrayBuffer),
            TypeEnum::Entity(n) => match ts.lookup_builtin_type(n.as_str()) {
                Some(ty) => Ok(ty),
                None => {
                    proof {
                        reveal_strlit("type `");
                        reveal_strlit("` not found");
                    }
                    Err(string_concat("type `", n.as_str()).concat("` not found"))
                },
            },
            TypeEnum::EntityId(n) => Ok(Type::EntityId(n.clone())),
            TypeEnum::Array(c) => match c.value_type() {
                Ok(inner) => match inner.get_builtin(ts) {
                    Ok(e) => Ok(Type::Array(Box::new(e))),
                    Err(e) => Err(e),
                },
                Err(e) => Err(e),
            },
        }
    }
}

/// The field lists of the candidates for entity `name`, in order.
pub open spec fn indexes_of(c: Seq<IndexCandidate>, name: Seq<char>) -> Seq<Seq<Seq<char>>>
    decreases c.len(),
{
    if c.len() == 0 {
        Seq::empty()
    } else if c.last().entity_name@ == name {
        indexes_of(c.drop_last(), name).push(strings_view(c.last().properties@))
    } else {
        indexes_of(c.drop_last(), name)
    }
}

/// The text of each string.
pub open spec fn strings_view(v: Seq<String>) -> Seq<Seq<char>> {
    v.map_values(|s: String| s@)
}

/// The field lists of some indexes.
pub open spec fn index_fields(v: Seq<DbIndex>) -> Seq<Seq<Seq<char>>> {
    v.map_values(|i: DbIndex| strings_view(i.fields@))
}

proof fn lemma_indexes_of_none(c: Seq<IndexCandidate>, name: Seq<char>)
    requires
        forall|j: int| 0 <= j < c.len() ==> (#[trigger] c[j]).entity_name@ != name,
    ensures
        indexes_of(c, name) == Seq::<Seq<Seq<char>>>::empty(),
    decreases c.len(),
{
    if c.len() > 0 {
        assert(c.drop_last().len() == c.len() - 1);
        assert forall|j: int| 0 <= j < c.drop_last().len() implies (#[trigger] c.drop_last()[j]).entity_name@ != name by {
            assert(c.drop_last()[j] == c[j]);
        }
        lemma_indexes_of_none(c.drop_last(), name);
    }
}

fn copy_strings(v: &Vec<String>) -> (r: Vec<String>)
    ensures
        r@ == v@,
{
    let mut r: Vec<String> = Vec::new();
    let mut i: usize = 0;
    while i < v.len()
        invariant
            i <= v@.len(),
            r@ == v@.take(i as int),
        decreases v@.len() - i,
    {
        r.push(v[i].clone());
        assert(r@ =~= v@.take(i + 1));
        i = i + 1;
    }
    assert(v@.take(v@.len() as int) =~= v@);
    r
}

fn find_group(groups: &Vec<(String, Vec<DbIndex>)>, name: &str) -> (r: Option<usize>)
    ensures
        r matches Some(k) ==> k < groups@.len() && groups@[k as int].0@ == name@,
        r is None ==> forall|m: int| 0 <= m < groups@.len() ==> (#[trigger] groups@[m]).0@ != name@,
{
    let mut k: usize = 0;
    while k < groups.len()
        invariant
            k <= groups@.len(),
            forall|m: int| 0 <= m < k ==> (#[trigger] groups@[m]).0@ != name@,
        decreases groups@.len() - k,
    {
        if str_eq(groups[k].0.as_str(), name) {
            return Some(k);
        }
        k = k + 1;
    }
    None
}

/// The entity names of some groups, in order.
pub open spec fn group_names(g: Seq<(String, Vec<DbIndex>)>) -> Seq<Seq<char>> {
    g.map_values(|x: (String, Vec<DbIndex>)| x.0@)
}

/// The entity names of some candidates, in order.
pub open spec fn candidate_names(c: Seq<IndexCandidate>) -> Seq<Seq<char>> {
    c.map_values(|x: IndexCandidate| x.entity_name@)
}

/// Groups the index candidates by entity: one entry per entity that has
/// candidates, holding the indexes over each candidate's fields in order.
pub fn aggregate_indexes(indexes: &Vec<IndexCandidate>) -> (r: Vec<(String, Vec<DbIndex>)>)
    ensures
        group_names(r@).no_duplicates(),
        group_names(r@).to_set() == candidate_names(indexes@).to_set(),
        forall|k: int| 0 <= k < r@.len() ==> index_fields((#[trigger] r@[k]).1@) == indexes_of(indexes@, r@[k].0@),
        forall|k: int, m: int| 0 <= k < r@.len() && 0 <= m < r@[k].1@.len() ==> (#[trigger] r@[k].1@[m]).meta_id is None,
{
    let mut groups: Vec<(String, Vec<DbIndex>)> = Vec::new();
    let mut i: usize = 0;
    assert(group_names(groups@).to_set() =~= candidate_names(indexes@.take(0)).to_set());
    while i < indexes.len()
        invariant
            i <= indexes@.len(),
            group_names(groups@).no_duplicates(),
            group_names(groups@).to_set() == candidate_names(indexes@.take(i as int)).to_set(),
            forall|k: int| 0 <= k < groups@.len() ==> index_fields((#[trigger] groups@[k]).1@) == indexes_of(indexes@.take(i as int), groups@[k].0@),
            forall|k: int, m: int| 0 <= k < groups@.len() && 0 <= m < groups@[k].1@.len() ==> (#[trigger] groups@[k].1@[m]).meta_id is None,
        decreases indexes@.len() - i,
    {
        let cand = &indexes[i];
        let idx = DbIndex::new_from_fields(copy_strings(&cand.properties));
        let ghost t = indexes@.take(i + 1);
        let ghost n = cand.entity_name@;
        let ghost fv = strings_view(idx.fields@);
        assert(t.drop_last() =~= indexes@.take(i as int));
        assert(t.last() == indexes@[i as int]);
        assert(candidate_names(t) =~= candidate_names(indexes@.take(i as int)).push(n));
        let found = find_group(&groups, cand.entity_name.as_str());
        let ghost old_groups = groups@;
        let ghost old_names = group_names(old_groups);
        if let Some(k) = found {
            let mut g = groups.remove(k);
            let ghost og = g;
            g.1.push(idx);
            let ghost ng = g;
            groups.insert(k, g);
            proof {
                assert(groups@ =~= old_groups.update(k as int, ng));
                assert(index_fields(ng.1@) =~= index_fields(og.1@).push(fv));
                assert(group_names(groups@) =~= old_names);
                assert(old_names[k as int] == n);
                assert(old_names.to_set().contains(n));
                lemma_push_to_set(candidate_names(indexes@.take(i as int)), n);
                assert forall|m: int| 0 <= m < groups@.len() implies index_fields((#[trigger] groups@[m]).1@) == indexes_of(t, groups@[m].0@) by {
                    if m != k {
                        assert(old_names[m] == old_groups[m].0@);
                        assert(old_groups[m].0@ != n);
                    }
                }
                assert forall|m: int, q: int| 0 <= m < groups@.len() && 0 <= q < groups@[m].1@.len() implies (#[trigger] groups@[m].1@[q]).meta_id is None by {
                    if m == k && q < og.1@.len() {
                        assert(groups@[m].1@[q] == old_groups[m].1@[q]);
                    }
                }
            }
        } else {
            proof {
                assert forall|j: int| 0 <= j < indexes@.take(i as int).len() implies (#[trigger] indexes@.take(i as int)[j]).entity_name@ != n by {
                    let x = indexes@.take(i as int)[j].entity_name@;
                    assert(candidate_names(indexes@.take(i as int))[j] == x);
                    if x == n {
                        assert(candidate_names(indexes@.take(i as int)).to_set().contains(n));
                        assert(old_names.to_set().contains(n));
                        let m = choose|m: int| 0 <= m < old_names.len() && old_names[m] == n;
                        assert(old_groups[m].0@ == n);
                    }
                }
                lemma_indexes_of_none(indexes@.take(i as int), n);
                assert forall|m: int| 0 <= m < old_names.len() implies (#[trigger] old_names[m]) != n by {
                    assert(old_groups[m].0@ != n);
                }
            }
            let mut v: Vec<DbIndex> = Vec::new();
            v.push(idx);
            let ghost nv = v;
            groups.push((cand.entity_name.clone(), v));
            proof {
                assert(index_fields(nv@) =~= seq![fv]);
                assert(group_names(groups@) =~= old_names.push(n));
                lemma_push_to_set(candidate_names(indexes@.take(i as int)), n);
                lemma_push_to_set(old_names, n);
                assert forall|m: int| 0 <= m < groups@.len() implies index_fields((#[trigger] groups@[m]).1@) == indexes_of(t, groups@[m].0@) by {
                    if m < old_groups.len() {
                        assert(groups@[m] == old_groups[m]);
                        assert(old_names[m] == old_groups[m].0@);
                    }
                }
                assert forall|m: int, q: int| 0 <= m < groups@.len() && 0 <= q < groups@[m].1@.len() implies (#[trigger] groups@[m].1@[q]).meta_id is None by {
                    if m < old_groups.len() {
                        assert(groups@[m] == old_groups[m]);
                    }
                }
            }
        }
        i = i + 1;
    }
    assert(indexes@.take(indexes@.len() as int) =~= indexes@);
    groups
}

/// The names of some type definitions, in order.
pub open spec fn type_names(types: Seq<AddTypeRequest>) -> Seq<Seq<char>> {
    types.map_values(|t: AddTypeRequest| t.name@)
}

/// Whether every name of `order` names one of the types.
pub open spec fn all_known(order: Seq<Seq<char>>, names: Seq<Seq<char>>) -> bool {
    forall|i: int| 0 <= i < order.len() ==> names.contains(#[trigger] order[i])
}

/// The first name of `order` that names none of the types.
pub open spec fn first_unknown(order: Seq<Seq<char>>, names: Seq<Seq<char>>) -> int
    decreases order.len(),
{
    if order.len() == 0 {
        0
    } else if !names.contains(order[0]) {
        0
    } else {
        1 + first_unknown(order.drop_first(), names)
    }
}

proof fn lemma_first_unknown(order: Seq<Seq<char>>, names: Seq<Seq<char>>, i: int)
    requires
        0 <= i < order.len(),
        !names.contains(order[i]),
        forall|k: int| 0 <= k < i ==> names.contains(#[trigger] order[k]),
    ensures
        first_unknown(order, names) == i,
    decreases i,
{
    if i > 0 {
        assert(names.contains(order[0]));
        assert forall|k: int| 0 <= k < i - 1 implies names.contains(#[trigger] order.drop_first()[k]) by {
            assert(order.drop_first()[k] == order[k + 1]);
        }
        lemma_first_unknown(order.drop_first(), names, i - 1);
    }
}

fn position_of(types: &Vec<AddTypeRequest>, name: &str) -> (r: Option<usize>)
    ensures
        r matches Some(j) ==> j < types@.len() && types@[j as int].name@ == name@,
        r is None ==> !type_names(types@).contains(name@),
{
    let mut j: usize = 0;
    while j < types.len()
        invariant
            j <= types@.len(),
            forall|k: int| 0 <= k < j ==> (#[trigger] types@[k]).name@ != name@,
        decreases types@.len() - j,
    {
        if str_eq(types[j].name.as_str(), name) {
            return Some(j);
        }
        j = j + 1;
    }
    proof {
        if type_names(types@).contains(name@) {
            let k = choose|k: int| 0 <= k < type_names(types@).len() && type_names(types@)[k] == name@;
            assert(types@[k].name@ == name@);
        }
    }
    None
}

/// The text of each name of an order, if there is one.
pub open spec fn order_view(order: Option<Vec<String>>) -> Option<Seq<Seq<char>>> {
    match order {
        Some(o) => Some(strings_view(o@)),
        None => None,
    }
}

/// The outcome of putting the type definitions in `order`: with no order (a
/// cycle) an error; with an order that names an unknown type an error naming
/// the first such name; else the definitions, each once, in that order.
pub open spec fn ordered_as(types: Seq<AddTypeRequest>, order: Option<Seq<Seq<char>>>, r: Result<Vec<AddTypeRequest>, String>) -> bool {
    match order {
        None => r matches Err(e) && e@ == "cycle detected in models"@,
        Some(o) => if all_known(o, type_names(types)) {
            r matches Ok(v) && v@.len() == types.len() && v@.len() == o.len()
                && forall|i: int| 0 <= i < v@.len() ==> (#[trigger] v@[i]).name@ == o[i] && types.contains(v@[i])
        } else {
            r matches Err(e) && e@ == "unknown type "@ + o[first_unknown(o, type_names(types))]
        },
    }
}

/// Puts the type definitions in the given order of their names: the order a
/// topological sort of their dependencies gave, or none when the
/// dependencies form a cycle.
pub fn order_types_by(types: Vec<AddTypeRequest>, order: Option<Vec<String>>) -> (r: Result<Vec<AddTypeRequest>, String>)
    requires
        type_names(types@).no_duplicates(),
        order matches Some(o) ==> strings_view(o@).no_duplicates()
            && type_names(types@).to_set().subset_of(strings_view(o@).to_set()),
    ensures
        ordered_as(types@, order_view(order), r),
{
    match order {
        None => {
            let e = "cycle detected in models".to_owned();
            let r: Result<Vec<AddTypeRequest>, String> = Err(e);
            assert(ordered_as(types@, order_view(order), r));
            r
        },
        Some(o) => order_types(types, o),
    }
}

fn order_types(types: Vec<AddTypeRequest>, o: Vec<String>) -> (r: Result<Vec<AddTypeRequest>, String>)
    requires
        type_names(types@).no_duplicates(),
        strings_view(o@).no_duplicates(),
        type_names(types@).to_set().subset_of(strings_view(o@).to_set()),
    ensures
        ordered_as(types@, Some(strings_view(o@)), r),
{
    let ghost orig = types@;
    let ghost names = type_names(types@);
    let ghost ov = strings_view(o@);
    let mut positions: Vec<usize> = Vec::new();
    let mut i: usize = 0;
    while i < o.len()
        invariant
            i <= o@.len(),
            ov == strings_view(o@),
            names == type_names(types@),
            positions@.len() == i,
            forall|k: int| 0 <= k < i ==> names.contains(#[trigger] ov[k]),
            forall|k: int| 0 <= k < i ==> (#[trigger] positions@[k]) < types@.len() && types@[positions@[k] as int].name@ == ov[k],
        decreases o@.len() - i,
    {
        match position_of(&types, o[i].as_str()) {
            Some(j) => {
                assert(names[j as int] == ov[i as int]);
                positions.push(j);
            },
            None => {
                proof {
                    lemma_first_unknown(ov, names, i as int);
                    assert(!all_known(ov, names));
                }
                return Err(string_concat("unknown type ", o[i].as_str()));
            },
        }
        i = i + 1;
    }
    proof {
        assert(ov.to_set() =~= names.to_set()) by {
            assert forall|x: Seq<char>| ov.to_set().contains(x) implies names.to_set().contains(x) by {
                let k = choose|k: int| 0 <= k < ov.len() && ov[k] == x;
                assert(names.contains(ov[k]));
            }
        }
        ov.unique_seq_to_set();
        names.unique_seq_to_set();
    }
    let mut slots: Vec<Option<AddTypeRequest>> = Vec::new();
    let mut rest = types;
    while rest.len() > 0
        invariant
            slots@.len() + rest@.len() == orig.len(),
            rest@ == orig.skip(slots@.len() as int),
            forall|k: int| 0 <= k < slots@.len() ==> (#[trigger] slots@[k]) == Some(orig[k]),
        decreases rest@.len(),
    {
        let ghost n: int = slots@.len() as int;
        let x = rest.remove(0);
        slots.push(Some(x));
        assert(rest@ =~= orig.skip(n + 1));
    }
    let mut v: Vec<AddTypeRequest> = Vec::new();
    let mut i: usize = 0;
    while i < positions.len()
        invariant
            positions@.len() == o@.len(),
            o@.len() == orig.len(),
            slots@.len() == orig.len(),
            ov == strings_view(o@),
            names == type_names(orig),
            names.no_duplicates(),
            ov.no_duplicates(),
            i <= positions@.len(),
            v@.len() == i,
            forall|k: int| 0 <= k < positions@.len() ==> (#[trigger] positions@[k]) < orig.len() && orig[positions@[k] as int].name@ == ov[k],
            forall|j: int| 0 <= j < orig.len() ==> ((#[trigger] slots@[j]) is None <==> exists|k: int| 0 <= k < i && positions@[k] == j),
            forall|j: int| 0 <= j < orig.len() && slots@[j] is Some ==> (#[trigger] slots@[j]) == Some(orig[j]),
            forall|k: int| 0 <= k < i ==> (#[trigger] v@[k]) == orig[positions@[k] as int],
        decreases positions@.len() - i,
    {
        let p = positions[i];
        proof {
            if slots@[p as int] is None {
                let k = choose|k: int| 0 <= k < i && positions@[k] == p;
                assert(orig[p as int].name@ == ov[k]);
                assert(orig[p as int].name@ == ov[i as int]);
                assert(false);
            }
        }
        let ghost before = slots@;
        let x = slots.remove(p);
        slots.insert(p, None);
        assert(slots@ =~= before.update(p as int, None));
        match x {
            Some(t) => {
                v.push(t);
            },
            None => {
                assert(false);
            },
        }
        proof {
            assert forall|j: int| 0 <= j < orig.len() implies ((#[trigger] slots@[j]) is None <==> exists|k: int| 0 <= k < i + 1 && positions@[k] == j) by {
                if j == p {
                    assert(positions@[i as int] == j);
                } else if before[j] is None {
                    let k = choose|k: int| 0 <= k < i && positions@[k] == j;
                    assert(0 <= k < i + 1 && positions@[k] == j);
                } else {
                    if exists|k: int| 0 <= k < i + 1 && positions@[k] == j {
                        let k = choose|k: int| 0 <= k < i + 1 && positions@[k] == j;
                        assert(k != i);
                        assert(false);
                    }
                }
            }
        }
        i = i + 1;
    }
    proof {
        assert forall|k: int| 0 <= k < v@.len() implies (#[trigger] v@[k]).name@ == ov[k] && orig.contains(v@[k]) by {
            let j = positions@[k] as int;
            assert(ov[k] == o@[k]@);
            assert(v@[k] == orig[j]);
        }
        assert(all_known(ov, names));
    }
    Ok(v)
}

/// The entity types that the fields refer to and that are not built in, in
/// field order, or the message of the first field whose type is missing.
pub open spec fn field_refs(ts: TypeSystem, fields: Seq<FieldDefinition>) -> Result<Seq<Seq<char>>, Seq<char>>
    decreases fields.len(),
{
    if fields.len() == 0 {
        Ok(Seq::empty())
    } else {
        match field_refs(ts, fields.drop_last()) {
            Err(e) => Err(e),
            Ok(prev) => match spec_field_type(fields.last()) {
                Err(e) => Err(e),
                Ok(TypeEnum::Entity(n)) => if ts.spec_builtin_type(n@) is Some {
                    Ok(prev)
                } else {
                    Ok(prev.push(n@))
                },
                Ok(_) => Ok(prev),
            },
        }
    }
}

/// The dependency graph of the type definitions, as node and edge lists in
/// the order they are added: each type's name, then the entity types its
/// fields refer to, each with an edge to the type.
pub open spec fn dependency_graph(ts: TypeSystem, types: Seq<AddTypeRequest>)
    -> Result<(Seq<Seq<char>>, Seq<(Seq<char>, Seq<char>)>), Seq<char>>
    decreases types.len(),
{
    if types.len() == 0 {
        Ok((Seq::empty(), Seq::empty()))
    } else {
        match dependency_graph(ts, types.drop_last()) {
            Err(e) => Err(e),
            Ok((ns, es)) => {
                let t = types.last();
                match field_refs(ts, t.field_defs@) {
                    Err(e) => Err(e),
                    Ok(refs) => Ok((ns.push(t.name@) + refs, es + refs.map_values(|x: Seq<char>| (x, t.name@)))),
                }
            },
        }
    }
}

/// The text of each pair of strings.
pub open spec fn pairs_view(v: Seq<(String, String)>) -> Seq<(Seq<char>, Seq<char>)> {
    v.map_values(|p: (String, String)| (p.0@, p.1@))
}

/// The nodes of a graph given by a node list and an edge list.
pub open spec fn graph_nodes(nodes: Seq<Seq<char>>, edges: Seq<(Seq<char>, Seq<char>)>) -> Set<Seq<char>> {
    nodes.to_set() + edges.map_values(|e: (Seq<char>, Seq<char>)| e.0).to_set()
        + edges.map_values(|e: (Seq<char>, Seq<char>)| e.1).to_set()
}

/// Whether `order` lists the graph's nodes, each once, with the source of
/// every edge before its target.
pub open spec fn is_topological_order(nodes: Set<Seq<char>>, edges: Seq<(Seq<char>, Seq<char>)>, order: Seq<Seq<char>>) -> bool {
    &&& order.no_duplicates()
    &&& order.to_set() == nodes
    &&& forall|e: int| 0 <= e < edges.len() ==> exists|a: int, b: int|
            0 <= a < b < order.len() && order[a] == (#[trigger] edges[e]).0 && order[b] == edges[e].1
}

/// The order in which `petgraph::algo::toposort` lists the nodes of the graph
/// map built by adding `nodes`, then `edges`, in turn; `None` for a cycle.
pub uninterp spec fn spec_toposort(nodes: Seq<Seq<char>>, edges: Seq<(Seq<char>, Seq<char>)>) -> Option<Seq<Seq<char>>>;

/// Builds a `petgraph` directed graph map by adding `nodes`, then `edges`,
/// and sorts it with `petgraph::algo::toposort`. The order is the named
/// `spec_toposort`; the contract claims what the crate documents: that it is
/// a topological order of the graph, and that the sort fails exactly when the
/// graph has none (it has a cycle; self loops count).
#[verifier::external_body]
fn toposort(nodes: &Vec<String>, edges: &Vec<(String, String)>) -> (r: Option<Vec<String>>)
    ensures
        match r {
            Some(o) => spec_toposort(strings_view(nodes@), pairs_view(edges@)) == Some(strings_view(o@)),
            None => spec_toposort(strings_view(nodes@), pairs_view(edges@)) is None,
        },
        r matches Some(o) ==> is_topological_order(graph_nodes(strings_view(nodes@), pairs_view(edges@)), pairs_view(edges@), strings_view(o@)),
        r is None <==> !exists|o: Seq<Seq<char>>| is_topological_order(graph_nodes(strings_view(nodes@), pairs_view(edges@)), pairs_view(edges@), o),
{
    let mut g: petgraph::graphmap::GraphMap<&str, (), petgraph::Directed> = petgraph::graphmap::GraphMap::new();
    for n in nodes.iter() {
        g.add_node(n.as_str());
    }
    for (a, b) in edges.iter() {
        g.add_edge(a.as_str(), b.as_str(), ());
    }
    petgraph::algo::toposort(&g, None).ok().map(|o| o.iter().map(|s| s.to_string()).collect())
}

fn field_refs_of(ts: &TypeSystem, fields: &Vec<FieldDefinition>) -> (r: Result<Vec<String>, String>)
    requires
        ts.wf(),
    ensures
        match (r, field_refs(*ts, fields@)) {
            (Ok(v), Ok(s)) => strings_view(v@) == s,
            (Err(e), Err(m)) => e@ == m,
            _ => false,
        },
{
    let mut refs: Vec<String> = Vec::new();
    let mut j: usize = 0;
    assert(fields@.take(0) =~= Seq::<FieldDefinition>::empty());
    assert(strings_view(refs@) =~= Seq::<Seq<char>>::empty());
    while j < fields.len()
        invariant
            ts.wf(),
            j <= fields@.len(),
            field_refs(*ts, fields@.take(j as int)) == Ok::<Seq<Seq<char>>, Seq<char>>(strings_view(refs@)),
        decreases fields@.len() - j,
    {
        let ghost t = fields@.take(j + 1);
        assert(t.drop_last() =~= fields@.take(j as int));
        assert(t.last() == fields@[j as int]);
        match fields[j].field_type() {
            Err(e) => {
                proof { lemma_field_refs_err_extends(*ts, fields@, j as int + 1); }
                return Err(e);
            },
            Ok(TypeEnum::Entity(n)) => {
                let b = TypeEnum::Entity(n.clone()).is_builtin(ts);
                match b {
                    Ok(true) => {},
                    _ => {
                        let ghost before = strings_view(refs@);
                        refs.push(n.clone());
                        assert(strings_view(refs@) =~= before.push(n@));
                    },
                }
            },
            Ok(_) => {},
        }
        j = j + 1;
    }
    assert(fields@.take(fields@.len() as int) =~= fields@);
    Ok(refs)
}

proof fn lemma_field_refs_err_extends(ts: TypeSystem, fields: Seq<FieldDefinition>, k: int)
    requires
        0 <= k <= fields.len(),
        field_refs(ts, fields.take(k)) is Err,
    ensures
        field_refs(ts, fields) == field_refs(ts, fields.take(k)),
    decreases fields.len() - k,
{
    if k < fields.len() {
        let t = fields.take(k + 1);
        assert(t.drop_last() =~= fields.take(k));
        lemma_field_refs_err_extends(ts, fields, k + 1);
    } else {
        assert(fields.take(k) =~= fields);
    }
}

proof fn lemma_graph_err_extends(ts: TypeSystem, types: Seq<AddTypeRequest>, k: int)
    requires
        0 <= k <= types.len(),
        dependency_graph(ts, types.take(k)) is Err,
    ensures
        dependency_graph(ts, types) == dependency_graph(ts, types.take(k)),
    decreases types.len() - k,
{
    if k < types.len() {
        let t = types.take(k + 1);
        assert(t.drop_last() =~= types.take(k));
        lemma_graph_err_extends(ts, types, k + 1);
    } else {
        assert(types.take(k) =~= types);
    }
}

/// The dependency graph of the type definitions, as node and edge lists.
fn dependency_edges(ts: &TypeSystem, types: &Vec<AddTypeRequest>) -> (r: Result<(Vec<String>, Vec<(String, String)>), String>)
    requires
        ts.wf(),
    ensures
        match (r, dependency_graph(*ts, types@)) {
            (Ok((n, e)), Ok((sn, se))) => strings_view(n@) == sn && pairs_view(e@) == se,
            (Err(x), Err(m)) => x@ == m,
            _ => false,
        },
        r matches Ok((n, e)) ==> type_names(types@).to_set().subset_of(strings_view(n@).to_set()),
{
    let mut nodes: Vec<String> = Vec::new();
    let mut edges: Vec<(String, String)> = Vec::new();
    let mut i: usize = 0;
    assert(types@.take(0) =~= Seq::<AddTypeRequest>::empty());
    assert(strings_view(nodes@) =~= Seq::<Seq<char>>::empty());
    assert(pairs_view(edges@) =~= Seq::<(Seq<char>, Seq<char>)>::empty());
    while i < types.len()
        invariant
            ts.wf(),
            i <= types@.len(),
            dependency_graph(*ts, types@.take(i as int)) == Ok::<(Seq<Seq<char>>, Seq<(Seq<char>, Seq<char>)>), Seq<char>>((strings_view(nodes@), pairs_view(edges@))),
            forall|k: int| 0 <= k < i ==> strings_view(nodes@).contains(#[trigger] types@[k].name@),
        decreases types@.len() - i,
    {
        let ghost t = types@.take(i + 1);
        assert(t.drop_last() =~= types@.take(i as int));
        assert(t.last() == types@[i as int]);
        let ty = &types[i];
        match field_refs_of(ts, &ty.field_defs) {
            Err(e) => {
                proof { lemma_graph_err_extends(*ts, types@, i as int + 1); }
                return Err(e);
            },
            Ok(refs) => {
                let ghost n0 = strings_view(nodes@);
                let ghost e0 = pairs_view(edges@);
                nodes.push(ty.name.clone());
                let mut k: usize = 0;
                assert(strings_view(refs@).take(0) =~= Seq::<Seq<char>>::empty());
                while k < refs.len()
                    invariant
                        k <= refs@.len(),
                        strings_view(nodes@) == n0.push(ty.name@) + strings_view(refs@).take(k as int),
                        pairs_view(edges@) == e0 + strings_view(refs@).take(k as int).map_values(|x: Seq<char>| (x, ty.name@)),
                    decreases refs@.len() - k,
                {
                    let ghost nb = strings_view(nodes@);
                    let ghost eb = pairs_view(edges@);
                    nodes.push(refs[k].clone());
                    edges.push((refs[k].clone(), ty.name.clone()));
                    assert(strings_view(refs@).take(k + 1) =~= strings_view(refs@).take(k as int).push(refs@[k as int]@));
                    assert(strings_view(nodes@) =~= nb.push(refs@[k as int]@));
                    assert(pairs_view(edges@) =~= eb.push((refs@[k as int]@, ty.name@)));
                    assert(strings_view(refs@).take(k + 1).map_values(|x: Seq<char>| (x, ty.name@))
                        =~= strings_view(refs@).take(k as int).map_values(|x: Seq<char>| (x, ty.name@)).push((refs@[k as int]@, ty.name@)));
                    assert(strings_view(nodes@) =~= n0.push(ty.name@) + strings_view(refs@).take(k + 1));
                    k = k + 1;
                }
                assert(strings_view(refs@).take(refs@.len() as int) =~= strings_view(refs@));
                proof {
                    assert forall|q: int| 0 <= q < i + 1 implies strings_view(nodes@).contains(#[trigger] types@[q].name@) by {
                        if q == i {
                            assert(strings_view(nodes@)[n0.len() as int] == types@[q].name@);
                        } else {
                            let w = choose|w: int| 0 <= w < n0.len() && n0[w] == types@[q].name@;
                            assert(strings_view(nodes@)[w] == n0[w]);
                        }
                    }
                }
            },
        }
        i = i + 1;
    }
    assert(types@.take(types@.len() as int) =~= types@);
    proof {
        assert forall|x: Seq<char>| type_names(types@).to_set().contains(x) implies strings_view(nodes@).to_set().contains(x) by {
            let q = choose|q: int| 0 <= q < type_names(types@).len() && type_names(types@)[q] == x;
            assert(strings_view(nodes@).contains(types@[q].name@));
        }
    }
    Ok((nodes, edges))
}

/// Orders the type definitions so that every type comes after the entity
/// types its fields refer to: the dependency graph is sorted topologically.
/// Fails with the first missing field type, on a cycle, or on a reference to
/// an entity that is neither built in nor defined.
pub fn sort_custom_types(ts: &TypeSystem, types: Vec<AddTypeRequest>) -> (r: Result<Vec<AddTypeRequest>, String>)
    requires
        ts.wf(),
        type_names(types@).no_duplicates(),
    ensures
        match dependency_graph(*ts, types@) {
            Err(m) => r matches Err(e) && e@ == m,
            Ok((ns, es)) => {
                &&& ordered_as(types@, spec_toposort(ns, es), r)
                &&& (r is Err <==> (!(exists|o: Seq<Seq<char>>| is_topological_order(graph_nodes(ns, es), es, o))
                        || !graph_nodes(ns, es).subset_of(type_names(types@).to_set())))
                &&& r matches Ok(v) ==> forall|e: int| 0 <= e < es.len()
                        ==> comes_before(v@, (#[trigger] es[e]).0, es[e].1)
                &&& r matches Ok(v) ==> is_permutation_of(v@, types@)
            },
        },
{
    let (nodes, edges) = match dependency_edges(ts, &types) {
        Err(e) => return Err(e),
        Ok(g) => g,
    };
    let order = toposort(&nodes, &edges);
    proof {
        if order is Some {
            let o = strings_view(order->0@);
            let gn = graph_nodes(strings_view(nodes@), pairs_view(edges@));
            assert(o.to_set() == gn);
            assert(strings_view(nodes@).to_set().subset_of(gn));
        }
    }
    let r = order_types_by(types, order);
    proof {
        if order is Some {
            let o = strings_view(order->0@);
            let es = pairs_view(edges@);
            let gn = graph_nodes(strings_view(nodes@), es);
            lemma_known_iff_subset(o, gn, type_names(types@));
            assert(is_topological_order(gn, es, o));
            if r is Ok {
                lemma_sorted_follow_edges(gn, es, o, r->Ok_0);
                let v = r->Ok_0;
                let ns = strings_view(nodes@);
                lemma_graph_names(*ts, types@);
                assert(type_names(v@) =~= o);
                assert forall|i: int| 0 <= i < types@.len() implies v@.contains(#[trigger] types@[i]) by {
                    let x = types@[i].name@;
                    assert(ns.contains(x));
                    assert(ns.to_set().contains(x));
                    assert(gn.contains(x));
                    assert(o.to_set().contains(x));
                    let k = choose|k: int| 0 <= k < o.len() && o[k] == x;
                    assert(v@[k].name@ == x);
                    assert(types@.contains(v@[k]));
                    let i2 = choose|i2: int| 0 <= i2 < types@.len() && types@[i2] == v@[k];
                    assert(type_names(types@)[i2] == type_names(types@)[i]);
                    assert(v@[k] == types@[i]);
                }
            }
        }
    }
    r
}

/// `v` holds the definitions of `types`, each once, in some order: as many,
/// with distinct names, each a definition of `types`, and every definition of
/// `types` among them.
pub open spec fn is_permutation_of(v: Seq<AddTypeRequest>, types: Seq<AddTypeRequest>) -> bool {
    &&& v.len() == types.len()
    &&& type_names(v).no_duplicates()
    &&& forall|i: int| 0 <= i < v.len() ==> types.contains(#[trigger] v[i])
    &&& forall|i: int| 0 <= i < types.len() ==> v.contains(#[trigger] types[i])
}

/// The nodes of the dependency graph include the name of every definition.
proof fn lemma_graph_names(ts: TypeSystem, types: Seq<AddTypeRequest>)
    requires
        dependency_graph(ts, types) is Ok,
    ensures
        forall|i: int| 0 <= i < types.len() ==> dependency_graph(ts, types)->Ok_0.0.contains(#[trigger] types[i].name@),
    decreases types.len(),
{
    if types.len() > 0 {
        let prev = types.drop_last();
        lemma_graph_names(ts, prev);
        let (ns0, es0) = dependency_graph(ts, prev)->Ok_0;
        let t = types.last();
        let refs = field_refs(ts, t.field_defs@)->Ok_0;
        let ns = dependency_graph(ts, types)->Ok_0.0;
        assert(ns == ns0.push(t.name@) + refs);
        assert forall|i: int| 0 <= i < types.len() implies ns.contains(#[trigger] types[i].name@) by {
            if i < prev.len() {
                assert(prev[i] == types[i]);
                let k = choose|k: int| 0 <= k < ns0.len() && ns0[k] == prev[i].name@;
                assert(ns[k] == ns0[k]);
            } else {
                assert(ns[ns0.len() as int] == t.name@);
            }
        }
    }
}

/// Some type named `x` comes before some type named `y`.
pub open spec fn comes_before(v: Seq<AddTypeRequest>, x: Seq<char>, y: Seq<char>) -> bool {
    exists|a: int, b: int| 0 <= a < b < v.len() && v[a].name@ == x && v[b].name@ == y
}

/// An order that lists the nodes of a graph names only known types exactly
/// when every node is a known type.
proof fn lemma_known_iff_subset(o: Seq<Seq<char>>, gn: Set<Seq<char>>, names: Seq<Seq<char>>)
    requires
        o.to_set() == gn,
    ensures
        all_known(o, names) <==> gn.subset_of(names.to_set()),
{
    if all_known(o, names) {
        assert forall|x: Seq<char>| gn.contains(x) implies names.to_set().contains(x) by {
            assert(o.to_set().contains(x));
            let i = choose|i: int| 0 <= i < o.len() && o[i] == x;
            assert(names.contains(o[i]));
        }
    }
    if gn.subset_of(names.to_set()) {
        assert forall|i: int| 0 <= i < o.len() implies names.contains(#[trigger] o[i]) by {
            assert(o.to_set().contains(o[i]));
            assert(names.to_set().contains(o[i]));
        }
    }
}

/// Definitions put in a topological order of the dependency edges have the
/// source of each edge before its target.
proof fn lemma_sorted_follow_edges(gn: Set<Seq<char>>, es: Seq<(Seq<char>, Seq<char>)>, o: Seq<Seq<char>>,
    v: Vec<AddTypeRequest>)
    requires
        is_topological_order(gn, es, o),
        v@.len() == o.len(),
        forall|i: int| 0 <= i < v@.len() ==> (#[trigger] v@[i]).name@ == o[i],
    ensures
        forall|e: int| 0 <= e < es.len() ==> comes_before(v@, (#[trigger] es[e]).0, es[e].1),
{
    assert forall|e: int| 0 <= e < es.len() implies comes_before(v@, (#[trigger] es[e]).0, es[e].1) by {
        let (a, b) = choose|a: int, b: int| 0 <= a < b < o.len() && o[a] == es[e].0 && o[b] == es[e].1;
        assert(v@[a].name@ == o[a]);
        assert(v@[b].name@ == o[b]);
    }
}

/// A field of a new entity type, its type resolved.
#[derive(Debug)]
pub struct NewField {
    pub name: String,
    pub ty: Type,
    pub labels: Vec<String>,
    pub default_value: Option<String>,
    pub is_optional: bool,
    pub is_unique: bool,
}

/// An entity type as an apply defines it: its fields and its indexes.
#[derive(Debug)]
pub struct NewEntity {
    pub name: String,
    pub fields: Vec<NewField>,
    pub indexes: Vec<DbIndex>,
}

/// The resolved type of field `f` of entity `owner`: a built-in type, an
/// entity defined `earlier` in the apply, or a reference to an entity that
/// the apply defines; else the message that says why not.
pub open spec fn resolve_field(ts: TypeSystem, f: FieldDefinition, owner: Seq<char>, earlier: Seq<Seq<char>>, all: Seq<Seq<char>>) -> Result<Type, Seq<char>> {
    match spec_field_type(f) {
        Err(e) => Err(e),
        Ok(t) => match spec_is_builtin(t, ts) {
            Err(e) => Err(e),
            Ok(true) => spec_get_builtin(t, ts),
            Ok(false) => match t {
                TypeEnum::Entity(n) => if earlier.contains(n@) {
                    Ok(Type::Entity(n))
                } else {
                    Err("field type `"@ + n@ + "` is neither a built-in nor a custom type"@)
                },
                TypeEnum::EntityId(n) => if all.contains(n@) {
                    Ok(Type::EntityId(n))
                } else {
                    Err("field `"@ + f.name@ + "` of entity `"@ + owner + "` is of type `Id<"@ + n@
                        + ">`, but entity `"@ + n@ + "` is undefined"@)
                },
                _ => Err("field type must either be entity, entity id or be a builtin"@),
            },
        },
    }
}

/// The resolved types of the fields, in order, or the first failure.
pub open spec fn resolve_fields(ts: TypeSystem, fields: Seq<FieldDefinition>, owner: Seq<char>, earlier: Seq<Seq<char>>, all: Seq<Seq<char>>) -> Result<Seq<Type>, Seq<char>>
    decreases fields.len(),
{
    if fields.len() == 0 {
        Ok(Seq::empty())
    } else {
        match resolve_fields(ts, fields.drop_last(), owner, earlier, all) {
            Err(e) => Err(e),
            Ok(prev) => match resolve_field(ts, fields.last(), owner, earlier, all) {
                Err(e) => Err(e),
                Ok(t) => Ok(prev.push(t)),
            },
        }
    }
}

/// The resolved field types of each definition, in order, or the first
/// failure: a definition may not take a built-in type's name, and its fields
/// may use the entities defined before it.
pub open spec fn resolve_types(ts: TypeSystem, defs: Seq<AddTypeRequest>, all: Seq<Seq<char>>) -> Result<Seq<Seq<Type>>, Seq<char>>
    decreases defs.len(),
{
    if defs.len() == 0 {
        Ok(Seq::empty())
    } else {
        match resolve_types(ts, defs.drop_last(), all) {
            Err(e) => Err(e),
            Ok(prev) => {
                let d = defs.last();
                if ts.spec_builtin_type(d.name@) is Some {
                    Err("custom type expected, got `"@ + d.name@ + "` instead"@)
                } else {
                    match resolve_fields(ts, d.field_defs@, d.name@, type_names(defs.drop_last()), all) {
                        Err(e) => Err(e),
                        Ok(fs) => Ok(prev.push(fs)),
                    }
                }
            },
        }
    }
}

/// The index field lists of the first group for entity `name`; none if no group.
pub open spec fn group_of(groups: Seq<(String, Vec<DbIndex>)>, name: Seq<char>) -> Seq<Seq<Seq<char>>>
    decreases groups.len(),
{
    if groups.len() == 0 {
        Seq::empty()
    } else if groups[0].0@ == name {
        index_fields(groups[0].1@)
    } else {
        group_of(groups.drop_first(), name)
    }
}

fn contains_name(v: &Vec<String>, n: &str) -> (r: bool)
    ensures
        r == strings_view(v@).contains(n@),
{
    let mut i: usize = 0;
    while i < v.len()
        invariant
            i <= v@.len(),
            forall|k: int| 0 <= k < i ==> (#[trigger] v@[k])@ != n@,
        decreases v@.len() - i,
    {
        if str_eq(v[i].as_str(), n) {
            assert(strings_view(v@)[i as int] == n@);
            return true;
        }
        i = i + 1;
    }
    proof {
        if strings_view(v@).contains(n@) {
            let k = choose|k: int| 0 <= k < strings_view(v@).len() && strings_view(v@)[k] == n@;
            assert(v@[k]@ == n@);
        }
    }
    false
}

fn resolve_field_type(ts: &TypeSystem, f: &FieldDefinition, owner: &str, earlier: &Vec<String>, all: &Vec<String>) -> (r: Result<Type, String>)
    requires
        ts.wf(),
    ensures
        match (r, resolve_field(*ts, *f, owner@, strings_view(earlier@), strings_view(all@))) {
            (Ok(t), Ok(u)) => t == u,
            (Err(e), Err(m)) => e@ == m,
            _ => false,
        },
{
    let t = match f.field_type() {
        Err(e) => return Err(e),
        Ok(t) => t,
    };
    match t.is_builtin(ts) {
        Err(e) => Err(e),
        Ok(true) => t.get_builtin(ts),
        Ok(false) => match t {
            TypeEnum::Entity(n) => if contains_name(earlier, n.as_str()) {
                Ok(Type::Entity(n.clone()))
            } else {
                proof {
                    reveal_strlit("field type `");
                    reveal_strlit("` is neither a built-in nor a custom type");
                }
                Err(string_concat("field type `", n.as_str()).concat("` is neither a built-in nor a custom type"))
            },
            TypeEnum::EntityId(n) => if contains_name(all, n.as_str()) {
                Ok(Type::EntityId(n.clone()))
            } else {
                proof {
                    reveal_strlit("field `");
                    reveal_strlit("` of entity `");
                    reveal_strlit("` is of type `Id<");
                    reveal_strlit(">`, but entity `");
                    reveal_strlit("` is undefined");
                }
                let m = string_concat("field `", f.name.as_str());
                let m = m.concat("` of entity `").concat(owner).concat("` is of type `Id<");
                let m = m.concat(n.as_str()).concat(">`, but entity `").concat(n.as_str());
                Err(m.concat("` is undefined"))
            },
            _ => Err("field type must either be entity, entity id or be a builtin".to_owned()),
        },
    }
}

impl DbIndex {
    /// A copy of this index.
    pub fn copy(&self) -> (r: Self)
        ensures
            r.meta_id == self.meta_id,
            r.fields@ == self.fields@,
    {
        DbIndex { meta_id: self.meta_id, fields: copy_strings(&self.fields) }
    }
}

fn indexes_for(groups: &Vec<(String, Vec<DbIndex>)>, name: &str) -> (r: Vec<DbIndex>)
    ensures
        index_fields(r@) == group_of(groups@, name@),
{
    let mut i: usize = 0;
    assert(groups@.skip(0) =~= groups@);
    while i < groups.len()
        invariant
            i <= groups@.len(),
            group_of(groups@, name@) == group_of(groups@.skip(i as int), name@),
        decreases groups@.len() - i,
    {
        assert(groups@.skip(i as int)[0] == groups@[i as int]);
        if str_eq(groups[i].0.as_str(), name) {
            let src = &groups[i].1;
            let mut v: Vec<DbIndex> = Vec::new();
            let mut k: usize = 0;
            while k < src.len()
                invariant
                    k <= src@.len(),
                    index_fields(v@) == index_fields(src@).take(k as int),
                decreases src@.len() - k,
            {
                let ghost before = index_fields(v@);
                v.push(src[k].copy());
                assert(index_fields(v@) =~= before.push(strings_view(src@[k as int].fields@)));
                assert(index_fields(src@).take(k + 1) =~= index_fields(src@).take(k as int).push(strings_view(src@[k as int].fields@)));
                k = k + 1;
            }
            assert(index_fields(src@).take(src@.len() as int) =~= index_fields(src@));
            return v;
        }
        assert(groups@.skip(i as int).drop_first() =~= groups@.skip(i + 1));
        i = i + 1;
    }
    let v: Vec<DbIndex> = Vec::new();
    assert(index_fields(v@) =~= Seq::<Seq<Seq<char>>>::empty());
    v
}

/// How a new field carries its definition over.
pub open spec fn carries(nf: NewField, f: FieldDefinition, t: Type) -> bool {
    &&& nf.name@ == f.name@
    &&& nf.ty == t
    &&& nf.labels@ == f.labels@
    &&& nf.default_value == f.default_value
    &&& nf.is_optional == f.is_optional
    &&& nf.is_unique == f.is_unique
}

proof fn lemma_fields_err_extends(ts: TypeSystem, fields: Seq<FieldDefinition>, owner: Seq<char>, earlier: Seq<Seq<char>>, all: Seq<Seq<char>>, k: int)
    requires
        0 <= k <= fields.len(),
        resolve_fields(ts, fields.take(k), owner, earlier, all) is Err,
    ensures
        resolve_fields(ts, fields, owner, earlier, all) == resolve_fields(ts, fields.take(k), owner, earlier, all),
    decreases fields.len() - k,
{
    if k < fields.len() {
        assert(fields.take(k + 1).drop_last() =~= fields.take(k));
        lemma_fields_err_extends(ts, fields, owner, earlier, all, k + 1);
    } else {
        assert(fields.take(k) =~= fields);
    }
}

proof fn lemma_types_err_extends(ts: TypeSystem, defs: Seq<AddTypeRequest>, all: Seq<Seq<char>>, k: int)
    requires
        0 <= k <= defs.len(),
        resolve_types(ts, defs.take(k), all) is Err,
    ensures
        resolve_types(ts, defs, all) == resolve_types(ts, defs.take(k), all),
    decreases defs.len() - k,
{
    if k < defs.len() {
        assert(defs.take(k + 1).drop_last() =~= defs.take(k));
        lemma_types_err_extends(ts, defs, all, k + 1);
    } else {
        assert(defs.take(k) =~= defs);
    }
}

fn new_entity(ts: &TypeSystem, def: &AddTypeRequest, earlier: &Vec<String>, all: &Vec<String>, groups: &Vec<(String, Vec<DbIndex>)>) -> (r: Result<NewEntity, String>)
    requires
        ts.wf(),
    ensures
        match (r, resolve_fields(*ts, def.field_defs@, def.name@, strings_view(earlier@), strings_view(all@))) {
            (Ok(e), Ok(tys)) => e.name@ == def.name@ && e.fields@.len() == tys.len()
                && (forall|m: int| 0 <= m < tys.len() ==> carries(#[trigger] e.fields@[m], def.field_defs@[m], tys[m]))
                && index_fields(e.indexes@) == group_of(groups@, def.name@),
            (Err(x), Err(msg)) => x@ == msg,
            _ => false,
        },
{
    let fds = &def.field_defs;
    let ghost ev = strings_view(earlier@);
    let ghost av = strings_view(all@);
    let mut fields: Vec<NewField> = Vec::new();
    let mut j: usize = 0;
    assert(fds@.take(0) =~= Seq::<FieldDefinition>::empty());
    while j < fds.len()
        invariant
            ts.wf(),
            j <= fds@.len(),
            ev == strings_view(earlier@),
            av == strings_view(all@),
            fds@ == def.field_defs@,
            resolve_fields(*ts, fds@.take(j as int), def.name@, ev, av) is Ok,
            ({
                let tys = resolve_fields(*ts, fds@.take(j as int), def.name@, ev, av)->Ok_0;
                &&& tys.len() == j
                &&& fields@.len() == tys.len()
                &&& forall|m: int| 0 <= m < tys.len() ==> carries(#[trigger] fields@[m], fds@[m], tys[m])
            }),
        decreases fds@.len() - j,
    {
        let f = &fds[j];
        let ghost t = fds@.take(j + 1);
        assert(t.drop_last() =~= fds@.take(j as int));
        assert(t.last() == fds@[j as int]);
        let ghost prev = resolve_fields(*ts, fds@.take(j as int), def.name@, ev, av)->Ok_0;
        match resolve_field_type(ts, f, def.name.as_str(), earlier, all) {
            Err(e) => {
                proof {
                    assert(resolve_fields(*ts, t, def.name@, ev, av) == Err::<Seq<Type>, Seq<char>>(e@));
                    lemma_fields_err_extends(*ts, fds@, def.name@, ev, av, j + 1);
                }
                return Err(e);
            },
            Ok(ty) => {
                let ghost tyg = ty;
                assert(resolve_fields(*ts, t, def.name@, ev, av) == Ok::<Seq<Type>, Seq<char>>(prev.push(tyg)));
                let dv = match &f.default_value {
                    Some(d) => Some(d.clone()),
                    None => None,
                };
                fields.push(NewField {
                    name: f.name.clone(),
                    ty,
                    labels: copy_strings(&f.labels),
                    default_value: dv,
                    is_optional: f.is_optional,
                    is_unique: f.is_unique,
                });
                proof {
                    let tys = resolve_fields(*ts, t, def.name@, ev, av)->Ok_0;
                    assert forall|m: int| 0 <= m < tys.len() implies carries(#[trigger] fields@[m], fds@[m], tys[m]) by {
                        if m < prev.len() {
                            assert(tys[m] == prev[m]);
                        } else {
                            assert(m == j);
                            assert(tys[m] == tyg);
                        }
                    }
                }
            },
        }
        j = j + 1;
    }
    assert(fds@.take(fds@.len() as int) =~= fds@);
    let indexes = indexes_for(groups, def.name.as_str());
    Ok(NewEntity { name: def.name.clone(), fields, indexes })
}

/// Resolves the (sorted) type definitions of an apply into new entity types:
/// each field's type is resolved against the built-in types, the entities
/// defined before it and the names of all defined entities; each entity gets
/// the indexes grouped for its name.
pub fn resolve_new_types(ts: &TypeSystem, defs: &Vec<AddTypeRequest>, groups: &Vec<(String, Vec<DbIndex>)>) -> (r: Result<Vec<NewEntity>, String>)
    requires
        ts.wf(),
    ensures
        match (r, resolve_types(*ts, defs@, type_names(defs@))) {
            (Ok(v), Ok(tys)) => v@.len() == defs@.len() && tys.len() == defs@.len()
                && forall|k: int| 0 <= k < v@.len() ==> {
                    &&& (#[trigger] v@[k]).name@ == defs@[k].name@
                    &&& v@[k].fields@.len() == tys[k].len()
                    &&& forall|m: int| 0 <= m < tys[k].len() ==> carries(#[trigger] v@[k].fields@[m], defs@[k].field_defs@[m], tys[k][m])
                    &&& index_fields(v@[k].indexes@) == group_of(groups@, defs@[k].name@)
                },
            (Err(e), Err(m)) => e@ == m,
            _ => false,
        },
{
    let mut all: Vec<String> = Vec::new();
    let mut i: usize = 0;
    while i < defs.len()
        invariant
            i <= defs@.len(),
            strings_view(all@) == type_names(defs@).take(i as int),
        decreases defs@.len() - i,
    {
        let ghost before = strings_view(all@);
        all.push(defs[i].name.clone());
        assert(strings_view(all@) =~= before.push(defs@[i as int].name@));
        assert(type_names(defs@).take(i + 1) =~= type_names(defs@).take(i as int).push(defs@[i as int].name@));
        i = i + 1;
    }
    assert(type_names(defs@).take(defs@.len() as int) =~= type_names(defs@));
    let ghost av = type_names(defs@);
    let mut earlier: Vec<String> = Vec::new();
    let mut out: Vec<NewEntity> = Vec::new();
    let mut i: usize = 0;
    assert(defs@.take(0) =~= Seq::<AddTypeRequest>::empty());
    while i < defs.len()
        invariant
            ts.wf(),
            i <= defs@.len(),
            strings_view(all@) == av,
            av == type_names(defs@),
            strings_view(earlier@) == type_names(defs@.take(i as int)),
            resolve_types(*ts, defs@.take(i as int), av) is Ok,
            ({
                let tys = resolve_types(*ts, defs@.take(i as int), av)->Ok_0;
                &&& out@.len() == i
                &&& tys.len() == i
                &&& forall|k: int| 0 <= k < i ==> {
                    &&& (#[trigger] out@[k]).name@ == defs@[k].name@
                    &&& out@[k].fields@.len() == tys[k].len()
                    &&& forall|m: int| 0 <= m < tys[k].len() ==> carries(#[trigger] out@[k].fields@[m], defs@[k].field_defs@[m], tys[k][m])
                    &&& index_fields(out@[k].indexes@) == group_of(groups@, defs@[k].name@)
                }
            }),
        decreases defs@.len() - i,
    {
        let d = &defs[i];
        let ghost t = defs@.take(i + 1);
        assert(t.drop_last() =~= defs@.take(i as int));
        assert(t.last() == defs@[i as int]);
        let ghost prev = resolve_types(*ts, defs@.take(i as int), av)->Ok_0;
        if ts.lookup_builtin_type(d.name.as_str()).is_some() {
            proof {
                reveal_strlit("custom type expected, got `");
                reveal_strlit("` instead");
                lemma_types_err_extends(*ts, defs@, av, i + 1);
            }
            return Err(string_concat("custom type expected, got `", d.name.as_str()).concat("` instead"));
        }
        match new_entity(ts, d, &earlier, &all, groups) {
            Err(e) => {
                proof { lemma_types_err_extends(*ts, defs@, av, i + 1); }
                return Err(e);
            },
            Ok(ent) => {
                out.push(ent);
                proof {
                    let tys = resolve_types(*ts, t, av)->Ok_0;
                    assert forall|k: int| 0 <= k < i + 1 implies {
                        &&& (#[trigger] out@[k]).name@ == defs@[k].name@
                        &&& out@[k].fields@.len() == tys[k].len()
                        &&& forall|m: int| 0 <= m < tys[k].len() ==> carries(#[trigger] out@[k].fields@[m], defs@[k].field_defs@[m], tys[k][m])
                        &&& index_fields(out@[k].indexes@) == group_of(groups@, defs@[k].name@)
                    } by {
                        if k < i {
                            assert(tys[k] == prev[k]);
                        }
                    }
                }
            },
        }
        let ghost before = strings_view(earlier@);
        earlier.push(d.name.clone());
        proof {
            assert(type_names(defs@.take(i + 1)) =~= type_names(defs@.take(i as int)).push(d.name@));
            assert(strings_view(earlier@) =~= before.push(d.name@));
        }
        i = i + 1;
    }
    assert(defs@.take(defs@.len() as int) =~= defs@);
    Ok(out)
}

/// The existing type names that `defined` does not name, in order.
pub open spec fn spec_removed(existing: Seq<Seq<char>>, defined: Seq<Seq<char>>) -> Seq<Seq<char>>
    decreases existing.len(),
{
    if existing.len() == 0 {
        Seq::empty()
    } else if defined.contains(existing.last()) {
        spec_removed(existing.drop_last(), defined)
    } else {
        spec_removed(existing.drop_last(), defined).push(existing.last())
    }
}

/// The types that an apply removes: the existing types whose names the new
/// definitions do not name, in the order of `existing`.
pub fn removed_types(existing: &Vec<String>, defined: &Vec<String>) -> (r: Vec<String>)
    ensures
        strings_view(r@) == spec_removed(strings_view(existing@), strings_view(defined@)),
{
    let mut r: Vec<String> = Vec::new();
    let mut i: usize = 0;
    assert(strings_view(existing@).take(0) =~= Seq::<Seq<char>>::empty());
    while i < existing.len()
        invariant
            i <= existing@.len(),
            strings_view(r@) == spec_removed(strings_view(existing@).take(i as int), strings_view(defined@)),
        decreases existing@.len() - i,
    {
        let ghost t = strings_view(existing@).take(i + 1);
        assert(t.drop_last() =~= strings_view(existing@).take(i as int));
        assert(t.last() == existing@[i as int]@);
        if !contains_name(defined, existing[i].as_str()) {
            let ghost before = strings_view(r@);
            r.push(existing[i].clone());
            assert(strings_view(r@) =~= before.push(existing@[i as int]@));
        }
        i = i + 1;
    }
    assert(strings_view(existing@).take(existing@.len() as int) =~= strings_view(existing@));
    r
}

/// The removed types (with their row counts) that still hold data, or do not.
pub open spec fn rows_by_data(rows: Seq<(String, u64)>, with_data: bool) -> Seq<(Seq<char>, u64)>
    decreases rows.len(),
{
    if rows.len() == 0 {
        Seq::empty()
    } else if (rows.last().1 > 0) == with_data {
        rows_by_data(rows.drop_last(), with_data).push((rows.last().0@, rows.last().1))
    } else {
        rows_by_data(rows.drop_last(), with_data)
    }
}

/// The names of some counted types.
pub open spec fn row_names(rows: Seq<(Seq<char>, u64)>) -> Seq<Seq<char>> {
    rows.map_values(|x: (Seq<char>, u64)| x.0)
}

/// The list of types that still hold data: a tab, then for each type a new
/// line, a tab, its name and its row count.
pub open spec fn data_lines(rows: Seq<(Seq<char>, u64)>) -> Seq<char>
    decreases rows.len(),
{
    if rows.len() == 0 {
        "\t"@
    } else {
        data_lines(rows.drop_last()) + "\n\t"@ + rows.last().0 + " ("@ + decimal(rows.last().1 as nat) + " elements)"@
    }
}

/// The refusal to remove types that still hold data.
pub open spec fn removal_refusal(rows: Seq<(Seq<char>, u64)>) -> Seq<char> {
    "Trying to remove models from the models file, but the following models still have data:\n"@
        + data_lines(rows)
        + "\n\nTo proceed, try:\n\n'npx chisel apply --allow-type-deletion' (if installed from npm)\n\nor\n\n'chisel apply --allow-type-deletion' (otherwise)"@
}

/// Decides the removal of types, given each removed type's row count: when
/// some still hold data and deletion is not allowed, the refusal that lists
/// them; else the names to remove, the empty types first.
pub fn check_removals(removed: &Vec<(String, u64)>, allow_type_deletion: bool) -> (r: Result<Vec<String>, String>)
    ensures
        ({
            let full = rows_by_data(removed@, true);
            let empty = rows_by_data(removed@, false);
            if full.len() > 0 && !allow_type_deletion {
                r matches Err(e) && e@ == removal_refusal(full)
            } else {
                r matches Ok(v) && strings_view(v@) == row_names(empty) + row_names(full)
            }
        }),
{
    let mut empty: Vec<String> = Vec::new();
    let mut full: Vec<String> = Vec::new();
    proof {
        reveal_strlit("\t");
        reveal_strlit("\n\t");
        reveal_strlit(" (");
        reveal_strlit(" elements)");
    }
    let mut lines = "\t".to_owned();
    let mut i: usize = 0;
    assert(removed@.take(0) =~= Seq::<(String, u64)>::empty());
    while i < removed.len()
        invariant
            i <= removed@.len(),
            strings_view(empty@) == row_names(rows_by_data(removed@.take(i as int), false)),
            strings_view(full@) == row_names(rows_by_data(removed@.take(i as int), true)),
            lines@ == data_lines(rows_by_data(removed@.take(i as int), true)),
        decreases removed@.len() - i,
    {
        let ghost t = removed@.take(i + 1);
        assert(t.drop_last() =~= removed@.take(i as int));
        assert(t.last() == removed@[i as int]);
        let (name, cnt) = (&removed[i].0, removed[i].1);
        if cnt > 0 {
            let ghost before = strings_view(full@);
            let ghost rb = rows_by_data(removed@.take(i as int), true);
            full.push(name.clone());
            assert(strings_view(full@) =~= before.push(name@));
            assert(row_names(rb.push((name@, cnt))) =~= row_names(rb).push(name@));
            let line = string_concat(lines.as_str(), "\n\t");
            let line = line.concat(name.as_str()).concat(" (");
            let count = u64_to_string(cnt);
            let ghost lb = lines@;
            lines = line.concat(count.as_str()).concat(" elements)");
            proof {
                let x = (name@, cnt);
                assert(rows_by_data(t, true) == rb.push(x));
                assert(rb.push(x).drop_last() =~= rb);
                assert(rb.push(x).last() == x);
                assert(lines@ =~= lb + "\n\t"@ + name@ + " ("@ + decimal(cnt as nat) + " elements)"@);
            }
        } else {
            let ghost before = strings_view(empty@);
            let ghost rb = rows_by_data(removed@.take(i as int), false);
            empty.push(name.clone());
            assert(strings_view(empty@) =~= before.push(name@));
            assert(row_names(rb.push((name@, cnt))) =~= row_names(rb).push(name@));
        }
        i = i + 1;
    }
    assert(removed@.take(removed@.len() as int) =~= removed@);
    if full.len() > 0 && !allow_type_deletion {
        proof {
            reveal_strlit("Trying to remove models from the models file, but the following models still have data:\n");
            reveal_strlit("\n\nTo proceed, try:\n\n'npx chisel apply --allow-type-deletion' (if installed from npm)\n\nor\n\n'chisel apply --allow-type-deletion' (otherwise)");
        }
        let m = string_concat("Trying to remove models from the models file, but the following models still have data:\n", lines.as_str());
        return Err(m.concat("\n\nTo proceed, try:\n\n'npx chisel apply --allow-type-deletion' (if installed from npm)\n\nor\n\n'chisel apply --allow-type-deletion' (otherwise)"));
    }
    let mut names = empty;
    let mut k: usize = 0;
    let ghost e0 = strings_view(names@);
    while k < full.len()
        invariant
            k <= full@.len(),
            strings_view(names@) == e0 + strings_view(full@).take(k as int),
        decreases full@.len() - k,
    {
        let ghost before = strings_view(names@);
        names.push(full[k].clone());
        assert(strings_view(names@) =~= before.push(full@[k as int]@));
        assert(strings_view(full@).take(k + 1) =~= strings_view(full@).take(k as int).push(full@[k as int]@));
        k = k + 1;
    }
    assert(strings_view(full@).take(full@.len() as int) =~= strings_view(full@));
    Ok(names)
}

} // verus!
