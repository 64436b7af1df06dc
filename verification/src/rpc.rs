//! The answers of the control service: descriptions of the running versions
//! and the check of version ids.

use crate::apply::{ContainerType, FieldDefinition, TypeEnum, TypeMsg};
use crate::migrate::debug_quoted;
use crate::pattern::{spec_regex_compiles, spec_regex_is_match, Pattern};
use crate::plan::{lookup_entity_spec, opt_view};
use crate::policies::{names_of, PolicySystem};
use crate::prefix_map::strictly_sorted;
use crate::text::{str_eq, string_concat};
use crate::types::{Field, ObjectType, Type, TypeId, TypeSystem};
use vstd::prelude::*;

verus! {

/// The protocol message of a resolved type: scalars flagged, entities and
/// entity ids by name, arrays with their element type.
pub open spec fn type_msg_of(t: Type) -> TypeMsg
    decreases t,
{
    TypeMsg {
        type_enum: Some(match t {
            Type::Float => TypeEnum::Number(true),
            Type::String => TypeEnum::String(true),
            Type::Boolean => TypeEnum::Bool(true),
            Type::JsDate => TypeEnum::JsDate(true),
            Type::ArrayBuffer => TypeEnum::ArrayBuffer(true),
            Type::Entity(n) => TypeEnum::Entity(n),
            Type::EntityId(n) => TypeEnum::EntityId(n),
            Type::Array(inner) => TypeEnum::Array(Box::new(ContainerType { value_type: Some(Box::new(type_msg_of(*inner))) })),
        }),
    }
}

impl From<Type> for TypeMsg {
    fn from(ty: Type) -> (r: TypeMsg)
        decreases ty,
    {
        let e = match ty {
            Type::Float => TypeEnum::Number(true),
            Type::String => TypeEnum::String(true),
            Type::Boolean => TypeEnum::Bool(true),
            Type::JsDate => TypeEnum::JsDate(true),
            Type::ArrayBuffer => TypeEnum::ArrayBuffer(true),
            Type::Entity(n) => TypeEnum::Entity(n),
            Type::EntityId(n) => TypeEnum::EntityId(n),
            Type::Array(inner) => {
                let m = TypeMsg::from(*inner);
                TypeEnum::Array(Box::new(ContainerType { value_type: Some(Box::new(m)) }))
            },
        };
        TypeMsg { type_enum: Some(e) }
    }
}

impl vstd::std_specs::convert::FromSpecImpl<Type> for TypeMsg {
    open spec fn obeys_from_spec() -> bool {
        true
    }

    open spec fn from_spec(v: Type) -> TypeMsg {
        type_msg_of(v)
    }
}

/// The type a field type stands for in a type system: an entity by its
/// name, `None` when the entity is unknown.
pub open spec fn type_of_id(ts: TypeSystem, t: TypeId) -> Option<Type>
    decreases t,
{
    match t {
        TypeId::String | TypeId::Id => Some(Type::String),
        TypeId::Float => Some(Type::Float),
        TypeId::Boolean => Some(Type::Boolean),
        TypeId::JsDate => Some(Type::JsDate),
        TypeId::ArrayBuffer => Some(Type::ArrayBuffer),
        TypeId::EntityId(n) => Some(Type::EntityId(n)),
        TypeId::Entity { name, .. } => match lookup_entity_spec(ts, name@) {
            Some(e) => Some(Type::Entity(e.name)),
            None => None,
        },
        TypeId::Array(inner) => match type_of_id(ts, *inner) {
            Some(e) => Some(Type::Array(Box::new(e))),
            None => None,
        },
    }
}

fn copy_type(t: &Type) -> (r: Type)
    ensures
        r == *t,
    decreases t,
{
    match t {
        Type::Float => Type::Float,
        Type::String => Type::String,
        Type::Boolean => Type::Boolean,
        Type::JsDate => Type::JsDate,
        Type::ArrayBuffer => Type::ArrayBuffer,
        Type::Entity(n) => Type::Entity(n.clone()),
        Type::EntityId(n) => Type::EntityId(n.clone()),
        Type::Array(inner) => Type::Array(Box::new(copy_type(inner))),
    }
}

/// The type a field type stands for.
pub fn get_type(ts: &TypeSystem, t: &TypeId) -> (r: Option<Type>)
    requires
        ts.wf(),
    ensures
        r == type_of_id(*ts, *t),
    decreases t,
{
    match t {
        TypeId::String | TypeId::Id => Some(Type::String),
        TypeId::Float => Some(Type::Float),
        TypeId::Boolean => Some(Type::Boolean),
        TypeId::JsDate => Some(Type::JsDate),
        TypeId::ArrayBuffer => Some(Type::ArrayBuffer),
        TypeId::EntityId(n) => Some(Type::EntityId(n.clone())),
        TypeId::Entity { name, .. } => match ts.entities.get(name.as_str()) {
            Some(e) => Some(Type::Entity(e.name.clone())),
            None => match ts.builtin.get(name.as_str()) {
                Some(e) => Some(Type::Entity(e.name.clone())),
                None => None,
            },
        },
        TypeId::Array(inner) => match get_type(ts, inner) {
            Some(e) => Some(Type::Array(Box::new(e))),
            None => None,
        },
    }
}

/// A running version: its id, its types and its policies.
#[derive(Debug)]
pub struct Version {
    pub version_id: String,
    pub type_system: TypeSystem,
    pub policy_system: PolicySystem,
}

/// The description of an entity type.
#[derive(Debug)]
pub struct TypeDefinition {
    pub name: String,
    pub field_defs: Vec<FieldDefinition>,
}

/// The description of a label that has a policy.
#[derive(Debug)]
pub struct LabelPolicyDefinition {
    pub label: String,
}

/// The description of a version.
#[derive(Debug)]
pub struct VersionDefinition {
    pub version_id: String,
    pub type_defs: Vec<TypeDefinition>,
    pub label_policy_defs: Vec<LabelPolicyDefinition>,
}

/// The description of all running versions.
#[derive(Debug)]
pub struct DescribeResponse {
    pub version_defs: Vec<VersionDefinition>,
}

/// Every field type of every user-defined entity stands for a type.
pub open spec fn types_resolve(ts: TypeSystem) -> bool {
    forall|n: Seq<char>, k: int| ts.entities@.contains_key(n) && 0 <= k < ts.entities@[n].user_fields@.len()
        ==> type_of_id(ts, #[trigger] ts.entities@[n].user_fields@[k].type_id) is Some
}

/// Every user-defined entity is stored under its own name.
pub open spec fn named_by_keys(ts: TypeSystem) -> bool {
    forall|n: Seq<char>| ts.entities@.contains_key(n) ==> (#[trigger] ts.entities@[n]).name@ == n
}

/// A field described: its name, its type's message, labels, default and
/// flags.
pub open spec fn describes_field(ts: TypeSystem, f: Field, d: FieldDefinition) -> bool {
    &&& d.name@ == f.name@
    &&& d.field_type == Some(type_msg_of(type_of_id(ts, f.type_id)->0))
    &&& names_of(d.labels@) == names_of(f.labels@)
    &&& opt_view(d.default_value) == opt_view(f.default)
    &&& d.is_optional == f.is_optional
    &&& d.is_unique == f.is_unique
}

/// An entity type described: its name and each user field in order.
pub open spec fn describes_type(ts: TypeSystem, e: ObjectType, d: TypeDefinition) -> bool {
    &&& d.name@ == e.name@
    &&& d.field_defs@.len() == e.user_fields@.len()
    &&& forall|k: int| 0 <= k < e.user_fields@.len() ==> describes_field(ts, e.user_fields@[k], #[trigger] d.field_defs@[k])
}

/// A version described: its id, its user-defined entity types sorted by
/// name, and the labels of its policies sorted.
pub open spec fn describes_version(v: Version, d: VersionDefinition) -> bool {
    let keys = v.type_system.entities.keys();
    let labels = v.policy_system.labels.keys();
    &&& d.version_id@ == v.version_id@
    &&& d.type_defs@.len() == keys.len()
    &&& forall|i: int| 0 <= i < keys.len() ==> describes_type(v.type_system, v.type_system.entities@[keys[i]], #[trigger] d.type_defs@[i])
    &&& strictly_sorted(d.type_defs@.map_values(|t: TypeDefinition| t.name@))
    &&& d.label_policy_defs@.map_values(|l: LabelPolicyDefinition| l.label@) == labels
    &&& strictly_sorted(labels)
}

fn copy_labels(v: &Vec<String>) -> (r: Vec<String>)
    ensures
        names_of(r@) == names_of(v@),
{
    let mut r: Vec<String> = Vec::new();
    let mut i: usize = 0;
    while i < v.len()
        invariant
            i <= v@.len(),
            names_of(r@) == names_of(v@.take(i as int)),
        decreases v@.len() - i,
    {
        r.push(v[i].clone());
        proof {
            assert(names_of(r@) =~= names_of(v@.take(i as int)).push(v@[i as int]@));
            assert(names_of(v@.take(i + 1)) =~= names_of(v@.take(i as int)).push(v@[i as int]@));
        }
        i = i + 1;
    }
    assert(v@.take(v@.len() as int) =~= v@);
    r
}

fn describe_type(ts: &TypeSystem, e: &ObjectType) -> (r: TypeDefinition)
    requires
        ts.wf(),
        forall|k: int| 0 <= k < e.user_fields@.len() ==> type_of_id(*ts, #[trigger] e.user_fields@[k].type_id) is Some,
    ensures
        describes_type(*ts, *e, r),
{
    let mut defs: Vec<FieldDefinition> = Vec::new();
    let mut k: usize = 0;
    while k < e.user_fields.len()
        invariant
            ts.wf(),
            forall|j: int| 0 <= j < e.user_fields@.len() ==> type_of_id(*ts, #[trigger] e.user_fields@[j].type_id) is Some,
            k <= e.user_fields@.len(),
            defs@.len() == k,
            forall|j: int| 0 <= j < k ==> describes_field(*ts, e.user_fields@[j], #[trigger] defs@[j]),
        decreases e.user_fields@.len() - k,
    {
        let f = &e.user_fields[k];
        let t = match get_type(ts, &f.type_id) {
            Some(t) => t,
            None => {
                assert(type_of_id(*ts, e.user_fields@[k as int].type_id) is Some);
                return TypeDefinition { name: e.name.clone(), field_defs: defs };
            },
        };
        let msg = TypeMsg::from(t);
        let default_value = match &f.default {
            Some(d) => Some(d.clone()),
            None => None,
        };
        defs.push(FieldDefinition {
            name: f.name.clone(),
            field_type: Some(msg),
            labels: copy_labels(&f.labels),
            default_value,
            is_optional: f.is_optional,
            is_unique: f.is_unique,
        });
        k = k + 1;
    }
    TypeDefinition { name: e.name.clone(), field_defs: defs }
}

/// The description of a version: its user-defined entity types in name
/// order, each with its fields, and its policy labels in order.
pub fn describe_version(v: &Version) -> (r: VersionDefinition)
    requires
        v.type_system.wf(),
        v.policy_system.wf(),
        named_by_keys(v.type_system),
        types_resolve(v.type_system),
    ensures
        describes_version(*v, r),
{
    let ts = &v.type_system;
    let entries = ts.entities.iter();
    proof {
        ts.entities.lemma_keys_domain();
        v.policy_system.labels.lemma_keys_domain();
    }
    let ghost keys = ts.entities.keys();
    let mut type_defs: Vec<TypeDefinition> = Vec::new();
    let mut i: usize = 0;
    while i < entries.len()
        invariant
            ts.wf(),
            named_by_keys(*ts),
            types_resolve(*ts),
            keys == ts.entities.keys(),
            strictly_sorted(keys),
            keys.to_set() == ts.entities@.dom(),
            entries@.len() == keys.len(),
            forall|j: int| 0 <= j < entries@.len() ==> (#[trigger] entries@[j]).0@ == keys[j]
                && *entries@[j].1 == ts.entities@[keys[j]],
            i <= entries@.len(),
            type_defs@.len() == i,
            forall|j: int| 0 <= j < i ==> describes_type(*ts, ts.entities@[keys[j]], #[trigger] type_defs@[j]),
        decreases entries@.len() - i,
    {
        let e = entries[i].1;
        proof {
            assert(keys.to_set().contains(keys[i as int]));
            assert(ts.entities@.contains_key(keys[i as int]));
        }
        type_defs.push(describe_type(ts, e));
        i = i + 1;
    }
    proof {
        let names = type_defs@.map_values(|t: TypeDefinition| t.name@);
        assert forall|j: int| 0 <= j < names.len() implies names[j] == keys[j] by {
            assert(keys.to_set().contains(keys[j]));
            assert(type_defs@[j].name@ == ts.entities@[keys[j]].name@);
        }
        assert(names =~= keys);
    }
    let labels = v.policy_system.labels.iter();
    let mut label_defs: Vec<LabelPolicyDefinition> = Vec::new();
    let mut k: usize = 0;
    while k < labels.len()
        invariant
            k <= labels@.len(),
            labels@.len() == v.policy_system.labels.keys().len(),
            forall|j: int| 0 <= j < labels@.len() ==> (#[trigger] labels@[j]).0@ == v.policy_system.labels.keys()[j],
            label_defs@.map_values(|l: LabelPolicyDefinition| l.label@) == v.policy_system.labels.keys().take(k as int),
        decreases labels@.len() - k,
    {
        let ghost before = label_defs@.map_values(|l: LabelPolicyDefinition| l.label@);
        label_defs.push(LabelPolicyDefinition { label: labels[k].0.to_owned() });
        proof {
            assert(label_defs@.map_values(|l: LabelPolicyDefinition| l.label@) =~= before.push(labels@[k as int].0@));
            assert(v.policy_system.labels.keys().take(k + 1) =~= v.policy_system.labels.keys().take(k as int).push(v.policy_system.labels.keys()[k as int]));
        }
        k = k + 1;
    }
    assert(v.policy_system.labels.keys().take(labels@.len() as int) =~= v.policy_system.labels.keys());
    VersionDefinition { version_id: v.version_id.clone(), type_defs, label_policy_defs: label_defs }
}

/// The description of all running versions, in the order given.
pub fn describe(versions: &Vec<Version>) -> (r: DescribeResponse)
    requires
        forall|i: int| 0 <= i < versions@.len() ==> {
            &&& (#[trigger] versions@[i]).type_system.wf()
            &&& versions@[i].policy_system.wf()
            &&& named_by_keys(versions@[i].type_system)
            &&& types_resolve(versions@[i].type_system)
        },
    ensures
        r.version_defs@.len() == versions@.len(),
        forall|i: int| 0 <= i < versions@.len() ==> describes_version(versions@[i], #[trigger] r.version_defs@[i]),
{
    let mut defs: Vec<VersionDefinition> = Vec::new();
    let mut i: usize = 0;
    while i < versions.len()
        invariant
            i <= versions@.len(),
            forall|j: int| 0 <= j < versions@.len() ==> {
                &&& (#[trigger] versions@[j]).type_system.wf()
                &&& versions@[j].policy_system.wf()
                &&& named_by_keys(versions@[j].type_system)
                &&& types_resolve(versions@[j].type_system)
            },
            defs@.len() == i,
            forall|j: int| 0 <= j < i ==> describes_version(versions@[j], #[trigger] defs@[j]),
        decreases versions@.len() - i,
    {
        defs.push(describe_version(&versions[i]));
        i = i + 1;
    }
    DescribeResponse { version_defs: defs }
}

/// The pattern that version ids must match.
pub open spec fn version_id_pattern() -> Seq<char> {
    "^[-_[[:alnum:]]]+$"@
}

/// Checks a version id: `__chiselstrike` is reserved, and the id must match
/// `^[-_[[:alnum:]]]+$` (letters, digits, `_` and `-`).
pub fn validate_version_id(version_id: &str) -> (r: Result<String, String>)
    ensures
        version_id@ == "__chiselstrike"@ ==> r is Err,
        version_id@ != "__chiselstrike"@ ==> (r is Ok <==> spec_regex_compiles(version_id_pattern())
            && spec_regex_is_match(version_id_pattern(), version_id@)),
        r matches Ok(s) ==> s@ == version_id@,
{
    proof {
        reveal_strlit("__chiselstrike");
    }
    if str_eq(version_id, "__chiselstrike") {
        let q = debug_quoted(version_id);
        return Err(string_concat("Version ", q.as_str()).concat(" is special and cannot be used"));
    }
    let pattern = match Pattern::new("^[-_[[:alnum:]]]+$") {
        Ok(p) => p,
        Err(e) => return Err(e),
    };
    if !pattern.is_match(version_id) {
        return Err("Version can only be alphanumeric, _ or -".to_owned());
    }
    Ok(version_id.to_owned())
}

} // verus!
