//! The parts of the data model that the verified logic reads: entity types,
//! their fields and the identifiers of field types.

use vstd::prelude::*;
use crate::text::str_eq;
use crate::prefix_map::PrefixMap;

verus! {

/// The type of a field, as stored in the metadata.
#[derive(Debug)]
pub enum TypeId {
    String,
    Float,
    Boolean,
    JsDate,
    ArrayBuffer,
    Id,
    Array(Box<TypeId>),
    Entity { name: String, version_id: String },
    EntityId(String),
}

impl TypeId {
    /// A copy of this type identifier.
    pub fn copy(&self) -> (r: Self)
        ensures
            r == *self,
        decreases self,
    {
        match self {
            TypeId::String => TypeId::String,
            TypeId::Float => TypeId::Float,
            TypeId::Boolean => TypeId::Boolean,
            TypeId::JsDate => TypeId::JsDate,
            TypeId::ArrayBuffer => TypeId::ArrayBuffer,
            TypeId::Id => TypeId::Id,
            TypeId::Array(inner) => TypeId::Array(Box::new(inner.copy())),
            TypeId::Entity { name, version_id } => TypeId::Entity { name: name.clone(), version_id: version_id.clone() },
            TypeId::EntityId(n) => TypeId::EntityId(n.clone()),
        }
    }
}

impl Clone for TypeId {
    fn clone(&self) -> (r: Self)
        ensures
            r == *self,
    {
        self.copy()
    }
}

/// A field of an entity type.
#[derive(Debug, Clone)]
pub struct Field {
    pub name: String,
    pub type_id: TypeId,
    pub labels: Vec<String>,
    pub default: Option<String>,
    pub is_optional: bool,
    pub is_unique: bool,
}

/// An entity (object) type: its name, the table backing it, and its fields.
/// Every entity also has the implicit `id` field, listed first by `all_fields`.
#[derive(Debug, Clone)]
pub struct ObjectType {
    pub name: String,
    pub backing_table: String,
    pub user_fields: Vec<Field>,
}

/// The implicit identifier field that every entity has.
pub open spec fn id_field_name() -> Seq<char> {
    "id"@
}

impl ObjectType {
    /// Names of all fields, the implicit `id` first.
    pub open spec fn all_field_names(&self) -> Seq<Seq<char>> {
        seq![id_field_name()] + self.user_fields@.map_values(|f: Field| f.name@)
    }

    /// Whether the entity has a field (user-defined or `id`) named `name`.
    pub open spec fn spec_has_field(&self, name: Seq<char>) -> bool {
        self.all_field_names().contains(name)
    }

    /// Whether the entity has a field named `name`.
    pub fn has_field(&self, name: &str) -> (r: bool)
        ensures
            r == self.spec_has_field(name@),
    {
        let id: &str = "id";
        proof {
            reveal_strlit("id");
        }
        if str_eq(name, id) {
            assert(self.all_field_names()[0] == name@);
            return true;
        }
        let mut i: usize = 0;
        while i < self.user_fields.len()
            invariant
                i <= self.user_fields@.len(),
                name@ != id_field_name(),
                forall|j: int| 0 <= j < i ==> self.user_fields@[j].name@ != name@,
            decreases self.user_fields@.len() - i,
        {
            if str_eq(self.user_fields[i].name.as_str(), name) {
                assert(self.all_field_names()[i + 1] == name@);
                return true;
            }
            i = i + 1;
        }
        assert forall|j: int| 0 <= j < self.all_field_names().len() implies self.all_field_names()[j] != name@ by {
            if j > 0 {
                assert(self.all_field_names()[j] == self.user_fields@[j - 1].name@);
            }
        }
        false
    }

    /// The user-defined field named `name`, if any.
    pub fn get_user_field(&self, name: &str) -> (r: Option<&Field>)
        ensures
            r is None <==> forall|j: int| 0 <= j < self.user_fields@.len() ==> self.user_fields@[j].name@ != name@,
            r matches Some(f) ==> exists|j: int| 0 <= j < self.user_fields@.len() && self.user_fields@[j] == *f
                && f.name@ == name@
                && forall|k: int| 0 <= k < j ==> self.user_fields@[k].name@ != name@,
    {
        let mut i: usize = 0;
        while i < self.user_fields.len()
            invariant
                i <= self.user_fields@.len(),
                forall|j: int| 0 <= j < i ==> self.user_fields@[j].name@ != name@,
            decreases self.user_fields@.len() - i,
        {
            if str_eq(self.user_fields[i].name.as_str(), name) {
                return Some(&self.user_fields[i]);
            }
            i = i + 1;
        }
        None
    }
}

impl ObjectType {
    /// The type of the field named `name` (`id` being the implicit identifier), if any.
    pub open spec fn field_type_of(&self, name: Seq<char>) -> Option<TypeId> {
        if name == id_field_name() {
            Some(TypeId::Id)
        } else {
            user_field_type(self.user_fields@, name)
        }
    }

    /// The type of the field named `name`, if the entity has one.
    pub fn get_field_type(&self, name: &str) -> (r: Option<TypeId>)
        ensures
            r == self.field_type_of(name@),
    {
        proof {
            reveal_strlit("id");
        }
        if str_eq(name, "id") {
            return Some(TypeId::Id);
        }
        let mut i: usize = 0;
        assert(self.user_fields@.skip(0) =~= self.user_fields@);
        while i < self.user_fields.len()
            invariant
                i <= self.user_fields@.len(),
                name@ != id_field_name(),
                user_field_type(self.user_fields@, name@) == user_field_type(self.user_fields@.skip(i as int), name@),
            decreases self.user_fields@.len() - i,
        {
            assert(self.user_fields@.skip(i as int)[0] == self.user_fields@[i as int]);
            if str_eq(self.user_fields[i].name.as_str(), name) {
                return Some(self.user_fields[i].type_id.copy());
            }
            assert(self.user_fields@.skip(i as int).drop_first() =~= self.user_fields@.skip(i + 1));
            i = i + 1;
        }
        None
    }
}

impl Field {
    /// A copy of this field.
    pub fn copy(&self) -> (r: Self)
        ensures
            r.name@ == self.name@,
            r.type_id == self.type_id,
            r.labels@.map_values(|l: String| l@) == self.labels@.map_values(|l: String| l@),
            r.default == self.default,
            r.is_optional == self.is_optional,
            r.is_unique == self.is_unique,
    {
        let mut labels: Vec<String> = Vec::new();
        let mut i: usize = 0;
        while i < self.labels.len()
            invariant
                i <= self.labels@.len(),
                labels@.map_values(|l: String| l@) == self.labels@.take(i as int).map_values(|l: String| l@),
            decreases self.labels@.len() - i,
        {
            let ghost before = labels@.map_values(|l: String| l@);
            labels.push(self.labels[i].clone());
            assert(labels@.map_values(|l: String| l@) =~= before.push(self.labels@[i as int]@));
            assert(self.labels@.take(i + 1).map_values(|l: String| l@) =~= self.labels@.take(i as int).map_values(|l: String| l@).push(self.labels@[i as int]@));
            i = i + 1;
        }
        assert(self.labels@.take(self.labels@.len() as int) =~= self.labels@);
        let default = match &self.default {
            Some(d) => Some(d.clone()),
            None => None,
        };
        Field { name: self.name.clone(), type_id: self.type_id.copy(), labels, default, is_optional: self.is_optional, is_unique: self.is_unique }
    }
}

/// Two entity types agree on their name, table and fields (names, types,
/// defaults and flags).
pub open spec fn same_type(a: ObjectType, b: ObjectType) -> bool {
    &&& a.name@ == b.name@
    &&& a.backing_table@ == b.backing_table@
    &&& a.user_fields@.len() == b.user_fields@.len()
    &&& forall|i: int| 0 <= i < a.user_fields@.len() ==> {
        &&& (#[trigger] a.user_fields@[i]).name@ == b.user_fields@[i].name@
        &&& a.user_fields@[i].type_id == b.user_fields@[i].type_id
        &&& a.user_fields@[i].default == b.user_fields@[i].default
        &&& a.user_fields@[i].is_optional == b.user_fields@[i].is_optional
        &&& a.user_fields@[i].is_unique == b.user_fields@[i].is_unique
    }
}

impl ObjectType {
    /// A copy of this entity type.
    pub fn copy(&self) -> (r: Self)
        ensures
            same_type(r, *self),
            r.all_field_names() == self.all_field_names(),
    {
        let mut fields: Vec<Field> = Vec::new();
        let mut i: usize = 0;
        while i < self.user_fields.len()
            invariant
                i <= self.user_fields@.len(),
                fields@.len() == i,
                forall|k: int| 0 <= k < i ==> {
                    &&& (#[trigger] fields@[k]).name@ == self.user_fields@[k].name@
                    &&& fields@[k].type_id == self.user_fields@[k].type_id
                    &&& fields@[k].default == self.user_fields@[k].default
                    &&& fields@[k].is_optional == self.user_fields@[k].is_optional
                    &&& fields@[k].is_unique == self.user_fields@[k].is_unique
                },
            decreases self.user_fields@.len() - i,
        {
            fields.push(self.user_fields[i].copy());
            i = i + 1;
        }
        let r = ObjectType { name: self.name.clone(), backing_table: self.backing_table.clone(), user_fields: fields };
        assert(r.user_fields@.map_values(|f: Field| f.name@) =~= self.user_fields@.map_values(|f: Field| f.name@));
        r
    }
}

/// The type of the first user field named `name`.
pub open spec fn user_field_type(fields: Seq<Field>, name: Seq<char>) -> Option<TypeId>
    decreases fields.len(),
{
    if fields.len() == 0 {
        None
    } else if fields[0].name@ == name {
        Some(fields[0].type_id)
    } else {
        user_field_type(fields.drop_first(), name)
    }
}

/// The entity types of an API version, by name: those the user defined and
/// the built-in ones (such as the authentication entities).
#[derive(Debug)]
pub struct TypeSystem {
    pub entities: PrefixMap<ObjectType>,
    pub builtin: PrefixMap<ObjectType>,
}

/// A resolved type: a scalar, an entity (by name), a reference to an entity,
/// or an array.
#[derive(Debug)]
pub enum Type {
    Float,
    String,
    Boolean,
    JsDate,
    ArrayBuffer,
    Entity(String),
    EntityId(String),
    Array(Box<Type>),
}

/// The scalar type that the built-in type name `name` stands for.
pub open spec fn builtin_scalar(name: Seq<char>) -> Option<Type> {
    if name == "string"@ {
        Some(Type::String)
    } else if name == "number"@ {
        Some(Type::Float)
    } else if name == "boolean"@ {
        Some(Type::Boolean)
    } else if name == "jsDate"@ {
        Some(Type::JsDate)
    } else if name == "ArrayBuffer"@ {
        Some(Type::ArrayBuffer)
    } else {
        None
    }
}

impl TypeSystem {
    pub open spec fn wf(&self) -> bool {
        self.entities.wf() && self.builtin.wf()
    }

    /// The built-in type named `name`: a scalar or a built-in entity.
    pub open spec fn spec_builtin_type(&self, name: Seq<char>) -> Option<Type> {
        match builtin_scalar(name) {
            Some(t) => Some(t),
            None => if self.builtin@.contains_key(name) {
                Some(Type::Entity(self.builtin@[name].name))
            } else {
                None
            },
        }
    }

    /// The type named `name`: a user-defined entity first, else a built-in type.
    pub open spec fn spec_lookup_type(&self, name: Seq<char>) -> Option<Type> {
        if self.entities@.contains_key(name) {
            Some(Type::Entity(self.entities@[name].name))
        } else {
            self.spec_builtin_type(name)
        }
    }

    /// The built-in type named `name`, if there is one.
    pub fn lookup_builtin_type(&self, name: &str) -> (r: Option<Type>)
        requires
            self.wf(),
        ensures
            r == self.spec_builtin_type(name@),
    {
        proof {
            reveal_strlit("string");
            reveal_strlit("number");
            reveal_strlit("boolean");
            reveal_strlit("jsDate");
            reveal_strlit("ArrayBuffer");
        }
        if str_eq(name, "string") {
            Some(Type::String)
        } else if str_eq(name, "number") {
            Some(Type::Float)
        } else if str_eq(name, "boolean") {
            Some(Type::Boolean)
        } else if str_eq(name, "jsDate") {
            Some(Type::JsDate)
        } else if str_eq(name, "ArrayBuffer") {
            Some(Type::ArrayBuffer)
        } else {
            match self.builtin.get(name) {
                Some(e) => Some(Type::Entity(e.name.clone())),
                None => None,
            }
        }
    }

    /// The type named `name`: a user-defined entity first, else a built-in type.
    pub fn lookup_type(&self, name: &str) -> (r: Option<Type>)
        requires
            self.wf(),
        ensures
            r == self.spec_lookup_type(name@),
    {
        match self.entities.get(name) {
            Some(e) => Some(Type::Entity(e.name.clone())),
            None => self.lookup_builtin_type(name),
        }
    }

    /// The entity named `name`, if any.
    pub fn lookup_entity(&self, name: &str) -> (r: Option<&ObjectType>)
        requires
            self.wf(),
        ensures
            r is Some <==> self.entities@.contains_key(name@),
            r matches Some(e) ==> *e == self.entities@[name@],
    {
        self.entities.get(name)
    }
}

/// A short human-readable name of a field type, for messages.
pub open spec fn type_name_text(t: TypeId) -> Seq<char> {
    match t {
        TypeId::String => "string"@,
        TypeId::Float => "number"@,
        TypeId::Boolean => "boolean"@,
        TypeId::JsDate => "jsDate"@,
        TypeId::ArrayBuffer => "ArrayBuffer"@,
        TypeId::Id => "id"@,
        TypeId::Array(_) => "array"@,
        TypeId::Entity { name, .. } => name@,
        TypeId::EntityId(n) => "Id<"@ + n@ + ">"@,
    }
}

/// The short name of a field type, for messages.
pub fn type_id_name(t: &TypeId) -> (r: String)
    ensures
        r@ == type_name_text(*t),
{
    match t {
        TypeId::String => "string".to_owned(),
        TypeId::Float => "number".to_owned(),
        TypeId::Boolean => "boolean".to_owned(),
        TypeId::JsDate => "jsDate".to_owned(),
        TypeId::ArrayBuffer => "ArrayBuffer".to_owned(),
        TypeId::Id => "id".to_owned(),
        TypeId::Array(_) => "array".to_owned(),
        TypeId::Entity { name, .. } => name.clone(),
        TypeId::EntityId(n) => crate::text::string_concat("Id<", n.as_str()).concat(">"),
    }
}

} // verus!
