//! The metadata database: the identifiers of its tables and columns, and the
//! order in which its schema versions are migrated.

use crate::crud::{split_chars, split_seq};
use crate::text::{str_eq, string_concat};
use vstd::prelude::*;

verus! {

/// The table of the metadata schema version.
#[derive(Debug, Clone, Copy, PartialEq, Eq, Structural)]
pub enum ChiselVersion {
    Table,
    VersionId,
    Version,
}

/// The table of API versions.
#[derive(Debug, Clone, Copy, PartialEq, Eq, Structural)]
pub enum ApiInfo {
    Table,
    ApiVersion,
    AppName,
    VersionTag,
}

/// The table of entity types.
#[derive(Debug, Clone, Copy, PartialEq, Eq, Structural)]
pub enum Types {
    Table,
    TypeId,
    BackingTable,
    ApiVersion,
}

/// The table of entity type names.
#[derive(Debug, Clone, Copy, PartialEq, Eq, Structural)]
pub enum TypeNames {
    Table,
    TypeId,
    Name,
}

/// The table of fields.
#[derive(Debug, Clone, Copy, PartialEq, Eq, Structural)]
pub enum Fields {
    Table,
    FieldId,
    FieldType,
    TypeId,
    DefaultValue,
    IsOptional,
    IsUnique,
}

/// The table of field names.
#[derive(Debug, Clone, Copy, PartialEq, Eq, Structural)]
pub enum FieldNames {
    Table,
    FieldName,
    FieldId,
}

/// The table of field labels.
#[derive(Debug, Clone, Copy, PartialEq, Eq, Structural)]
pub enum FieldLabels {
    Table,
    LabelName,
    FieldId,
}

/// The table of indexes.
#[derive(Debug, Clone, Copy, PartialEq, Eq, Structural)]
pub enum Indexes {
    Table,
    IndexId,
    TypeId,
    Fields,
}

/// The table of endpoints.
#[derive(Debug, Clone, Copy, PartialEq, Eq, Structural)]
pub enum Endpoints {
    Table,
    Path,
    Code,
}

/// The table of sources.
#[derive(Debug, Clone, Copy, PartialEq, Eq, Structural)]
pub enum Sources {
    Table,
}

/// The table of modules.
#[derive(Debug, Clone, Copy, PartialEq, Eq, Structural)]
pub enum Modules {
    Table,
    Version,
    Url,
    Code,
}

/// The table of policies.
#[derive(Debug, Clone, Copy, PartialEq, Eq, Structural)]
pub enum Policies {
    Table,
    Version,
    PolicyStr,
}

/// The table of sessions.
#[derive(Debug, Clone, Copy, PartialEq, Eq, Structural)]
pub enum Sessions {
    Table,
    Token,
    UserId,
}

impl ChiselVersion {
    /// The identifier in the database: the table's name in snake case for
    /// `Table`, else the column's.
    pub fn name(&self) -> (r: &'static str)
        ensures
            r@ == match self {
                ChiselVersion::Table => "chisel_version"@,
                ChiselVersion::VersionId => "version_id"@,
                ChiselVersion::Version => "version"@,
            },
    {
        match self {
            ChiselVersion::Table => "chisel_version",
            ChiselVersion::VersionId => "version_id",
            ChiselVersion::Version => "version",
        }
    }
}

impl ApiInfo {
    /// The identifier in the database.
    pub fn name(&self) -> (r: &'static str)
        ensures
            r@ == match self {
                ApiInfo::Table => "api_info"@,
                ApiInfo::ApiVersion => "api_version"@,
                ApiInfo::AppName => "app_name"@,
                ApiInfo::VersionTag => "version_tag"@,
            },
    {
        match self {
            ApiInfo::Table => "api_info",
            ApiInfo::ApiVersion => "api_version",
            ApiInfo::AppName => "app_name",
            ApiInfo::VersionTag => "version_tag",
        }
    }
}

impl Types {
    /// The identifier in the database.
    pub fn name(&self) -> (r: &'static str)
        ensures
            r@ == match self {
                Types::Table => "types"@,
                Types::TypeId => "type_id"@,
                Types::BackingTable => "backing_table"@,
                Types::ApiVersion => "api_version"@,
            },
    {
        match self {
            Types::Table => "types",
            Types::TypeId => "type_id",
            Types::BackingTable => "backing_table",
            Types::ApiVersion => "api_version",
        }
    }
}

impl TypeNames {
    /// The identifier in the database.
    pub fn name(&self) -> (r: &'static str)
        ensures
            r@ == match self {
                TypeNames::Table => "type_names"@,
                TypeNames::TypeId => "type_id"@,
                TypeNames::Name => "name"@,
            },
    {
        match self {
            TypeNames::Table => "type_names",
            TypeNames::TypeId => "type_id",
            TypeNames::Name => "name",
        }
    }
}

impl Fields {
    /// The identifier in the database.
    pub fn name(&self) -> (r: &'static str)
        ensures
            r@ == match self {
                Fields::Table => "fields"@,
                Fields::FieldId => "field_id"@,
                Fields::FieldType => "field_type"@,
                Fields::TypeId => "type_id"@,
                Fields::DefaultValue => "default_value"@,
                Fields::IsOptional => "is_optional"@,
                Fields::IsUnique => "is_unique"@,
            },
    {
        match self {
            Fields::Table => "fields",
            Fields::FieldId => "field_id",
            Fields::FieldType => "field_type",
            Fields::TypeId => "type_id",
            Fields::DefaultValue => "default_value",
            Fields::IsOptional => "is_optional",
            Fields::IsUnique => "is_unique",
        }
    }
}

impl FieldNames {
    /// The identifier in the database.
    pub fn name(&self) -> (r: &'static str)
        ensures
            r@ == match self {
                FieldNames::Table => "field_names"@,
                FieldNames::FieldName => "field_name"@,
                FieldNames::FieldId => "field_id"@,
            },
    {
        match self {
            FieldNames::Table => "field_names",
            FieldNames::FieldName => "field_name",
            FieldNames::FieldId => "field_id",
        }
    }
}

impl FieldLabels {
    /// The identifier in the database.
    pub fn name(&self) -> (r: &'static str)
        ensures
            r@ == match self {
                FieldLabels::Table => "field_labels"@,
                FieldLabels::LabelName => "label_name"@,
                FieldLabels::FieldId => "field_id"@,
            },
    {
        match self {
            FieldLabels::Table => "field_labels",
            FieldLabels::LabelName => "label_name",
            FieldLabels::FieldId => "field_id",
        }
    }
}

impl Indexes {
    /// The identifier in the database.
    pub fn name(&self) -> (r: &'static str)
        ensures
            r@ == match self {
                Indexes::Table => "indexes"@,
                Indexes::IndexId => "index_id"@,
                Indexes::TypeId => "type_id"@,
                Indexes::Fields => "fields"@,
            },
    {
        match self {
            Indexes::Table => "indexes",
            Indexes::IndexId => "index_id",
            Indexes::TypeId => "type_id",
            Indexes::Fields => "fields",
        }
    }
}

impl Endpoints {
    /// The identifier in the database.
    pub fn name(&self) -> (r: &'static str)
        ensures
            r@ == match self {
                Endpoints::Table => "endpoints"@,
                Endpoints::Path => "path"@,
                Endpoints::Code => "code"@,
            },
    {
        match self {
            Endpoints::Table => "endpoints",
            Endpoints::Path => "path",
            Endpoints::Code => "code",
        }
    }
}

impl Sources {
    /// The identifier in the database.
    pub fn name(&self) -> (r: &'static str)
        ensures
            r@ == "sources"@,
    {
        "sources"
    }
}

impl Modules {
    /// The identifier in the database.
    pub fn name(&self) -> (r: &'static str)
        ensures
            r@ == match self {
                Modules::Table => "modules"@,
                Modules::Version => "version"@,
                Modules::Url => "url"@,
                Modules::Code => "code"@,
            },
    {
        match self {
            Modules::Table => "modules",
            Modules::Version => "version",
            Modules::Url => "url",
            Modules::Code => "code",
        }
    }
}

impl Policies {
    /// The identifier in the database.
    pub fn name(&self) -> (r: &'static str)
        ensures
            r@ == match self {
                Policies::Table => "policies"@,
                Policies::Version => "version"@,
                Policies::PolicyStr => "policy_str"@,
            },
    {
        match self {
            Policies::Table => "policies",
            Policies::Version => "version",
            Policies::PolicyStr => "policy_str",
        }
    }
}

impl Sessions {
    /// The identifier in the database.
    pub fn name(&self) -> (r: &'static str)
        ensures
            r@ == match self {
                Sessions::Table => "sessions"@,
                Sessions::Token => "token"@,
                Sessions::UserId => "user_id"@,
            },
    {
        match self {
            Sessions::Table => "sessions",
            Sessions::Token => "token",
            Sessions::UserId => "user_id",
        }
    }
}

/// A migration of the metadata schema from one version to the next.
#[derive(Debug, Clone, Copy, PartialEq, Eq, Structural)]
pub enum SchemaMigration {
    /// Creates the first tables in an empty database.
    EmptyTo0,
    From0To0_7,
    From0_7To0_12,
    From0_12To0_13,
}

/// The schema versions in the order they are migrated through: `empty` is
/// a database with nothing in it, `0.13` the latest version.
pub open spec fn schema_versions() -> Seq<Seq<char>> {
    seq!["empty"@, "0"@, "0.7"@, "0.12"@, "0.13"@]
}

/// The migration that leaves version number `i` of `schema_versions`.
pub open spec fn migration_from(i: int) -> SchemaMigration {
    if i == 0 {
        SchemaMigration::EmptyTo0
    } else if i == 1 {
        SchemaMigration::From0To0_7
    } else if i == 2 {
        SchemaMigration::From0_7To0_12
    } else {
        SchemaMigration::From0_12To0_13
    }
}

/// The position of a version in `schema_versions`, if it is one.
pub open spec fn version_position(v: Seq<char>) -> Option<int> {
    if v == "empty"@ {
        Some(0)
    } else if v == "0"@ {
        Some(1)
    } else if v == "0.7"@ {
        Some(2)
    } else if v == "0.12"@ {
        Some(3)
    } else if v == "0.13"@ {
        Some(4)
    } else {
        None
    }
}

/// Each schema version is found at its own position.
pub proof fn lemma_version_positions()
    ensures
        forall|i: int| 0 <= i < 5 ==> version_position(#[trigger] schema_versions()[i]) == Some(i),
{
    reveal_strlit("empty");
    reveal_strlit("0");
    reveal_strlit("0.7");
    reveal_strlit("0.12");
    reveal_strlit("0.13");
    assert("0.12"@[3] != "0.13"@[3]);
    assert("0"@.len() != "empty"@.len());
    assert("0.7"@.len() != "empty"@.len() && "0.7"@.len() != "0"@.len());
    assert("0.12"@.len() != "empty"@.len() && "0.12"@.len() != "0"@.len() && "0.12"@.len() != "0.7"@.len());
    assert("0.13"@.len() != "empty"@.len() && "0.13"@.len() != "0"@.len() && "0.13"@.len() != "0.7"@.len());
}

/// The step from schema version `old_version`: the migration to run and the
/// version it leads to, `None` at the latest version; an error for a version
/// that is not known.
pub fn migration_step(old_version: &str) -> (r: Result<Option<(SchemaMigration, &'static str)>, String>)
    ensures
        match version_position(old_version@) {
            None => r is Err,
            Some(i) => if i < 4 {
                r matches Ok(Some((m, next))) && m == migration_from(i) && next@ == schema_versions()[i + 1]
            } else {
                r matches Ok(None)
            },
        },
{
    proof {
        reveal_strlit("empty");
        reveal_strlit("0");
        reveal_strlit("0.7");
        reveal_strlit("0.12");
        reveal_strlit("0.13");
    }
    if str_eq(old_version, "empty") {
        Ok(Some((SchemaMigration::EmptyTo0, "0")))
    } else if str_eq(old_version, "0") {
        Ok(Some((SchemaMigration::From0To0_7, "0.7")))
    } else if str_eq(old_version, "0.7") {
        Ok(Some((SchemaMigration::From0_7To0_12, "0.12")))
    } else if str_eq(old_version, "0.12") {
        Ok(Some((SchemaMigration::From0_12To0_13, "0.13")))
    } else if str_eq(old_version, "0.13") {
        Ok(None)
    } else {
        let q = crate::migrate::debug_quoted(old_version);
        Err(crate::text::string_concat("Don't know how to migrate from version ", q.as_str()))
    }
}


/// The message for a stored field name that is not `version.type.field`.
pub open spec fn corrupt_field_name_message(name: Seq<char>) -> Seq<char> {
    "Expected version and type information as part of the field name. Got "@ + name + ". Database corrupted?"@
}

/// The version and the field name held by a stored field name, which is
/// written `version.type.field`.
pub fn parse_db_field_name(db_field_name: &str) -> (r: Result<(String, String), String>)
    ensures
        ({
            let parts = split_seq(db_field_name@, '.');
            if parts.len() == 3 {
                r matches Ok((v, f)) && v@ == parts[0] && f@ == parts[2]
            } else {
                r matches Err(m) && m@ == corrupt_field_name_message(db_field_name@)
            }
        }),
{
    let parts = split_chars(db_field_name, '.');
    if parts.len() != 3 {
        proof {
            reveal_strlit("Expected version and type information as part of the field name. Got ");
            reveal_strlit(". Database corrupted?");
        }
        return Err(string_concat("Expected version and type information as part of the field name. Got ", db_field_name)
            .concat(". Database corrupted?"));
    }
    proof {
        assert(parts@.map_values(|x: String| x@)[0] == parts@[0]@);
        assert(parts@.map_values(|x: String| x@)[2] == parts@[2]@);
    }
    Ok((parts[0].clone(), parts[2].clone()))
}

/// The fields of a stored index, which are kept joined by `;`.
pub fn index_fields(fields: &str) -> (r: Vec<String>)
    ensures
        r@.map_values(|x: String| x@) == split_seq(fields@, ';'),
{
    split_chars(fields, ';')
}

} // verus!
