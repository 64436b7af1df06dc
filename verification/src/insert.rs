//! Storing objects: the `INSERT` statements that save a JSON object of an
//! entity type, with the values bound to their placeholders, and the tree of
//! ids of the objects saved.

use crate::auth::{auth_entity_names, is_auth_entity_name, is_auth_path};
use crate::crud::{check_float_literal, is_float_literal};
use crate::json::{get_member, member, Json, JsonNumber};
use crate::plan::{entity_of, field_entity, i64_to_string, lookup_entity_spec, opt_view, signed_decimal};
use crate::text::{decimal, str_eq, string_concat, u64_to_string};
use crate::types::{Field, ObjectType, Type, TypeId, TypeSystem};
use vstd::prelude::*;

verus! {

/// A value bound to a placeholder of a statement. `F64` holds the decimal
/// text of the number.
#[derive(Debug)]
pub enum SqlValue {
    Bool(bool),
    F64(String),
    String(String),
}

/// A bound value with its text as a character sequence.
pub enum SqlValueView {
    Bool(bool),
    F64(Seq<char>),
    String(Seq<char>),
}

impl SqlValue {
    pub open spec fn view(&self) -> SqlValueView {
        match self {
            SqlValue::Bool(b) => SqlValueView::Bool(*b),
            SqlValue::F64(t) => SqlValueView::F64(t@),
            SqlValue::String(s) => SqlValueView::String(s@),
        }
    }
}

/// An SQL statement with placeholders `$1, $2, ...` and their values.
#[derive(Debug)]
pub struct SqlWithArguments {
    pub sql: String,
    pub args: Vec<SqlValue>,
}

/// The ids of a saved object and, under the names of the fields holding
/// them, of the nested objects saved with it.
#[derive(Debug)]
pub struct IdTree {
    pub id: String,
    pub children: Vec<(String, IdTree)>,
}

/// A field as storing reads it: name, type, default and whether it is
/// optional.
pub open spec fn field_info(f: Field) -> (Seq<char>, TypeId, Option<Seq<char>>, bool) {
    (f.name@, f.type_id, opt_view(f.default), f.is_optional)
}

/// The implicit `id` field.
pub open spec fn id_info() -> (Seq<char>, TypeId, Option<Seq<char>>, bool) {
    ("id"@, TypeId::Id, None, false)
}

/// All the fields of an entity type, the implicit `id` first.
pub open spec fn stored_fields(ty: ObjectType) -> Seq<(Seq<char>, TypeId, Option<Seq<char>>, bool)> {
    seq![id_info()] + ty.user_fields@.map_values(|f: Field| field_info(f))
}

/// Types whose values are stored as text.
pub open spec fn text_type(t: TypeId) -> bool {
    t is String || t is Id || t is Entity || t is EntityId
}

/// Types whose values are stored as floating-point numbers.
pub open spec fn float_type(t: TypeId) -> bool {
    t is Float || t is JsDate
}

/// The decimal text of a JSON number.
pub open spec fn number_text(n: JsonNumber) -> Seq<char> {
    match n {
        JsonNumber::PosInt(u) => decimal(u as nat),
        JsonNumber::NegInt(i) => signed_decimal(i as int),
        JsonNumber::Float(t) => t@,
    }
}

/// What a field's argument is: a conversion failure, a fresh random id, or
/// exactly a value.
pub enum ArgSpec {
    Fails,
    Fresh,
    Exactly(SqlValueView),
}

/// The argument of field `f` whose value in the object is `val`: the value
/// converted to the field's type; without a value, a fresh id for an `Id`
/// field and the default otherwise.
pub open spec fn argument_of(f: (Seq<char>, TypeId, Option<Seq<char>>, bool), val: Option<Json>) -> ArgSpec {
    match val {
        Some(j) => if text_type(f.1) {
            match j {
                Json::String(s) => ArgSpec::Exactly(SqlValueView::String(s@)),
                _ => ArgSpec::Fails,
            }
        } else if float_type(f.1) {
            match j {
                Json::Number(n) => ArgSpec::Exactly(SqlValueView::F64(number_text(n))),
                _ => ArgSpec::Fails,
            }
        } else if f.1 is Boolean {
            match j {
                Json::Bool(b) => ArgSpec::Exactly(SqlValueView::Bool(b)),
                _ => ArgSpec::Fails,
            }
        } else {
            ArgSpec::Fails
        },
        None => if f.1 is Id {
            ArgSpec::Fresh
        } else {
            match f.2 {
                None => ArgSpec::Fails,
                Some(d) => if text_type(f.1) {
                    ArgSpec::Exactly(SqlValueView::String(d))
                } else if float_type(f.1) {
                    if is_float_literal(d) { ArgSpec::Exactly(SqlValueView::F64(d)) } else { ArgSpec::Fails }
                } else if f.1 is Boolean {
                    if d == "true"@ {
                        ArgSpec::Exactly(SqlValueView::Bool(true))
                    } else if d == "false"@ {
                        ArgSpec::Exactly(SqlValueView::Bool(false))
                    } else {
                        ArgSpec::Fails
                    }
                } else {
                    ArgSpec::Fails
                },
            }
        },
    }
}

/// Whether a bound value is what the argument spec allows.
pub open spec fn arg_matches(a: SqlValue, s: ArgSpec) -> bool {
    match s {
        ArgSpec::Fails => false,
        ArgSpec::Fresh => a matches SqlValue::String(t) && t@.len() == 36,
        ArgSpec::Exactly(v) => a@ == v,
    }
}

/// Whether `uuid::Uuid::parse_str` accepts a text.
pub uninterp spec fn spec_uuid_parses(s: Seq<char>) -> bool;

/// Whether `uuid::Uuid::parse_str` accepts `s`; the result is the named
/// `spec_uuid_parses`.
#[verifier::external_body]
fn uuid_parses(s: &str) -> (r: bool)
    ensures
        r == spec_uuid_parses(s@),
{
    uuid::Uuid::parse_str(s).is_ok()
}

/// A random id: `uuid::Uuid::new_v4` written with `to_string`, which gives
/// the hyphenated form of 36 characters, a form `Uuid::parse_str` accepts.
/// Nothing more is claimed of it.
#[verifier::external_body]
fn new_uuid_text() -> (r: String)
    ensures
        r@.len() == 36,
        spec_uuid_parses(r@),
{
    uuid::Uuid::new_v4().to_string()
}

/// The implicit `id` field.
pub fn id_field() -> (f: Field)
    ensures
        field_info(f) == id_info(),
{
    proof {
        reveal_strlit("id");
    }
    Field { name: "id".to_owned(), type_id: TypeId::Id, labels: Vec::new(), default: None, is_optional: false, is_unique: false }
}

fn number_to_text(n: &JsonNumber) -> (r: String)
    ensures
        r@ == number_text(*n),
{
    match n {
        JsonNumber::PosInt(u) => u64_to_string(*u),
        JsonNumber::NegInt(i) => i64_to_string(*i),
        JsonNumber::Float(t) => t.clone(),
    }
}

fn is_text_type(t: &TypeId) -> (r: bool)
    ensures
        r == text_type(*t),
{
    match t {
        TypeId::String | TypeId::Id | TypeId::Entity { .. } | TypeId::EntityId(_) => true,
        _ => false,
    }
}

fn is_float_type(t: &TypeId) -> (r: bool)
    ensures
        r == float_type(*t),
{
    match t {
        TypeId::Float | TypeId::JsDate => true,
        _ => false,
    }
}

/// The value to bind for `field` of the object `obj`: its value converted to
/// the field's type or, when the object lacks it, a fresh id (for an `Id`
/// field) or the field's default.
pub fn convert_to_argument(field: &Field, obj: &Vec<(String, Json)>) -> (r: Result<SqlValue, String>)
    ensures
        match argument_of(field_info(*field), member(obj@, field.name@)) {
            ArgSpec::Fails => r is Err,
            s => r matches Ok(a) && arg_matches(a, s),
        },
{
    let text = is_text_type(&field.type_id);
    let float = is_float_type(&field.type_id);
    let boolean = match field.type_id {
        TypeId::Boolean => true,
        _ => false,
    };
    match get_member(obj, field.name.as_str()) {
        Some(j) => {
            if text {
                match j {
                    Json::String(s) => Ok(SqlValue::String(s.clone())),
                    _ => Err("failed to convert json to specific type".to_owned()),
                }
            } else if float {
                match j {
                    Json::Number(n) => Ok(SqlValue::F64(number_to_text(n))),
                    _ => Err("failed to convert json to specific type".to_owned()),
                }
            } else if boolean {
                match j {
                    Json::Bool(b) => Ok(SqlValue::Bool(*b)),
                    _ => Err("failed to convert json to specific type".to_owned()),
                }
            } else {
                Err("failed to convert json to specific type".to_owned())
            }
        },
        None => {
            let is_id = match field.type_id {
                TypeId::Id => true,
                _ => false,
            };
            if is_id {
                return Ok(SqlValue::String(new_uuid_text()));
            }
            let d = match &field.default {
                Some(d) => d,
                None => return Err("failed to generate value".to_owned()),
            };
            if text {
                Ok(SqlValue::String(d.clone()))
            } else if float {
                if check_float_literal(d.as_str()) {
                    Ok(SqlValue::F64(d.clone()))
                } else {
                    Err("failed to parse default value".to_owned())
                }
            } else if boolean {
                proof {
                    reveal_strlit("true");
                    reveal_strlit("false");
                }
                if str_eq(d.as_str(), "true") {
                    Ok(SqlValue::Bool(true))
                } else if str_eq(d.as_str(), "false") {
                    Ok(SqlValue::Bool(false))
                } else {
                    Err("failed to parse default value".to_owned())
                }
            } else {
                Err("failed to generate value".to_owned())
            }
        },
    }
}

/// The columns, placeholders and updates an `INSERT` collects, the number
/// of placeholders, and the id column with its placeholder.
pub struct InsertState {
    pub names: Seq<Seq<char>>,
    pub binds: Seq<Seq<char>>,
    pub updates: Seq<Seq<char>>,
    pub count: nat,
    pub id: Option<(Seq<char>, Seq<char>)>,
}

/// The state before any field.
pub open spec fn empty_insert() -> InsertState {
    InsertState { names: Seq::empty(), binds: Seq::empty(), updates: Seq::empty(), count: 0, id: None }
}

/// Whether a field is left out of a statement: optional and absent.
pub open spec fn skipped(obj: Seq<(String, Json)>, f: (Seq<char>, TypeId, Option<Seq<char>>, bool)) -> bool {
    member(obj, f.0) is None && f.3
}

/// Whether a field is written as a verbatim `NULL`: optional and null.
pub open spec fn null_bound(obj: Seq<(String, Json)>, f: (Seq<char>, TypeId, Option<Seq<char>>, bool)) -> bool {
    f.3 && member(obj, f.0) matches Some(Json::Null)
}

/// The state after field `f`: a skipped field changes nothing; otherwise
/// the column, its placeholder (`NULL` or the next `$n`) and its update are
/// added. An `Id` field's given value must be a string that parses as a
/// UUID, and there may be only one `Id` field.
pub open spec fn insert_step(obj: Seq<(String, Json)>, st: InsertState, f: (Seq<char>, TypeId, Option<Seq<char>>, bool))
    -> Option<InsertState>
{
    if skipped(obj, f) {
        Some(st)
    } else {
        let count = if null_bound(obj, f) { st.count } else { st.count + 1 };
        let bind = if null_bound(obj, f) { "NULL"@ } else { "$"@ + decimal(count) };
        let id_ok = !(f.1 is Id) || (st.id is None && match member(obj, f.0) {
            None => true,
            Some(Json::String(t)) => spec_uuid_parses(t@),
            Some(_) => false,
        });
        if !id_ok {
            None
        } else {
            Some(InsertState {
                names: st.names.push(f.0),
                binds: st.binds.push(bind),
                updates: st.updates.push("\""@ + f.0 + "\" = "@ + bind),
                count,
                id: if f.1 is Id { Some((f.0, bind)) } else { st.id },
            })
        }
    }
}

/// The state after the fields `fs`, or `None` at an invalid id.
pub open spec fn insert_fold(obj: Seq<(String, Json)>, fs: Seq<(Seq<char>, TypeId, Option<Seq<char>>, bool)>) -> Option<InsertState>
    decreases fs.len(),
{
    if fs.len() == 0 {
        Some(empty_insert())
    } else {
        match insert_fold(obj, fs.drop_last()) {
            None => None,
            Some(st) => insert_step(obj, st, fs.last()),
        }
    }
}

/// Texts separated by commas.
pub open spec fn comma_join(s: Seq<Seq<char>>) -> Seq<char>
    decreases s.len(),
{
    if s.len() == 0 {
        Seq::empty()
    } else if s.len() == 1 {
        s[0]
    } else {
        comma_join(s.drop_last()) + ","@ + s.last()
    }
}

/// A name in double quotes.
pub open spec fn quoted(n: Seq<char>) -> Seq<char> {
    "\""@ + n + "\""@
}

/// The `INSERT ... ON CONFLICT ... DO UPDATE` statement of the collected
/// state into `table`.
pub open spec fn insert_sql(table: Seq<char>, st: InsertState) -> Seq<char> {
    let idn = match st.id { Some(p) => p.0, None => Seq::empty() };
    let idb = match st.id { Some(p) => p.1, None => Seq::empty() };
    "INSERT INTO \""@ + table + "\" ("@ + comma_join(st.names.map_values(|n: Seq<char>| quoted(n))) + ") VALUES ("@
        + comma_join(st.binds) + ") ON CONFLICT ("@ + idn + ") DO UPDATE SET "@ + comma_join(st.updates)
        + " WHERE \""@ + table + "\".\""@ + idn + "\" = "@ + idb
}

/// The statement that saves object `obj` of type `ty`, or `None` when an
/// id is invalid or the object has a member that is no field of the type.
pub open spec fn insert_query_spec(ty: ObjectType, obj: Seq<(String, Json)>) -> Option<Seq<char>> {
    match insert_fold(obj, stored_fields(ty)) {
        None => None,
        Some(st) => if forall|j: int| 0 <= j < obj.len() ==> st.names.contains(#[trigger] obj[j].0@) {
            Some(insert_sql(ty.backing_table@, st))
        } else {
            None
        },
    }
}

proof fn lemma_stored_fields(ty: ObjectType, k: int)
    requires
        1 <= k <= ty.user_fields@.len(),
    ensures
        stored_fields(ty).len() == ty.user_fields@.len() + 1,
        stored_fields(ty)[k] == field_info(ty.user_fields@[k - 1]),
        stored_fields(ty)[0] == id_info(),
{
}

proof fn lemma_insert_fold_none(obj: Seq<(String, Json)>, fs: Seq<(Seq<char>, TypeId, Option<Seq<char>>, bool)>, k: int)
    requires
        0 < k <= fs.len(),
        insert_fold(obj, fs.take(k)) is None,
    ensures
        insert_fold(obj, fs) is None,
    decreases fs.len() - k,
{
    if k < fs.len() {
        let t = fs.take(k + 1);
        assert(t.drop_last() =~= fs.take(k));
        lemma_insert_fold_none(obj, fs, k + 1);
    } else {
        assert(fs.take(k) =~= fs);
    }
}

fn push_joined(text: &mut String, first: bool, item: &str)
    ensures
        final(text)@ == if first { item@ } else { old(text)@ + ","@ + item@ },
{
    if first {
        *text = item.to_owned();
    } else {
        proof {
            reveal_strlit(",");
        }
        let t = string_concat(text.as_str(), ",").concat(item);
        *text = t;
    }
}

proof fn lemma_comma_join_push(s: Seq<Seq<char>>, x: Seq<char>)
    ensures
        comma_join(s.push(x)) == if s.len() == 0 { x } else { comma_join(s) + ","@ + x },
{
    assert(s.push(x).drop_last() =~= s);
}

fn contains_name(names: &Vec<String>, n: &str) -> (r: bool)
    ensures
        r == names@.map_values(|s: String| s@).contains(n@),
{
    let ghost v = names@.map_values(|s: String| s@);
    let mut i: usize = 0;
    while i < names.len()
        invariant
            i <= names@.len(),
            v == names@.map_values(|s: String| s@),
            forall|j: int| 0 <= j < i ==> v[j] != n@,
        decreases names@.len() - i,
    {
        if str_eq(names[i].as_str(), n) {
            assert(v[i as int] == n@);
            return true;
        }
        i = i + 1;
    }
    false
}

/// The statement that saves object `obj` of type `ty`: its columns are the
/// fields present in the object (all that are not optional), each bound to
/// the next placeholder or, when optional and null, written as `NULL`; on a
/// conflicting id the row is updated.
pub fn make_insert_query(ty: &ObjectType, obj: &Vec<(String, Json)>) -> (r: Result<String, String>)
    requires
        ty.user_fields@.len() < usize::MAX,
    ensures
        match insert_query_spec(*ty, obj@) {
            Some(s) => r matches Ok(t) && t@ == s,
            None => r is Err,
        },
{
    let idf = id_field();
    let ghost fs = stored_fields(*ty);
    let n = ty.user_fields.len();
    let mut names: Vec<String> = Vec::new();
    let mut quoted_names = String::new();
    let mut binds = String::new();
    let mut updates = String::new();
    let mut count: u64 = 0;
    let mut id_name = String::new();
    let mut id_bind = String::new();
    let mut has_id = false;
    let mut k: usize = 0;
    proof {
        reveal_strlit("NULL");
        reveal_strlit("$");
        reveal_strlit("\"");
        reveal_strlit("\" = ");
        assert(fs.take(0) =~= Seq::<(Seq<char>, TypeId, Option<Seq<char>>, bool)>::empty());
    }
    while k <= n
        invariant
            n == ty.user_fields@.len(),
            fs == stored_fields(*ty),
            field_info(idf) == id_info(),
            k <= n + 1,
            insert_fold(obj@, fs.take(k as int)) matches Some(st) && {
                &&& names@.map_values(|s: String| s@) == st.names
                &&& quoted_names@ == comma_join(st.names.map_values(|x: Seq<char>| quoted(x)))
                &&& binds@ == comma_join(st.binds)
                &&& updates@ == comma_join(st.updates)
                &&& st.binds.len() == st.names.len()
                &&& st.updates.len() == st.names.len()
                &&& count as nat == st.count
                &&& count <= k
                &&& (has_id <==> st.id is Some)
                &&& (st.id matches Some(p) ==> id_name@ == p.0 && id_bind@ == p.1)
                &&& (!has_id ==> id_name@ == Seq::<char>::empty() && id_bind@ == Seq::<char>::empty())
            },
            n < usize::MAX,
        decreases n + 1 - k,
    {
        let f: &Field = if k == 0 { &idf } else { &ty.user_fields[k - 1] };
        let ghost st = insert_fold(obj@, fs.take(k as int))->0;
        proof {
            if k >= 1 {
                lemma_stored_fields(*ty, k as int);
            }
            assert(fs[k as int] == field_info(*f));
            let t = fs.take(k + 1);
            assert(t.drop_last() =~= fs.take(k as int));
            assert(t.last() == fs[k as int]);
        }
        let val = get_member(obj, f.name.as_str());
        if val.is_none() && f.is_optional {
            // an absent optional field is left out
        } else {
            let null_bind = f.is_optional && match val {
                Some(Json::Null) => true,
                _ => false,
            };
            let bind = if null_bind {
                "NULL".to_owned()
            } else {
                count = count + 1;
                string_concat("$", u64_to_string(count).as_str())
            };
            let is_id = match f.type_id {
                TypeId::Id => true,
                _ => false,
            };
            if is_id {
                match val {
                    Some(Json::String(t)) => {
                        if !uuid_parses(t.as_str()) {
                            proof {
                                lemma_insert_fold_none(obj@, fs, k + 1);
                            }
                            let m = string_concat("invalid ID '", t.as_str());
                            return Err(m.concat("'"));
                        }
                    },
                    Some(_) => {
                        proof {
                            lemma_insert_fold_none(obj@, fs, k + 1);
                        }
                        return Err("invalid ID: It is not a string".to_owned());
                    },
                    None => {},
                }
                if has_id {
                    proof {
                        lemma_insert_fold_none(obj@, fs, k + 1);
                    }
                    return Err("More than one ID??".to_owned());
                }
                id_name = f.name.clone();
                id_bind = bind.clone();
                has_id = true;
            }
            let ghost names0 = st.names;
            let ghost binds0 = st.binds;
            let ghost updates0 = st.updates;
            let first = names.len() == 0;
            assert(names0.len() == names@.len());
            let q = string_concat("\"", f.name.as_str()).concat("\"");
            push_joined(&mut quoted_names, first, q.as_str());
            push_joined(&mut binds, first, bind.as_str());
            let u = string_concat("\"", f.name.as_str()).concat("\" = ").concat(bind.as_str());
            push_joined(&mut updates, first, u.as_str());
            names.push(f.name.clone());
            proof {
                lemma_comma_join_push(names0.map_values(|x: Seq<char>| quoted(x)), quoted(f.name@));
                assert(names0.push(f.name@).map_values(|x: Seq<char>| quoted(x)) =~= names0.map_values(|x: Seq<char>| quoted(x)).push(quoted(f.name@)));
                lemma_comma_join_push(binds0, bind@);
                lemma_comma_join_push(updates0, u@);
                assert(binds0.len() == names0.len());
                assert(updates0.len() == names0.len());
                assert(names@.map_values(|s: String| s@) =~= names0.push(f.name@));
            }
        }
        k = k + 1;
    }
    let ghost st = insert_fold(obj@, fs)->0;
    assert(fs.take(n + 1) =~= fs);
    let mut j: usize = 0;
    while j < obj.len()
        invariant
            j <= obj@.len(),
            names@.map_values(|s: String| s@) == st.names,
            insert_fold(obj@, stored_fields(*ty)) == Some(st),
            forall|i: int| 0 <= i < j ==> st.names.contains(#[trigger] obj@[i].0@),
        decreases obj@.len() - j,
    {
        if !contains_name(&names, obj[j].0.as_str()) {
            assert(!st.names.contains(obj@[j as int].0@));
            let m = string_concat("field ", obj[j].0.as_str()).concat(" not present in ");
            return Err(m.concat(ty.name.as_str()));
        }
        j = j + 1;
    }
    proof {
        reveal_strlit("INSERT INTO \"");
        reveal_strlit("\" (");
        reveal_strlit(") VALUES (");
        reveal_strlit(") ON CONFLICT (");
        reveal_strlit(") DO UPDATE SET ");
        reveal_strlit(" WHERE \"");
        reveal_strlit("\".\"");
        reveal_strlit("\" = ");
    }
    let table = ty.backing_table.as_str();
    let s = string_concat("INSERT INTO \"", table).concat("\" (").concat(quoted_names.as_str()).concat(") VALUES (");
    let s = s.concat(binds.as_str()).concat(") ON CONFLICT (").concat(id_name.as_str()).concat(") DO UPDATE SET ");
    let s = s.concat(updates.as_str()).concat(" WHERE \"").concat(table).concat("\".\"").concat(id_name.as_str());
    Ok(s.concat("\" = ").concat(id_bind.as_str()))
}


/// The argument specs of the fields of a shallow insertion (nested objects
/// are stored by their ids): one for each field that is not an absent
/// optional one, or `None` when a value does not convert.
pub open spec fn shallow_args(obj: Seq<(String, Json)>, fs: Seq<(Seq<char>, TypeId, Option<Seq<char>>, bool)>) -> Option<Seq<ArgSpec>>
    decreases fs.len(),
{
    if fs.len() == 0 {
        Some(Seq::empty())
    } else {
        match shallow_args(obj, fs.drop_last()) {
            None => None,
            Some(a) => if skipped(obj, fs.last()) {
                Some(a)
            } else {
                match argument_of(fs.last(), member(obj, fs.last().0)) {
                    ArgSpec::Fails => None,
                    x => Some(a.push(x)),
                }
            },
        }
    }
}

/// Whether bound values are what their specs allow.
pub open spec fn args_match(a: Seq<SqlValue>, s: Seq<ArgSpec>) -> bool {
    a.len() == s.len() && forall|i: int| 0 <= i < a.len() ==> arg_matches(#[trigger] a[i], s[i])
}

/// The message of a value that does not fit its field.
pub open spec fn incompatible_message(field: Seq<char>, ty: Seq<char>) -> Seq<char> {
    "provided data for field `"@ + field + "` are incompatible with given type `"@ + ty + "`"@
}

fn incompatible(field: &str, ty: &str) -> (r: String)
    ensures
        r@ == incompatible_message(field@, ty@),
{
    proof {
        reveal_strlit("provided data for field `");
        reveal_strlit("` are incompatible with given type `");
        reveal_strlit("`");
    }
    string_concat("provided data for field `", field).concat("` are incompatible with given type `").concat(ty).concat("`")
}

proof fn lemma_shallow_none(obj: Seq<(String, Json)>, fs: Seq<(Seq<char>, TypeId, Option<Seq<char>>, bool)>, k: int)
    requires
        0 < k <= fs.len(),
        shallow_args(obj, fs.take(k)) is None,
    ensures
        shallow_args(obj, fs) is None,
    decreases fs.len() - k,
{
    if k < fs.len() {
        let t = fs.take(k + 1);
        assert(t.drop_last() =~= fs.take(k));
        lemma_shallow_none(obj, fs, k + 1);
    } else {
        assert(fs.take(k) =~= fs);
    }
}

/// The single statement that saves object `obj` of type `ty`, the values
/// of all fields converted as they are.
pub fn prepare_insertion_shallow(ty: &ObjectType, obj: &Vec<(String, Json)>) -> (r: Result<SqlWithArguments, String>)
    requires
        ty.user_fields@.len() < usize::MAX,
    ensures
        match (shallow_args(obj@, stored_fields(*ty)), insert_query_spec(*ty, obj@)) {
            (Some(a), Some(q)) => r matches Ok(s) && s.sql@ == q && args_match(s.args@, a),
            _ => r is Err,
        },
{
    let idf = id_field();
    let ghost fs = stored_fields(*ty);
    let n = ty.user_fields.len();
    let mut args: Vec<SqlValue> = Vec::new();
    let mut k: usize = 0;
    assert(fs.take(0) =~= Seq::<(Seq<char>, TypeId, Option<Seq<char>>, bool)>::empty());
    while k <= n
        invariant
            n == ty.user_fields@.len(),
            n < usize::MAX,
            fs == stored_fields(*ty),
            field_info(idf) == id_info(),
            k <= n + 1,
            shallow_args(obj@, fs.take(k as int)) matches Some(a) && args_match(args@, a),
        decreases n + 1 - k,
    {
        let f: &Field = if k == 0 { &idf } else { &ty.user_fields[k - 1] };
        let ghost a0 = shallow_args(obj@, fs.take(k as int))->0;
        proof {
            if k >= 1 {
                lemma_stored_fields(*ty, k as int);
            }
            assert(fs[k as int] == field_info(*f));
            let t = fs.take(k + 1);
            assert(t.drop_last() =~= fs.take(k as int));
            assert(t.last() == fs[k as int]);
        }
        let absent = get_member(obj, f.name.as_str()).is_none();
        if !(absent && f.is_optional) {
            match convert_to_argument(f, obj) {
                Ok(a) => {
                    let ghost before = args@;
                    args.push(a);
                    proof {
                        let x = argument_of(fs[k as int], member(obj@, f.name@));
                        assert(args@ =~= before.push(args@.last()));
                        assert forall|i: int| 0 <= i < args@.len() implies arg_matches(#[trigger] args@[i], a0.push(x)[i]) by {
                            if i < before.len() {
                                assert(args@[i] == before[i]);
                            }
                        }
                    }
                },
                Err(_) => {
                    proof {
                        lemma_shallow_none(obj@, fs, k + 1);
                    }
                    return Err(incompatible(f.name.as_str(), ty.name.as_str()));
                },
            }
        }
        k = k + 1;
    }
    assert(fs.take(n + 1) =~= fs);
    match make_insert_query(ty, obj) {
        Ok(sql) => Ok(SqlWithArguments { sql, args }),
        Err(e) => Err(e),
    }
}

/// The ids of an insertion as plain values: an id is `None` when it is a
/// fresh random one. The object's own statement is number `row` of the
/// statements of its insertion, which bind its id as argument `id_pos` and
/// the id of child `k` as argument `child_pos[k]`; the statements of child
/// `k` start at number `child_off[k]`.
pub struct IdTreeView {
    pub id: Option<Seq<char>>,
    pub children: Seq<(Seq<char>, IdTreeView)>,
    pub row: int,
    pub id_pos: int,
    pub child_pos: Seq<int>,
    pub child_off: Seq<int>,
}

/// Whether the statements from number `off` on save the tree of ids `t`
/// laid out as `v` says: each object's statement binds, as text, its own
/// id where its `id` field goes, and the id of each nested object saved with
/// it where that object's field goes.
pub open spec fn linked(stmts: Seq<SqlWithArguments>, off: int, t: IdTree, v: IdTreeView) -> bool
    decreases v,
{
    let row = off + v.row;
    &&& 0 <= row < stmts.len()
    &&& text_arg(stmts[row].args@, v.id_pos, t.id@)
    &&& v.child_pos.len() == v.children.len()
    &&& v.child_off.len() == v.children.len()
    &&& t.children@.len() == v.children.len()
    &&& forall|k: int| 0 <= k < v.children.len() ==> {
        &&& text_arg(stmts[row].args@, v.child_pos[k], (#[trigger] t.children@[k]).1.id@)
        &&& linked(stmts, off + v.child_off[k], t.children@[k].1, v.children[k].1)
    }
}

/// Whether argument `i` is bound to the text `s`.
pub open spec fn text_arg(args: Seq<SqlValue>, i: int, s: Seq<char>) -> bool {
    &&& 0 <= i < args.len()
    &&& args[i] matches SqlValue::String(x) && x@ == s
}

/// Statements that hold `a` from number `shift` on save the same trees.
pub proof fn lemma_linked_moves(a: Seq<SqlWithArguments>, b: Seq<SqlWithArguments>, off: int, shift: int, t: IdTree, v: IdTreeView)
    requires
        linked(a, off, t, v),
        0 <= shift,
        shift + a.len() <= b.len(),
        forall|i: int| 0 <= i < a.len() ==> b[shift + i] == a[i],
    ensures
        linked(b, off + shift, t, v),
    decreases v,
{
    let row = off + v.row;
    let row2 = off + shift + v.row;
    assert(b[shift + row] == a[row]);
    assert(b[row2] == a[row]);
    assert forall|k: int| 0 <= k < v.children.len() implies {
        &&& text_arg(b[row2].args@, v.child_pos[k], (#[trigger] t.children@[k]).1.id@)
        &&& linked(b, off + shift + v.child_off[k], t.children@[k].1, v.children[k].1)
    } by {
        lemma_linked_moves(a, b, off + v.child_off[k], shift, t.children@[k].1, v.children[k].1);
        assert(off + v.child_off[k] + shift == off + shift + v.child_off[k]);
    }
}

/// Whether an id tree is what its view allows.
pub open spec fn tree_matches(t: IdTree, v: IdTreeView) -> bool
    decreases v,
{
    &&& match v.id {
        Some(s) => t.id@ == s,
        None => t.id@.len() == 36,
    }
    &&& t.children@.len() == v.children.len()
    &&& forall|k: int| 0 <= k < v.children.len() ==> {
        &&& (#[trigger] t.children@[k]).0@ == v.children[k].0
        &&& tree_matches(t.children@[k].1, v.children[k].1)
    }
}

/// The statements of an insertion as plain values: the text of each with
/// the specs of its arguments.
pub open spec fn stmts_match(a: Seq<SqlWithArguments>, s: Seq<(Seq<char>, Seq<ArgSpec>)>) -> bool {
    &&& a.len() == s.len()
    &&& forall|i: int| 0 <= i < a.len() ==> (#[trigger] a[i]).sql@ == s[i].0 && args_match(a[i].args@, s[i].1)
}

/// What saving an object yields: the statements in order, nested objects
/// first, and the tree of ids.
pub struct InsertionView {
    pub stmts: Seq<(Seq<char>, Seq<ArgSpec>)>,
    pub tree: IdTreeView,
}

/// The insertion collected over some of the fields: statements of nested
/// objects, argument specs, the object's id if seen (`Some(None)` for a
/// fresh one), and the ids of nested objects.
pub struct DeepState {
    pub stmts: Seq<(Seq<char>, Seq<ArgSpec>)>,
    pub args: Seq<ArgSpec>,
    pub id: Option<Option<Seq<char>>>,
    pub id_pos: int,
    pub children: Seq<(Seq<char>, IdTreeView)>,
    pub child_pos: Seq<int>,
    pub child_off: Seq<int>,
}

/// The members of a JSON object (none for another value).
pub open spec fn members_of(j: Json) -> Seq<(String, Json)> {
    match j {
        Json::Object(m) => m@,
        _ => Seq::empty(),
    }
}

/// Saving object `j` of type `ty`: each field's argument (a nested object is
/// saved first and bound by its id; an authentication entity is only
/// referred to, by the `id` it is given), then the object's own statement.
/// `None` when the object is not an object, a field's type is unknown, a
/// value does not fit its field, the object has no id, or its statement
/// cannot be written.
pub open spec fn insertion_spec(ts: TypeSystem, ty: ObjectType, j: Json) -> Option<InsertionView>
    decreases j, 1nat, 0nat,
{
    match j {
        Json::Object(m) => match deep_fold(ts, j, stored_fields(ty)) {
            None => None,
            Some(ds) => match (insert_query_spec(ty, m@), ds.id) {
                (Some(q), Some(id)) => Some(InsertionView {
                    stmts: ds.stmts.push((q, ds.args)),
                    tree: IdTreeView {
                        id,
                        children: ds.children,
                        row: ds.stmts.len() as int,
                        id_pos: ds.id_pos,
                        child_pos: ds.child_pos,
                        child_off: ds.child_off,
                    },
                }),
                _ => None,
            },
        },
        _ => None,
    }
}

/// The insertion state after the fields `fs` of object `j`.
pub open spec fn deep_fold(ts: TypeSystem, j: Json, fs: Seq<(Seq<char>, TypeId, Option<Seq<char>>, bool)>) -> Option<DeepState>
    decreases j, 0nat, fs.len(),
{
    if fs.len() == 0 {
        Some(DeepState {
            stmts: Seq::empty(),
            args: Seq::empty(),
            id: None,
            id_pos: 0,
            children: Seq::empty(),
            child_pos: Seq::empty(),
            child_off: Seq::empty(),
        })
    } else {
        match deep_fold(ts, j, fs.drop_last()) {
            None => None,
            Some(s) => {
                let f = fs.last();
                let m = members_of(j);
                let val = member(m, f.0);
                if (val is None || val->0 is Null) && f.3 {
                    Some(s)
                } else {
                    let step: Option<(ArgSpec, Seq<(Seq<char>, Seq<ArgSpec>)>, Seq<(Seq<char>, IdTreeView)>, Seq<int>, Seq<int>)> =
                        match field_entity(ts, f.1) {
                            None => None,
                            Some(None) => match argument_of(f, val) {
                                ArgSpec::Fails => None,
                                a => Some((a, s.stmts, s.children, s.child_pos, s.child_off)),
                            },
                            Some(Some(nested)) => match val {
                                Some(Json::Object(v2)) => if auth_entity_names().contains(nested.name@) {
                                    match member(v2@, "id"@) {
                                        Some(Json::String(t)) => Some((ArgSpec::Exactly(SqlValueView::String(t@)), s.stmts, s.children,
                                            s.child_pos, s.child_off)),
                                        _ => None,
                                    }
                                } else {
                                    proof {
                                        lemma_member_decreases(j, f.0);
                                    }
                                    match insertion_spec(ts, nested, val->0) {
                                        None => None,
                                        Some(sub) => Some((
                                            match sub.tree.id {
                                                Some(t) => ArgSpec::Exactly(SqlValueView::String(t)),
                                                None => ArgSpec::Fresh,
                                            },
                                            s.stmts + sub.stmts,
                                            s.children.push((f.0, sub.tree)),
                                            s.child_pos.push(s.args.len() as int),
                                            s.child_off.push(s.stmts.len() as int),
                                        )),
                                    }
                                },
                                _ => None,
                            },
                        };
                    match step {
                        None => None,
                        Some((a, stmts, children, child_pos, child_off)) => {
                            if f.0 == "id"@ {
                                match a {
                                    ArgSpec::Exactly(SqlValueView::String(t)) => Some(DeepState {
                                        stmts, args: s.args.push(a), id: Some(Some(t)), id_pos: s.args.len() as int,
                                        children, child_pos, child_off }),
                                    ArgSpec::Fresh => Some(DeepState {
                                        stmts, args: s.args.push(a), id: Some(None), id_pos: s.args.len() as int,
                                        children, child_pos, child_off }),
                                    _ => None,
                                }
                            } else {
                                Some(DeepState { stmts, args: s.args.push(a), id: s.id, id_pos: s.id_pos,
                                    children, child_pos, child_off })
                            }
                        },
                    }
                }
            },
        }
    }
}

pub proof fn lemma_member_decreases(j: Json, key: Seq<char>)
    requires
        j is Object,
        member(members_of(j), key) is Some,
    ensures
        decreases_to!(j => member(members_of(j), key)->0),
{
    broadcast use vstd::std_specs::vec::axiom_vec_index_decreases;
    let m = j->Object_0;
    crate::json::lemma_member_index(m@, key);
    let i = crate::json::member_index(m@, key);
    assert(decreases_to!(j => m));
    assert(decreases_to!(m => m[i]));
    assert(decreases_to!(m[i] => m[i].1));
}


/// Every entity type of a type system has fewer than `usize::MAX` fields.
pub open spec fn fields_fit(ts: TypeSystem) -> bool {
    &&& forall|n: Seq<char>| ts.entities@.contains_key(n) ==> (#[trigger] ts.entities@[n]).user_fields@.len() < usize::MAX
    &&& forall|n: Seq<char>| ts.builtin@.contains_key(n) ==> (#[trigger] ts.builtin@[n]).user_fields@.len() < usize::MAX
}

proof fn lemma_deep_none(ts: TypeSystem, j: Json, fs: Seq<(Seq<char>, TypeId, Option<Seq<char>>, bool)>, k: int)
    requires
        0 < k <= fs.len(),
        deep_fold(ts, j, fs.take(k)) is None,
    ensures
        deep_fold(ts, j, fs) is None,
    decreases fs.len() - k,
{
    if k < fs.len() {
        let t = fs.take(k + 1);
        assert(t.drop_last() =~= fs.take(k));
        lemma_deep_none(ts, j, fs, k + 1);
    } else {
        assert(fs.take(k) =~= fs);
    }
}

/// Whether the saved ids so far are what the state allows.
pub open spec fn id_matches(obj_id: Option<String>, id: Option<Option<Seq<char>>>) -> bool {
    match id {
        None => obj_id is None,
        Some(Some(t)) => obj_id matches Some(x) && x@ == t,
        Some(None) => obj_id matches Some(x) && x@.len() == 36,
    }
}

/// Whether argument `pos` binds, as text, the id the object was given.
pub open spec fn id_bound(args: Seq<SqlValue>, pos: int, obj_id: Option<String>) -> bool {
    obj_id matches Some(x) && text_arg(args, pos, x@)
}

/// Whether saved children are what their views allow.
pub open spec fn children_match(c: Seq<(String, IdTree)>, v: Seq<(Seq<char>, IdTreeView)>) -> bool {
    &&& c.len() == v.len()
    &&& forall|k: int| 0 <= k < v.len() ==> (#[trigger] c[k]).0@ == v[k].0 && tree_matches(c[k].1, v[k].1)
}

/// The statements that save object `obj` of type `ty` and the ids of the
/// objects saved: nested objects are saved first, each by its own
/// statements, and bound by their ids; authentication entities are only
/// referred to by the `id` given.
pub fn prepare_insertion(ty: &ObjectType, obj: &Vec<(String, Json)>, ts: &TypeSystem)
    -> (r: Result<(Vec<SqlWithArguments>, IdTree), String>)
    requires
        ts.wf(),
        fields_fit(*ts),
        ty.user_fields@.len() < usize::MAX,
    ensures
        match insertion_spec(*ts, *ty, Json::Object(*obj)) {
            None => r is Err,
            Some(v) => r matches Ok(p) && stmts_match(p.0@, v.stmts) && tree_matches(p.1, v.tree)
                && linked(p.0@, 0, p.1, v.tree),
        },
{
    insertion_rec(ty, obj, ts)
}

proof fn lemma_nested_decreases(m: Vec<(String, Json)>, key: Seq<char>, v2: Vec<(String, Json)>)
    requires
        member(m@, key) == Some(Json::Object(v2)),
    ensures
        decreases_to!(m => v2),
{
    broadcast use vstd::std_specs::vec::axiom_vec_index_decreases;
    crate::json::lemma_member_index(m@, key);
    let i = crate::json::member_index(m@, key);
    assert(decreases_to!(m => m[i]));
    assert(decreases_to!(m[i] => m[i].1));
    assert(m[i].1 == Json::Object(v2));
    let o = Json::Object(v2);
    assert(decreases_to!(o => o->Object_0));
}

fn insertion_rec(ty: &ObjectType, m: &Vec<(String, Json)>, ts: &TypeSystem) -> (r: Result<(Vec<SqlWithArguments>, IdTree), String>)
    requires
        ts.wf(),
        fields_fit(*ts),
        ty.user_fields@.len() < usize::MAX,
    ensures
        match insertion_spec(*ts, *ty, Json::Object(*m)) {
            None => r is Err,
            Some(v) => r matches Ok(p) && stmts_match(p.0@, v.stmts) && tree_matches(p.1, v.tree)
                && linked(p.0@, 0, p.1, v.tree),
        },
    decreases m,
{
    let ghost j = Json::Object(*m);
    let idf = id_field();
    let ghost fs = stored_fields(*ty);
    let n = ty.user_fields.len();
    let mut inserts: Vec<SqlWithArguments> = Vec::new();
    let mut args: Vec<SqlValue> = Vec::new();
    let mut children: Vec<(String, IdTree)> = Vec::new();
    let mut obj_id: Option<String> = None;
    let mut k: usize = 0;
    proof {
        reveal_strlit("id");
        assert(fs.take(0) =~= Seq::<(Seq<char>, TypeId, Option<Seq<char>>, bool)>::empty());
    }
    while k <= n
        invariant
            ts.wf(),
            fields_fit(*ts),
            j == Json::Object(*m),
            n == ty.user_fields@.len(),
            n < usize::MAX,
            fs == stored_fields(*ty),
            field_info(idf) == id_info(),
            k <= n + 1,
            deep_fold(*ts, j, fs.take(k as int)) matches Some(ds) && {
                &&& stmts_match(inserts@, ds.stmts)
                &&& args_match(args@, ds.args)
                &&& children_match(children@, ds.children)
                &&& id_matches(obj_id, ds.id)
                &&& ds.id is Some ==> id_bound(args@, ds.id_pos, obj_id)
                &&& ds.child_pos.len() == ds.children.len()
                &&& ds.child_off.len() == ds.children.len()
                &&& forall|q: int| 0 <= q < ds.children.len() ==> {
                    &&& text_arg(args@, ds.child_pos[q], (#[trigger] children@[q]).1.id@)
                    &&& linked(inserts@, ds.child_off[q], children@[q].1, ds.children[q].1)
                }
            },
        decreases n + 1 - k,
    {
        let f: &Field = if k == 0 { &idf } else { &ty.user_fields[k - 1] };
        let ghost ds = deep_fold(*ts, j, fs.take(k as int))->0;
        proof {
            if k >= 1 {
                lemma_stored_fields(*ty, k as int);
            }
            assert(fs[k as int] == field_info(*f));
            let t = fs.take(k + 1);
            assert(t.drop_last() =~= fs.take(k as int));
            assert(t.last() == fs[k as int]);
            assert(members_of(j) == m@);
        }
        let val = get_member(m, f.name.as_str());
        let absent_or_null = match val {
            None => true,
            Some(Json::Null) => true,
            _ => false,
        };
        if !(absent_or_null && f.is_optional) {
            let ghost inserts0 = inserts@;
            let ghost children0 = children@;
            let ghost mut added = false;
            let ghost mut added_id: Seq<char> = Seq::empty();
            let arg: SqlValue = match entity_of(ts, &f.type_id) {
                Err(e) => {
                    proof {
                        lemma_deep_none(*ts, j, fs, k + 1);
                    }
                    return Err(e);
                },
                Ok(None) => match convert_to_argument(f, m) {
                    Ok(a) => a,
                    Err(_) => {
                        proof {
                            lemma_deep_none(*ts, j, fs, k + 1);
                        }
                        return Err(incompatible(f.name.as_str(), ty.name.as_str()));
                    },
                },
                Ok(Some(nested)) => {
                    let x: &Json = match val {
                        Some(x) => x,
                        None => {
                            proof {
                                lemma_deep_none(*ts, j, fs, k + 1);
                            }
                            return Err(incompatible(f.name.as_str(), ty.name.as_str()));
                        },
                    };
                    let v2 = match x {
                        Json::Object(v2) => v2,
                        _ => {
                            proof {
                                lemma_deep_none(*ts, j, fs, k + 1);
                            }
                            return Err(incompatible(f.name.as_str(), ty.name.as_str()));
                        },
                    };
                    if is_auth_entity_name(nested.name.as_str()) {
                        match get_member(v2, "id") {
                            Some(Json::String(t)) => SqlValue::String(t.clone()),
                            _ => {
                                proof {
                                    lemma_deep_none(*ts, j, fs, k + 1);
                                }
                                let msg = string_concat("Cannot save into nested type ", nested.name.as_str());
                                return Err(msg.concat("."));
                            },
                        }
                    } else {
                        proof {
                            lemma_nested_decreases(*m, f.name@, *v2);
                            assert(nested.user_fields@.len() < usize::MAX);
                        }
                        match insertion_rec(nested, v2, ts) {
                            Ok((sub_inserts, sub_tree)) => {
                                let ghost sub = insertion_spec(*ts, *nested, Json::Object(*v2))->0;
                                let mut sub_inserts = sub_inserts;
                                let ghost subv = sub_inserts@;
                                inserts.append(&mut sub_inserts);
                                let id = sub_tree.id.clone();
                                let ghost sub_tree_g = sub_tree;
                                children.push((f.name.clone(), sub_tree));
                                proof {
                                    added = true;
                                    added_id = id@;
                                    assert(inserts@ =~= inserts0 + subv);
                                    assert(stmts_match(inserts0, ds.stmts));
                                    let ch_off = ds.child_off.push(ds.stmts.len() as int);
                                    let chv = ds.children.push((f.name@, sub.tree));
                                    assert forall|q: int| 0 <= q < children@.len() implies
                                        linked(inserts@, ch_off[q], (#[trigger] children@[q]).1, chv[q].1) by {
                                        if q < children0.len() {
                                            assert(children@[q] == children0[q]);
                                            assert forall|i: int| 0 <= i < inserts0.len() implies inserts@[0 + i] == inserts0[i] by {}
                                            lemma_linked_moves(inserts0, inserts@, ds.child_off[q], 0, children0[q].1, ds.children[q].1);
                                        } else {
                                            assert forall|i: int| 0 <= i < subv.len()
                                                implies inserts@[inserts0.len() + i] == subv[i] by {}
                                            lemma_linked_moves(subv, inserts@, 0, inserts0.len() as int, sub_tree_g, sub.tree);
                                        }
                                    }
                                    let st = ds.stmts + sub.stmts;
                                    assert forall|i: int| 0 <= i < inserts@.len() implies (#[trigger] inserts@[i]).sql@ == st[i].0
                                        && args_match(inserts@[i].args@, st[i].1) by {
                                        if i < inserts0.len() {
                                            assert(inserts@[i] == inserts0[i]);
                                        } else {
                                            assert(inserts@[i] == subv[i - inserts0.len()]);
                                        }
                                    }
                                    let ch = ds.children.push((f.name@, sub.tree));
                                    assert forall|q: int| 0 <= q < ch.len() implies (#[trigger] children@[q]).0@ == ch[q].0
                                        && tree_matches(children@[q].1, ch[q].1) by {
                                        if q < children0.len() {
                                            assert(children@[q] == children0[q]);
                                        }
                                    }
                                }
                                SqlValue::String(id)
                            },
                            Err(e) => {
                                proof {
                                    lemma_deep_none(*ts, j, fs, k + 1);
                                }
                                return Err(e);
                            },
                        }
                    }
                },
            };
            if str_eq(f.name.as_str(), "id") {
                match &arg {
                    SqlValue::String(t) => {
                        obj_id = Some(t.clone());
                    },
                    _ => {
                        proof {
                            lemma_deep_none(*ts, j, fs, k + 1);
                        }
                        return Err("the id value is not string".to_owned());
                    },
                }
            }
            let ghost args0 = args@;
            let ghost arg_g = arg;
            args.push(arg);
            proof {
                assert forall|i: int| 0 <= i < args0.len() implies args@[i] == args0[i] by {}
                assert(args@[args0.len() as int] == arg_g);
                assert(args0.len() == ds.args.len());
                if !added {
                    assert(children@ == children0);
                    assert(inserts@ == inserts0);
                } else {
                    assert(text_arg(args@, args0.len() as int, added_id));
                    assert(children@.last().1.id@ == added_id);
                }
            }
        }
        k = k + 1;
    }
    assert(fs.take(n + 1) =~= fs);
    let sql = match make_insert_query(ty, m) {
        Ok(s) => s,
        Err(e) => return Err(e),
    };
    let id = match obj_id {
        Some(id) => id,
        None => {
            let msg = string_concat("attempting to insert an object `", ty.name.as_str());
            return Err(msg.concat("` with no id"));
        },
    };
    let ghost ds = deep_fold(*ts, j, fs)->0;
    let ghost inserts0 = inserts@;
    let ghost args_g = args@;
    inserts.push(SqlWithArguments { sql, args });
    let tree = IdTree { id, children };
    proof {
        let st = ds.stmts.push((insert_query_spec(*ty, m@)->0, ds.args));
        assert forall|i: int| 0 <= i < inserts@.len() implies (#[trigger] inserts@[i]).sql@ == st[i].0
            && args_match(inserts@[i].args@, st[i].1) by {
            if i < inserts0.len() {
                assert(inserts@[i] == inserts0[i]);
            }
        }
        let v = insertion_spec(*ts, *ty, j)->0.tree;
        assert(v.row == inserts0.len());
        assert(inserts@[inserts0.len() as int].args@ == args_g);
        assert(text_arg(args_g, v.id_pos, tree.id@));
        assert forall|k: int| 0 <= k < v.children.len() implies {
            &&& text_arg(inserts@[0 + v.row].args@, v.child_pos[k], (#[trigger] tree.children@[k]).1.id@)
            &&& linked(inserts@, 0 + v.child_off[k], tree.children@[k].1, v.children[k].1)
        } by {
            assert forall|i: int| 0 <= i < inserts0.len() implies inserts@[0 + i] == inserts0[i] by {}
            lemma_linked_moves(inserts0, inserts@, ds.child_off[k], 0, tree.children@[k].1, ds.children[k].1);
        }
    }
    Ok((inserts, tree))
}


/// The entity type that a store into the type named `name` saves, for a
/// request of API version `version_id` to `path`: it must be an entity type,
/// and an authentication entity only from the authentication endpoints.
pub fn store_target<'a>(ts: &'a TypeSystem, name: &str, version_id: &str, path: &str) -> (r: Result<&'a ObjectType, String>)
    requires
        ts.wf(),
    ensures
        match ts.spec_lookup_type(name@) {
            Some(Type::Entity(_)) => lookup_entity_spec(*ts, name@) matches Some(e) && if auth_entity_names().contains(e.name@)
                && !(version_id@ == "__chiselstrike"@ && "/auth/"@.is_prefix_of(path@)) {
                r matches Err(m) && m@ == "Cannot save into auth type "@ + name@
            } else {
                r matches Ok(x) && *x == e
            },
            _ => r matches Err(m) && m@ == "Cannot save into type "@ + name@,
        },
{
    proof {
        reveal_strlit("Cannot save into type ");
        reveal_strlit("Cannot save into auth type ");
    }
    let is_entity = match ts.lookup_type(name) {
        Some(Type::Entity(_)) => true,
        _ => false,
    };
    if !is_entity {
        return Err(string_concat("Cannot save into type ", name));
    }
    let ty = match ts.entities.get(name) {
        Some(e) => e,
        None => match ts.builtin.get(name) {
            Some(e) => e,
            None => return Err(string_concat("Cannot save into type ", name)),
        },
    };
    if is_auth_entity_name(ty.name.as_str()) && !is_auth_path(version_id, path) {
        return Err(string_concat("Cannot save into auth type ", name));
    }
    Ok(ty)
}

} // verus!
