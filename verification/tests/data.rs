use chisel_server::schema::{index_fields, parse_db_field_name};
use chisel_server::insert::store_target;
use chisel_server::typeinfo::simple_type_system;
use chisel_server::schema::{migration_step, SchemaMigration};
use chisel_server::schema::{ApiInfo, ChiselVersion, FieldLabels, Fields, Sessions, Types};
use chisel_server::expr::{BinaryExpr, BinaryOp, Expr, PropertyAccess, Value};
use chisel_server::filter::{json_to_literal, to_expr};
use chisel_server::insert::{
    convert_to_argument, make_insert_query, prepare_insertion, prepare_insertion_shallow, SqlValue,
};
use chisel_server::json::{get_member, Json, JsonNumber};
use chisel_server::pattern::Pattern;
use chisel_server::plan::QueryPlan;
use chisel_server::policies::{Kind, Policy, PolicySystem, Transformation};
use chisel_server::prefix_map::PrefixMap;
use chisel_server::query::TargetDatabase;
use chisel_server::rows::{id_idx, project, read_kind, row_to_json, Cell, ReadKind};
use chisel_server::types::{Field, ObjectType, TypeId, TypeSystem};

const U1: &str = "936da01f-9abd-4d9d-80c7-02af85c822a8";
const U2: &str = "67e55044-10b1-426f-9247-bb680e5fe0c8";

fn s(x: &str) -> Json {
    Json::String(x.to_string())
}

fn num(n: u64) -> Json {
    Json::Number(JsonNumber::PosInt(n))
}

fn obj(members: Vec<(&str, Json)>) -> Json {
    Json::Object(members.into_iter().map(|(k, v)| (k.to_string(), v)).collect())
}

fn members(members: Vec<(&str, Json)>) -> Vec<(String, Json)> {
    members.into_iter().map(|(k, v)| (k.to_string(), v)).collect()
}

fn prop(path: &[&str]) -> Expr {
    let mut e = Expr::Parameter { position: 0 };
    for p in path {
        e = Expr::Property(PropertyAccess { property: p.to_string(), object: Box::new(e) });
    }
    e
}

fn lit(v: Value) -> Expr {
    Expr::Value { value: v }
}

fn bin(op: BinaryOp, l: Expr, r: Expr) -> Expr {
    Expr::Binary(BinaryExpr::new(op, l, r))
}

fn t() -> Expr {
    lit(Value::Bool(true))
}

fn same(a: &Expr, b: &Expr) -> bool {
    format!("{:?}", a) == format!("{:?}", b)
}

fn field(name: &str, type_id: TypeId) -> Field {
    Field { name: name.to_string(), type_id, labels: vec![], default: None, is_optional: false, is_unique: false }
}

fn entity(name: &str, fields: Vec<Field>) -> ObjectType {
    ObjectType { name: name.to_string(), backing_table: format!("ty_{}", name), user_fields: fields }
}

fn entity_ref(name: &str) -> TypeId {
    TypeId::Entity { name: name.to_string(), version_id: "v1".to_string() }
}

fn person() -> ObjectType {
    let mut age = field("age", TypeId::Float);
    age.is_optional = true;
    entity("Person", vec![field("name", TypeId::String), age])
}

fn company() -> ObjectType {
    entity("Company", vec![field("name", TypeId::String), field("ceo", entity_ref("Person"))])
}

fn type_system(entities: Vec<ObjectType>) -> TypeSystem {
    let mut m = PrefixMap::new();
    for e in entities {
        m.insert(e.name.clone(), e);
    }
    let mut b = PrefixMap::new();
    b.insert(
        "AuthUser".to_string(),
        ObjectType {
            name: "AuthUser".to_string(),
            backing_table: "auth_user".to_string(),
            user_fields: vec![field("email", TypeId::String)],
        },
    );
    TypeSystem { entities: m, builtin: b }
}

#[test]
fn filter_of_a_field_value() {
    let e = to_expr(&obj(vec![("name", s("Al"))])).unwrap();
    let expected = bin(BinaryOp::And, t(), bin(BinaryOp::Eq, prop(&["name"]), lit(Value::String("Al".into()))));
    assert!(same(&e, &expected));
}

#[test]
fn filter_comparisons_are_joined() {
    let e = to_expr(&obj(vec![("age", obj(vec![("$gt", num(3)), ("$lte", num(10))]))])).unwrap();
    let age = || prop(&["age"]);
    let inner = bin(
        BinaryOp::And,
        bin(BinaryOp::And, t(), bin(BinaryOp::Gt, age(), lit(Value::I64(3)))),
        bin(BinaryOp::LtEq, age(), lit(Value::I64(10))),
    );
    assert!(same(&e, &bin(BinaryOp::And, t(), inner)));
}

#[test]
fn filter_logic_operators() {
    let e = to_expr(&obj(vec![("$or", Json::Array(vec![obj(vec![("a", num(1))]), obj(vec![("b", num(2))])]))])).unwrap();
    let a = bin(BinaryOp::And, t(), bin(BinaryOp::Eq, prop(&["a"]), lit(Value::I64(1))));
    let b = bin(BinaryOp::And, t(), bin(BinaryOp::Eq, prop(&["b"]), lit(Value::I64(2))));
    let or = bin(BinaryOp::Or, bin(BinaryOp::Or, lit(Value::Bool(false)), a), b);
    assert!(same(&e, &bin(BinaryOp::And, t(), or)));

    let e = to_expr(&obj(vec![("$and", Json::Array(vec![]))])).unwrap();
    assert!(same(&e, &bin(BinaryOp::And, t(), t())));

    let e = to_expr(&obj(vec![("$not", obj(vec![("a", Json::Null)]))])).unwrap();
    let not = Expr::Not(Box::new(bin(BinaryOp::And, t(), bin(BinaryOp::Eq, prop(&["a"]), lit(Value::Null)))));
    assert!(same(&e, &bin(BinaryOp::And, t(), not)));
}

#[test]
fn filter_of_nested_fields() {
    let e = to_expr(&obj(vec![("ceo", obj(vec![("name", s("Bob"))]))])).unwrap();
    let inner = bin(BinaryOp::And, t(), bin(BinaryOp::Eq, prop(&["ceo", "name"]), lit(Value::String("Bob".into()))));
    assert!(same(&e, &bin(BinaryOp::And, t(), inner)));
    assert!(same(&to_expr(&obj(vec![])).unwrap(), &t()));
}

#[test]
fn filter_errors() {
    assert!(to_expr(&s("x")).is_err());
    assert_eq!(to_expr(&obj(vec![("$foo", num(1))])).unwrap_err(), "found an unknown filter operator '\"$foo\"'");
    assert_eq!(
        to_expr(&obj(vec![("a", obj(vec![("$in", num(1))]))])).unwrap_err(),
        "encountered unknown comparison operator '\"$in\"'"
    );
    assert_eq!(
        to_expr(&obj(vec![("$and", num(1))])).unwrap_err(),
        "operator $and must be used with an array, but got different type"
    );
    assert!(to_expr(&obj(vec![("a", Json::Array(vec![]))])).is_err());
    let mut deep = obj(vec![("a", num(1))]);
    for _ in 0..101 {
        deep = obj(vec![("$not", deep)]);
    }
    assert_eq!(to_expr(&deep).unwrap_err(), "reached maximum expression filter recursion depth of 100");
    let mut deep_field = num(1);
    for _ in 0..102 {
        deep_field = obj(vec![("x", deep_field)]);
    }
    assert_eq!(to_expr(&deep_field).unwrap_err(), "reached maximum field filter recursion depth of 100");
}

#[test]
fn filter_literals() {
    assert!(matches!(json_to_literal(&num(u64::MAX)).unwrap(), Value::U64(u64::MAX)));
    assert!(matches!(json_to_literal(&num(7)).unwrap(), Value::I64(7)));
    assert!(matches!(json_to_literal(&Json::Number(JsonNumber::NegInt(-2))).unwrap(), Value::I64(-2)));
    match json_to_literal(&Json::Number(JsonNumber::Float("1.5".into()))).unwrap() {
        Value::F64(t) => assert_eq!(t, "1.5"),
        other => panic!("unexpected {:?}", other),
    }
    assert!(json_to_literal(&obj(vec![])).is_err());
}

#[test]
fn json_members() {
    let m = members(vec![("a", num(1)), ("b", num(2)), ("a", num(3))]);
    assert!(matches!(get_member(&m, "a"), Some(Json::Number(JsonNumber::PosInt(1)))));
    assert!(get_member(&m, "c").is_none());
}

#[test]
fn insert_statement_text() {
    let o = members(vec![("id", s(U1)), ("name", s("Al")), ("age", num(3))]);
    assert_eq!(
        make_insert_query(&person(), &o).unwrap(),
        "INSERT INTO \"ty_Person\" (\"id\",\"name\",\"age\") VALUES ($1,$2,$3) ON CONFLICT (id) DO UPDATE SET \"id\" = $1,\"name\" = $2,\"age\" = $3 WHERE \"ty_Person\".\"id\" = $1"
    );
    let absent = members(vec![("id", s(U1)), ("name", s("Al"))]);
    assert_eq!(
        make_insert_query(&person(), &absent).unwrap(),
        "INSERT INTO \"ty_Person\" (\"id\",\"name\") VALUES ($1,$2) ON CONFLICT (id) DO UPDATE SET \"id\" = $1,\"name\" = $2 WHERE \"ty_Person\".\"id\" = $1"
    );
    let null = members(vec![("id", s(U1)), ("name", s("Al")), ("age", Json::Null)]);
    assert_eq!(
        make_insert_query(&person(), &null).unwrap(),
        "INSERT INTO \"ty_Person\" (\"id\",\"name\",\"age\") VALUES ($1,$2,NULL) ON CONFLICT (id) DO UPDATE SET \"id\" = $1,\"name\" = $2,\"age\" = NULL WHERE \"ty_Person\".\"id\" = $1"
    );
}

#[test]
fn insert_statement_errors() {
    let extra = members(vec![("id", s(U1)), ("name", s("Al")), ("height", num(2))]);
    assert_eq!(make_insert_query(&person(), &extra).unwrap_err(), "field height not present in Person");
    let bad = members(vec![("id", s("abc")), ("name", s("Al"))]);
    assert_eq!(make_insert_query(&person(), &bad).unwrap_err(), "invalid ID 'abc'");
    let not_text = members(vec![("id", num(5)), ("name", s("Al"))]);
    assert_eq!(make_insert_query(&person(), &not_text).unwrap_err(), "invalid ID: It is not a string");
}

fn text_arg(a: &SqlValue) -> String {
    match a {
        SqlValue::String(t) => t.clone(),
        other => panic!("not text: {:?}", other),
    }
}

#[test]
fn arguments_convert_values_and_defaults() {
    let o = members(vec![("name", s("Al")), ("age", Json::Number(JsonNumber::NegInt(-4))), ("ok", Json::Bool(true))]);
    assert_eq!(text_arg(&convert_to_argument(&field("name", TypeId::String), &o).unwrap()), "Al");
    assert!(matches!(convert_to_argument(&field("age", TypeId::Float), &o).unwrap(), SqlValue::F64(t) if t == "-4"));
    assert!(matches!(convert_to_argument(&field("ok", TypeId::Boolean), &o).unwrap(), SqlValue::Bool(true)));
    assert!(convert_to_argument(&field("name", TypeId::Float), &o).is_err());

    let mut f = field("score", TypeId::Float);
    f.default = Some("2.5".to_string());
    assert!(matches!(convert_to_argument(&f, &o).unwrap(), SqlValue::F64(t) if t == "2.5"));
    f.default = Some("abc".to_string());
    assert_eq!(convert_to_argument(&f, &o).unwrap_err(), "failed to parse default value");
    let mut b = field("flag", TypeId::Boolean);
    b.default = Some("false".to_string());
    assert!(matches!(convert_to_argument(&b, &o).unwrap(), SqlValue::Bool(false)));
    assert_eq!(convert_to_argument(&field("missing", TypeId::String), &o).unwrap_err(), "failed to generate value");
    assert_eq!(text_arg(&convert_to_argument(&field("id", TypeId::Id), &o).unwrap()).len(), 36);
}

#[test]
fn shallow_insertion() {
    let o = members(vec![("id", s(U1)), ("name", s("Al"))]);
    let q = prepare_insertion_shallow(&person(), &o).unwrap();
    assert_eq!(q.args.len(), 2);
    assert_eq!(text_arg(&q.args[0]), U1);
    assert_eq!(text_arg(&q.args[1]), "Al");
    let wrong = members(vec![("id", s(U1)), ("name", num(3))]);
    assert_eq!(
        prepare_insertion_shallow(&person(), &wrong).unwrap_err(),
        "provided data for field `name` are incompatible with given type `Person`"
    );
}

#[test]
fn nested_objects_are_saved_first() {
    let ts = type_system(vec![person(), company()]);
    let o = members(vec![
        ("id", s(U1)),
        ("name", s("C")),
        ("ceo", obj(vec![("id", s(U2)), ("name", s("Bob")), ("age", num(40))])),
    ]);
    let (stmts, tree) = prepare_insertion(&company(), &o, &ts).unwrap();
    assert_eq!(stmts.len(), 2);
    assert!(stmts[0].sql.starts_with("INSERT INTO \"ty_Person\""));
    assert!(stmts[1].sql.starts_with("INSERT INTO \"ty_Company\" (\"id\",\"name\",\"ceo\")"));
    assert_eq!(stmts[1].args.iter().map(text_arg).collect::<Vec<_>>(), vec![U1.to_string(), "C".to_string(), U2.to_string()]);
    assert_eq!(tree.id, U1);
    assert_eq!(tree.children.len(), 1);
    assert_eq!(tree.children[0].0, "ceo");
    assert_eq!(tree.children[0].1.id, U2);
}

#[test]
fn fresh_ids_are_generated() {
    let ts = type_system(vec![person()]);
    let o = members(vec![("name", s("Al"))]);
    let (stmts, tree) = prepare_insertion(&person(), &o, &ts).unwrap();
    assert_eq!(tree.id.len(), 36);
    assert_eq!(text_arg(&stmts[0].args[0]), tree.id);
}

#[test]
fn auth_entities_are_referred_to() {
    let post = entity("Post", vec![field("owner", entity_ref("AuthUser"))]);
    let ts = type_system(vec![post.clone()]);
    let o = members(vec![("id", s(U1)), ("owner", obj(vec![("id", s("u9"))]))]);
    let (stmts, tree) = prepare_insertion(&post, &o, &ts).unwrap();
    assert_eq!(stmts.len(), 1);
    assert_eq!(text_arg(&stmts[0].args[1]), "u9");
    assert!(tree.children.is_empty());
    let no_id = members(vec![("id", s(U1)), ("owner", obj(vec![]))]);
    assert_eq!(prepare_insertion(&post, &no_id, &ts).unwrap_err(), "Cannot save into nested type AuthUser.");
    let not_object = members(vec![("id", s(U1)), ("owner", s("u9"))]);
    assert_eq!(
        prepare_insertion(&post, &not_object, &ts).unwrap_err(),
        "provided data for field `owner` are incompatible with given type `Post`"
    );
}

fn company_row() -> Vec<Cell> {
    vec![
        Cell::Text(U1.into()),
        Cell::Text("C".into()),
        Cell::Text(U2.into()),
        Cell::Text(U2.into()),
        Cell::Text("Bob".into()),
        Cell::Float("40".into()),
    ]
}

#[test]
fn rows_become_nested_objects() {
    let ts = type_system(vec![person(), company()]);
    let plan = QueryPlan::from_entity_name(&ts, &PolicySystem::new(), &None, "/c", "Company").unwrap();
    let kinds: Vec<Option<ReadKind>> = plan.columns.iter().map(|c| read_kind(&c.type_id, TargetDatabase::Postgres)).collect();
    assert_eq!(
        kinds,
        vec![
            Some(ReadKind::Text),
            Some(ReadKind::Text),
            Some(ReadKind::Text),
            Some(ReadKind::Text),
            Some(ReadKind::Text),
            Some(ReadKind::Float)
        ]
    );
    let o = row_to_json(&plan.entity, &company_row(), TargetDatabase::Postgres).unwrap();
    let expected = members(vec![
        ("id", s(U1)),
        ("name", s("C")),
        ("ceo", obj(vec![("id", s(U2)), ("name", s("Bob")), ("age", Json::Number(JsonNumber::Float("40".into())))])),
    ]);
    assert_eq!(format!("{:?}", o), format!("{:?}", expected));
    assert_eq!(id_idx(&plan.entity.fields), Some(0));

    let mut row = company_row();
    row[5] = Cell::Null;
    let o = row_to_json(&plan.entity, &row, TargetDatabase::Postgres).unwrap();
    match &o[2].1 {
        Json::Object(ceo) => assert_eq!(ceo.len(), 2),
        other => panic!("unexpected {:?}", other),
    }
    row[4] = Cell::Null;
    assert!(row_to_json(&plan.entity, &row, TargetDatabase::Postgres).is_err());
    let mut short = company_row();
    short.truncate(3);
    assert!(row_to_json(&plan.entity, &short, TargetDatabase::Postgres).is_err());
}

#[test]
fn optional_nested_entities_with_null_ids_are_left_out() {
    let mut ceo = field("ceo", entity_ref("Person"));
    ceo.is_optional = true;
    let company = entity("Company", vec![ceo]);
    let ts = type_system(vec![person(), company]);
    let plan = QueryPlan::from_entity_name(&ts, &PolicySystem::new(), &None, "/c", "Company").unwrap();
    let row = vec![Cell::Text(U1.into()), Cell::Null, Cell::Null, Cell::Null, Cell::Null];
    let o = row_to_json(&plan.entity, &row, TargetDatabase::Postgres).unwrap();
    assert_eq!(format!("{:?}", o), format!("{:?}", members(vec![("id", s(U1))])));
}

#[test]
fn booleans_read_as_text_on_sqlite() {
    let flag = entity("Flag", vec![field("on", TypeId::Boolean)]);
    assert_eq!(read_kind(&TypeId::Boolean, TargetDatabase::Sqlite), Some(ReadKind::Text));
    assert_eq!(read_kind(&TypeId::Boolean, TargetDatabase::Postgres), Some(ReadKind::Bool));
    let plan = QueryPlan::from_type(&flag);
    for (text, expected) in [("1", true), ("TRUE", true), ("True", true), ("0", false), ("false", false)] {
        let row = vec![Cell::Text(U1.into()), Cell::Text(text.into())];
        let o = row_to_json(&plan.entity, &row, TargetDatabase::Sqlite).unwrap();
        assert!(matches!(o[1].1, Json::Bool(b) if b == expected));
    }
    let row = vec![Cell::Text(U1.into()), Cell::Bool(true)];
    assert!(matches!(row_to_json(&plan.entity, &row, TargetDatabase::Postgres).unwrap()[1].1, Json::Bool(true)));
}

#[test]
fn policies_anonymize_and_projection_filters() {
    let mut name = field("name", TypeId::String);
    name.labels = vec!["pii".to_string()];
    let person = entity("Person", vec![name, field("city", TypeId::String)]);
    let ts = type_system(vec![person]);
    let mut ps = PolicySystem::new();
    ps.labels.insert(
        "pii".to_string(),
        Policy { kind: Kind::Transform(Transformation::Anonymize), except_uri: Pattern::new("^$").unwrap() },
    );
    let plan = QueryPlan::from_entity_name(&ts, &ps, &None, "/p", "Person").unwrap();
    let row = vec![Cell::Text(U1.into()), Cell::Text("Al".into()), Cell::Text("Rome".into())];
    let o = row_to_json(&plan.entity, &row, TargetDatabase::Postgres).unwrap();
    assert_eq!(format!("{:?}", o), format!("{:?}", members(vec![("id", s(U1)), ("name", s("xxxxx")), ("city", s("Rome"))])));
    let p = project(o, &Some(vec!["city".to_string()]));
    assert_eq!(format!("{:?}", p), format!("{:?}", members(vec![("city", s("Rome"))])));
    let all = project(members(vec![("a", num(1))]), &None);
    assert_eq!(all.len(), 1);
}

#[test]
fn schema_identifiers() {
    assert_eq!(ChiselVersion::Table.name(), "chisel_version");
    assert_eq!(ApiInfo::Table.name(), "api_info");
    assert_eq!(Types::BackingTable.name(), "backing_table");
    assert_eq!(Fields::IsOptional.name(), "is_optional");
    assert_eq!(FieldLabels::Table.name(), "field_labels");
    assert_eq!(Sessions::UserId.name(), "user_id");
}

#[test]
fn schema_migrations_run_in_order() {
    let mut v = "empty";
    let mut steps = vec![];
    while let Some((m, next)) = migration_step(v).unwrap() {
        steps.push(m);
        v = next;
    }
    assert_eq!(v, "0.13");
    assert_eq!(
        steps,
        vec![
            SchemaMigration::EmptyTo0,
            SchemaMigration::From0To0_7,
            SchemaMigration::From0_7To0_12,
            SchemaMigration::From0_12To0_13
        ]
    );
    assert_eq!(migration_step("0.5").unwrap_err(), "Don't know how to migrate from version \"0.5\"");
}

#[test]
fn insert_placeholders_match_arguments() {
    let ts = type_system(vec![person()]);
    let o = members(vec![("id", s(U1)), ("name", s("Al")), ("age", Json::Null)]);
    let (stmts, _) = prepare_insertion(&person(), &o, &ts).unwrap();
    assert!(stmts[0].sql.contains("VALUES ($1,$2,NULL)"));
    assert_eq!(stmts[0].args.len(), 2);
}

#[test]
fn projection_twice_is_projection_once() {
    let o = members(vec![("a", num(1)), ("b", num(2)), ("c", num(3))]);
    let allowed = Some(vec!["a".to_string(), "c".to_string()]);
    let once = project(o, &allowed);
    let once_text = format!("{:?}", once);
    let twice = project(once, &allowed);
    assert_eq!(format!("{:?}", twice), once_text);
    assert_eq!(twice.len(), 2);
}

#[test]
fn stores_go_to_entity_types_only() {
    let ts = type_system(vec![person()]);
    assert_eq!(store_target(&ts, "Person", "dev", "/p").unwrap().name, "Person");
    assert_eq!(store_target(&ts, "string", "dev", "/p").unwrap_err(), "Cannot save into type string");
    assert_eq!(store_target(&ts, "Ghost", "dev", "/p").unwrap_err(), "Cannot save into type Ghost");
    assert_eq!(store_target(&ts, "AuthUser", "dev", "/auth/x").unwrap_err(), "Cannot save into auth type AuthUser");
    assert_eq!(store_target(&ts, "AuthUser", "__chiselstrike", "/auth/callback").unwrap().name, "AuthUser");
}

#[test]
fn simplified_type_system_lists_each_entity_once() {
    let ts = type_system(vec![person(), company()]);
    let simple = simple_type_system(&ts);
    let names: Vec<&str> = simple.iter().map(|(n, _)| n.as_str()).collect();
    assert_eq!(names, vec!["Company", "Person", "AuthUser"]);
    assert_eq!(simple[1].1.fields.len(), 3);
    assert_eq!(simple[1].1.fields[0].name, "id");
}

#[test]
fn stored_field_names_and_index_fields() {
    assert_eq!(parse_db_field_name("dev.Person.name").unwrap(), ("dev".to_string(), "name".to_string()));
    assert_eq!(
        parse_db_field_name("name").unwrap_err(),
        "Expected version and type information as part of the field name. Got name. Database corrupted?"
    );
    assert!(parse_db_field_name("a.b.c.d").is_err());
    assert_eq!(index_fields("a;b;c"), vec!["a", "b", "c"]);
    assert_eq!(index_fields(""), vec![""]);
}

#[test]
fn full_rows_read_back_for_every_plan() {
    let team = entity(
        "Team",
        vec![field("lead", entity_ref("Person")), field("boss", entity_ref("Company")), field("open", TypeId::Boolean)],
    );
    let ts = type_system(vec![person(), company(), team]);
    for name in ["Person", "Company", "Team", "AuthUser"] {
        let plan = QueryPlan::from_entity_name(&ts, &PolicySystem::new(), &None, "/t", name).unwrap();
        let row: Vec<Cell> = plan
            .columns
            .iter()
            .map(|c| match &c.type_id {
                TypeId::Float => Cell::Float("1".into()),
                TypeId::Boolean => Cell::Bool(false),
                _ => Cell::Text(U1.into()),
            })
            .collect();
        let o = row_to_json(&plan.entity, &row, TargetDatabase::Postgres).unwrap();
        assert_eq!(o.len(), plan.entity.fields.len());
    }
}

#[test]
fn fresh_nested_ids_are_bound_by_their_parents() {
    let ts = type_system(vec![person(), company()]);
    let o = members(vec![("name", s("C")), ("ceo", obj(vec![("name", s("Bob"))]))]);
    let (stmts, tree) = prepare_insertion(&company(), &o, &ts).unwrap();
    assert_eq!(stmts.len(), 2);
    let ceo_id = &tree.children[0].1.id;
    assert_eq!(ceo_id.len(), 36);
    assert_eq!(&text_arg(&stmts[0].args[0]), ceo_id);
    assert_eq!(text_arg(&stmts[1].args[0]), tree.id);
    assert_eq!(&text_arg(&stmts[1].args[2]), ceo_id);
    assert_ne!(&tree.id, ceo_id);
}
