use chisel_server::crud::{plan_crud_query, QueryParams};
use chisel_server::crud::delete_from_url_query;
use chisel_server::expr::{BinaryExpr, BinaryOp, Expr, PropertyAccess, Value};
use chisel_server::pattern::Pattern;
use chisel_server::plan::{Mutation, QueryPlan};
use chisel_server::policies::{Kind, Policy, PolicySystem};
use chisel_server::prefix_map::PrefixMap;
use chisel_server::query::{QueryOp, QueryOpChain, SortBy, SortKey, TargetDatabase};
use chisel_server::types::{Field, ObjectType, TypeId, TypeSystem};

fn field(name: &str, type_id: TypeId) -> Field {
    Field { name: name.to_string(), type_id, labels: vec![], default: None, is_optional: false, is_unique: false }
}

fn entity(name: &str, fields: Vec<Field>) -> ObjectType {
    ObjectType { name: name.to_string(), backing_table: format!("ty_{}", name), user_fields: fields }
}

fn entity_ref(name: &str) -> TypeId {
    TypeId::Entity { name: name.to_string(), version_id: "version_1".to_string() }
}

fn person() -> ObjectType {
    entity("Person", vec![field("name", TypeId::String), field("age", TypeId::Float)])
}

fn company() -> ObjectType {
    entity("Company", vec![field("name", TypeId::String), field("ceo", entity_ref("Person"))])
}

fn auth_user() -> ObjectType {
    ObjectType {
        name: "AuthUser".to_string(),
        backing_table: "auth_user".to_string(),
        user_fields: vec![field("email", TypeId::String)],
    }
}

fn type_system(entities: Vec<ObjectType>) -> TypeSystem {
    let mut m = PrefixMap::new();
    for e in entities {
        m.insert(e.name.clone(), e);
    }
    let mut b = PrefixMap::new();
    b.insert("AuthUser".to_string(), auth_user());
    TypeSystem { entities: m, builtin: b }
}

fn chain(fields: &[&str]) -> Expr {
    let mut c = Expr::Parameter { position: 0 };
    for f in fields {
        c = Expr::Property(PropertyAccess { property: f.to_string(), object: Box::new(c) });
    }
    c
}

fn eq(fields: &[&str], value: Value) -> Expr {
    Expr::Binary(BinaryExpr::new(BinaryOp::Eq, chain(fields), Expr::Value { value }))
}

const PERSON_CORE: &str = "SELECT \"ty_Person\".\"id\" AS \"ty_Person_id\",\"ty_Person\".\"name\" AS \"ty_Person_name\",\"ty_Person\".\"age\" AS \"ty_Person_age\" FROM \"ty_Person\" ";

fn company_core() -> String {
    let j = "JOIN0_Person_TO_Person";
    format!(
        "SELECT \"ty_Company\".\"id\" AS \"ty_Company_id\",\"ty_Company\".\"name\" AS \"ty_Company_name\",\"ty_Company\".\"ceo\" AS \"ty_Company_ceo\",\"{j}\".\"id\" AS \"{j}_id\",\"{j}\".\"name\" AS \"{j}_name\",\"{j}\".\"age\" AS \"{j}_age\" FROM \"ty_Company\" LEFT JOIN \"ty_Person\" AS \"{j}\" ON \"ty_Company\".\"ceo\"=\"{j}\".\"id\"\n"
    )
}

#[test]
fn plan_of_a_type_selects_its_columns() {
    let plan = QueryPlan::from_type(&person());
    assert_eq!(plan.make_raw_query(TargetDatabase::Postgres).unwrap(), PERSON_CORE);
    assert_eq!(plan.make_raw_query(TargetDatabase::Sqlite).unwrap(), PERSON_CORE);
}

#[test]
fn plan_of_a_type_reads_entity_fields_as_keys() {
    let plan = QueryPlan::from_type(&company());
    assert_eq!(
        plan.make_raw_query(TargetDatabase::Postgres).unwrap(),
        "SELECT \"ty_Company\".\"id\" AS \"ty_Company_id\",\"ty_Company\".\"name\" AS \"ty_Company_name\",\"ty_Company\".\"ceo\" AS \"ty_Company_ceo\" FROM \"ty_Company\" "
    );
}

#[test]
fn nested_entities_are_joined() {
    let ts = type_system(vec![person(), company()]);
    let ps = PolicySystem::new();
    let plan = QueryPlan::from_entity_name(&ts, &ps, &None, "/dev/companies", "Company").unwrap();
    assert_eq!(plan.make_raw_query(TargetDatabase::Postgres).unwrap(), company_core());
    assert!(plan.operators.is_empty());
    assert!(plan.allowed_fields.is_none());
}

#[test]
fn operators_wrap_the_core_select() {
    let ts = type_system(vec![person(), company()]);
    let ps = PolicySystem::new();
    let ops = vec![
        QueryOp::Filter { expression: eq(&["ceo", "name"], Value::String("Bob".to_string())) },
        QueryOp::SortBy(SortBy { keys: vec![SortKey { field_name: "name".to_string(), ascending: false }] }),
        QueryOp::Take { count: 5 },
        QueryOp::Skip { count: 2 },
    ];
    let plan = QueryPlan::from_ops(&ts, &ps, &None, "/dev/companies", &company(), ops).unwrap();
    let first = format!(
        "SELECT * FROM ({}) AS subquery WHERE (\"JOIN0_Person_TO_Person_name\" = 'Bob') ORDER BY \"ty_Company_name\" DESC LIMIT 5 ",
        company_core()
    );
    assert_eq!(
        plan.make_raw_query(TargetDatabase::Postgres).unwrap(),
        format!("SELECT * FROM ({}) AS subquery    OFFSET 2", first)
    );
    assert_eq!(
        plan.make_raw_query(TargetDatabase::Sqlite).unwrap(),
        format!("SELECT * FROM ({}) AS subquery   LIMIT 2,-1", first)
    );
}

#[test]
fn filters_of_a_group_are_joined_with_and() {
    let ts = type_system(vec![person()]);
    let ps = PolicySystem::new();
    let not_old = Expr::Not(Box::new(Expr::Binary(BinaryExpr::new(
        BinaryOp::Gt,
        chain(&["age"]),
        Expr::Value { value: Value::U64(60) },
    ))));
    let ops = vec![
        QueryOp::Filter { expression: eq(&["name"], Value::String("O'Neil".to_string())) },
        QueryOp::Filter { expression: not_old },
    ];
    let plan = QueryPlan::from_ops(&ts, &ps, &None, "/p", &person(), ops).unwrap();
    assert_eq!(
        plan.make_raw_query(TargetDatabase::Postgres).unwrap(),
        format!(
            "SELECT * FROM ({}) AS subquery WHERE ((\"ty_Person_name\" = 'O''Neil') AND NOT ((\"ty_Person_age\" > 60)))   ",
            PERSON_CORE
        )
    );
}

#[test]
fn bad_filters_and_sorts_are_refused() {
    let ts = type_system(vec![person()]);
    let ps = PolicySystem::new();
    let unknown_field = vec![QueryOp::Filter { expression: eq(&["height"], Value::U64(1)) }];
    let plan = QueryPlan::from_ops(&ts, &ps, &None, "/p", &person(), unknown_field).unwrap();
    assert!(plan.make_raw_query(TargetDatabase::Postgres).is_err());
    let standalone = vec![QueryOp::Filter { expression: Expr::Parameter { position: 0 } }];
    let plan = QueryPlan::from_ops(&ts, &ps, &None, "/p", &person(), standalone).unwrap();
    assert!(plan.make_raw_query(TargetDatabase::Postgres).is_err());
    let bad_sort = vec![QueryOp::SortBy(SortBy { keys: vec![SortKey { field_name: "height".to_string(), ascending: true }] })];
    let plan = QueryPlan::from_ops(&ts, &ps, &None, "/p", &person(), bad_sort).unwrap();
    assert!(plan.make_raw_query(TargetDatabase::Postgres).is_err());
}

#[test]
fn unknown_entities_are_refused() {
    let ts = type_system(vec![person()]);
    let ps = PolicySystem::new();
    let e = QueryPlan::from_entity_name(&ts, &ps, &None, "/p", "Ghost").unwrap_err();
    assert_eq!(e, "unable to construct QueryPlan from an unknown entity name `Ghost`");
    let dangling = entity("Team", vec![field("lead", entity_ref("Nobody"))]);
    assert!(QueryPlan::from_ops(&ts, &ps, &None, "/p", &dangling, vec![]).is_err());
}

#[test]
fn op_chains_become_operators_and_projection() {
    let ts = type_system(vec![person()]);
    let ps = PolicySystem::new();
    let op_chain = QueryOpChain::Take {
        count: 3,
        inner: Box::new(QueryOpChain::Projection {
            fields: vec!["name".to_string()],
            inner: Box::new(QueryOpChain::BaseEntity { name: "Person".to_string() }),
        }),
    };
    let plan = QueryPlan::from_op_chain(&ts, &ps, &None, "/p", op_chain).unwrap();
    assert_eq!(plan.allowed_fields, Some(vec!["name".to_string()]));
    assert_eq!(plan.operators.len(), 1);
    assert_eq!(
        plan.make_raw_query(TargetDatabase::Postgres).unwrap(),
        format!("SELECT * FROM ({}) AS subquery   LIMIT 3 ", PERSON_CORE)
    );
    let query = plan.build_query(TargetDatabase::Postgres).unwrap();
    assert_eq!(query.allowed_fields, Some(vec!["name".to_string()]));
    assert_eq!(query.entity.table_alias, "ty_Person");
}

#[test]
fn login_policies_filter_by_the_user() {
    let mut owner = field("owner", entity_ref("AuthUser"));
    owner.labels = vec!["mine".to_string()];
    let post = entity("Post", vec![field("text", TypeId::String), owner]);
    let ts = type_system(vec![post.clone()]);
    let mut ps = PolicySystem::new();
    ps.labels.insert("mine".to_string(), Policy { kind: Kind::MatchLogin, except_uri: Pattern::new("^$").unwrap() });
    let plan = QueryPlan::from_entity_name(&ts, &ps, &Some("u1".to_string()), "/dev/posts", "Post").unwrap();
    assert_eq!(plan.operators.len(), 1);
    match &plan.operators[0] {
        QueryOp::Filter { expression } => {
            assert_eq!(format!("{:?}", expression), format!("{:?}", eq(&["owner"], Value::String("u1".to_string()))))
        },
        other => panic!("unexpected operator {:?}", other),
    }
    let sql = plan.make_raw_query(TargetDatabase::Postgres).unwrap();
    assert!(sql.ends_with(") AS subquery WHERE (\"ty_Post_owner\" = 'u1')   "));
    assert!(sql.contains("LEFT JOIN \"auth_user\" AS \"JOIN0_AuthUser_TO_AuthUser\" ON \"ty_Post\".\"owner\"=\"JOIN0_AuthUser_TO_AuthUser\".\"id\"\n"));

    let anonymous = QueryPlan::from_entity_name(&ts, &ps, &None, "/dev/posts", "Post").unwrap();
    let sql = anonymous.make_raw_query(TargetDatabase::Postgres).unwrap();
    assert!(sql.ends_with("WHERE (\"ty_Post_owner\" = 'NULL')   "));

    let no_policy = QueryPlan::from_entity_name(&ts, &PolicySystem::new(), &Some("u1".to_string()), "/dev/posts", "Post").unwrap();
    assert!(no_policy.operators.is_empty());
}

#[test]
fn login_policies_reach_nested_entities() {
    let mut owner = field("owner", entity_ref("AuthUser"));
    owner.labels = vec!["mine".to_string()];
    let post = entity("Post", vec![owner]);
    let comment = entity("Comment", vec![field("post", entity_ref("Post"))]);
    let ts = type_system(vec![post, comment]);
    let mut ps = PolicySystem::new();
    ps.labels.insert("mine".to_string(), Policy { kind: Kind::MatchLogin, except_uri: Pattern::new("^$").unwrap() });
    let plan = QueryPlan::from_entity_name(&ts, &ps, &Some("u2".to_string()), "/c", "Comment").unwrap();
    assert_eq!(plan.operators.len(), 1);
    match &plan.operators[0] {
        QueryOp::Filter { expression } => assert_eq!(
            format!("{:?}", expression),
            format!("{:?}", eq(&["post", "owner"], Value::String("u2".to_string())))
        ),
        other => panic!("unexpected operator {:?}", other),
    }
    let sql = plan.make_raw_query(TargetDatabase::Postgres).unwrap();
    assert!(sql.ends_with("WHERE (\"JOIN0_Post_TO_Post_owner\" = 'u2')   "));
}

#[test]
fn delete_mutation_sql() {
    let ts = type_system(vec![person()]);
    let ps = PolicySystem::new();
    let filter = Some(eq(&["name"], Value::String("Al".to_string())));
    let m = Mutation::delete_from_expr(&ts, &ps, &None, "/p", "Person", &filter).unwrap();
    let select = format!("SELECT * FROM ({}) AS subquery WHERE (\"ty_Person_name\" = 'Al')   ", PERSON_CORE);
    assert_eq!(
        m.build_sql(TargetDatabase::Postgres).unwrap(),
        format!(
            "DELETE FROM \"ty_Person\"\n                WHERE \"id\" IN (\n                    SELECT \"ty_Person_id\" FROM ({}) as subquery\n                )",
            select
        )
    );
    let all = Mutation::delete_from_expr(&ts, &ps, &None, "/p", "Person", &None).unwrap();
    assert!(all.build_sql(TargetDatabase::Sqlite).unwrap().contains(&format!("FROM ({}) as subquery", PERSON_CORE)));
}

#[test]
fn delete_mutation_errors() {
    let ts = type_system(vec![person()]);
    let ps = PolicySystem::new();
    let e = Mutation::delete_from_expr(&ts, &ps, &None, "/p", "Ghost", &None).unwrap_err();
    assert_eq!(e, "Cannot delete from type `Ghost`, type not found");
    assert!(Mutation::delete_from_expr(&ts, &ps, &None, "/p", "string", &None).is_err());
    let bad = Some(eq(&["height"], Value::U64(3)));
    let m = Mutation::delete_from_expr(&ts, &ps, &None, "/p", "Person", &bad).unwrap();
    assert!(m.build_sql(TargetDatabase::Postgres).is_err());
}

#[test]
fn crud_delete_plans_a_filtered_delete() {
    let ts = type_system(vec![person()]);
    let ps = PolicySystem::new();
    let q = vec![(".name".to_string(), "Al".to_string())];
    let m = delete_from_url_query(&ts, &ps, &None, "/p", "Person", &q).unwrap();
    let sql = m.build_sql(TargetDatabase::Postgres).unwrap();
    assert!(sql.starts_with("DELETE FROM \"ty_Person\""));
    assert!(sql.contains("WHERE (\"ty_Person_name\" = 'Al')"));
    assert_eq!(
        delete_from_url_query(&ts, &ps, &None, "/p", "Person", &vec![]).unwrap_err(),
        "crud delete requires a filter to be set or `all=true` parameter."
    );
    let all = vec![("all".to_string(), "true".to_string())];
    let m = delete_from_url_query(&ts, &ps, &None, "/p", "Person", &all).unwrap();
    assert!(m.filter_query_plan.operators.is_empty());
    assert_eq!(
        delete_from_url_query(&ts, &ps, &None, "/p", "Ghost", &all).unwrap_err(),
        "Cannot delete from type `Ghost`, type not found"
    );
}

#[test]
fn crud_reads_are_planned_by_page() {
    let ts = type_system(vec![person()]);
    let ps = PolicySystem::new();
    let params = QueryParams {
        ty_name: "Person".to_string(),
        url_path: "/dev/people".to_string(),
        url_query: vec![
            ("limit".to_string(), "2".to_string()),
            ("offset".to_string(), "4".to_string()),
            (".age~gt".to_string(), "3".to_string()),
        ],
    };
    let (query, plan) = plan_crud_query(&ts, &ps, &None, "/dev/people", &params, None).unwrap();
    assert_eq!(query.page_size, 2);
    assert_eq!(query.offset, Some(4));
    assert_eq!(plan.operators.len(), 4);
    assert!(matches!(plan.operators[0], QueryOp::SortBy(_)));
    assert!(matches!(plan.operators[1], QueryOp::Filter { .. }));
    assert!(matches!(plan.operators[2], QueryOp::Skip { count: 4 }));
    assert!(matches!(plan.operators[3], QueryOp::Take { count: 2 }));
    let sql = plan.make_raw_query(TargetDatabase::Postgres).unwrap();
    assert!(sql.ends_with("WHERE (\"ty_Person_age\" > 3) ORDER BY \"ty_Person_id\" ASC  OFFSET 4) AS subquery   LIMIT 2 "));
    let unknown = QueryParams { ty_name: "Ghost".to_string(), url_path: "/x".to_string(), url_query: vec![] };
    assert_eq!(
        plan_crud_query(&ts, &ps, &None, "/x", &unknown, None).unwrap_err(),
        "unexpected type name as crud query base type"
    );
}
