use chisel_server::crud::{
    convert_operator, delete_filter_from_url_query, ensure_sort_by_id, filter_from_param, make_page_url,
    parse_bool, parse_sort, parse_u64, Cursor, CursorAxis, JsonValue, Query, order_results, get_page,
};
use chisel_server::expr::{BinaryExpr, BinaryOp, Expr, PropertyAccess, Value};
use chisel_server::prefix_map::PrefixMap;
use chisel_server::query::{SortBy, SortKey};
use chisel_server::types::{Field, ObjectType, TypeId, TypeSystem};

fn make_field(name: &str, type_id: TypeId) -> Field {
    Field {
        name: name.to_string(),
        type_id,
        labels: vec![],
        default: None,
        is_optional: false,
        is_unique: false,
    }
}

fn make_entity(name: &str, fields: Vec<Field>) -> ObjectType {
    ObjectType { name: name.to_string(), backing_table: format!("ty_{}", name), user_fields: fields }
}

fn person() -> ObjectType {
    make_entity("Person", vec![make_field("name", TypeId::String), make_field("age", TypeId::Float)])
}

fn entity_ref(name: &str) -> TypeId {
    TypeId::Entity { name: name.to_string(), version_id: "version_1".to_string() }
}

fn company() -> ObjectType {
    make_entity("Company", vec![make_field("name", TypeId::String), make_field("ceo", entity_ref("Person"))])
}

fn type_system(entities: Vec<ObjectType>) -> TypeSystem {
    let mut m = PrefixMap::new();
    for e in entities {
        m.insert(e.name.clone(), e);
    }
    TypeSystem { entities: m, builtin: PrefixMap::new() }
}

fn binary(fields: &[&str], op: BinaryOp, value: Value) -> Expr {
    let mut chain = Expr::Parameter { position: 0 };
    for f in fields {
        chain = Expr::Property(PropertyAccess { property: f.to_string(), object: Box::new(chain) });
    }
    Expr::Binary(BinaryExpr::new(op, chain, Expr::Value { value }))
}

fn pairs(query: &str) -> Vec<(String, String)> {
    form_urlencoded::parse(query.as_bytes()).into_owned().collect()
}

fn same(a: &Expr, b: &Expr) -> bool {
    format!("{:?}", a) == format!("{:?}", b)
}

#[test]
fn test_parse_filter() {
    let person_type = person();
    let base_type = make_entity(
        "Company",
        vec![
            make_field("name", TypeId::String),
            make_field("traded", TypeId::Boolean),
            make_field("employee_count", TypeId::Float),
            make_field("ceo", entity_ref("Person")),
        ],
    );
    let ts = type_system(vec![person_type, base_type.clone()]);
    let filter_expr = |key: &str, value: &str| filter_from_param(&base_type, key, value, &ts).unwrap();
    let ops = [
        (BinaryOp::Eq, ""),
        (BinaryOp::NotEq, "~ne"),
        (BinaryOp::Lt, "~lt"),
        (BinaryOp::LtEq, "~lte"),
        (BinaryOp::Gt, "~gt"),
        (BinaryOp::GtEq, "~gte"),
    ];
    for (op, op_str) in &ops {
        let key = &format!("employee_count{}", op_str);
        assert!(
            same(&filter_expr(key, "10"), &binary(&["employee_count"], *op, Value::F64("10".to_string()))),
            "unexpected filter for filter key '{}'",
            key
        );
    }
    for (op, op_str) in &ops {
        let key = &format!("traded{}", op_str);
        assert!(
            same(&filter_expr(key, "true"), &binary(&["traded"], *op, Value::Bool(true))),
            "unexpected filter for filter key '{}'",
            key
        );
    }
    for (op, op_str) in ops {
        let key = &format!("name{}", op_str);
        assert!(
            same(
                &filter_expr(key, "YourNameHere inc."),
                &binary(&["name"], op, Value::String("YourNameHere inc.".to_string()))
            ),
            "unexpected filter for filter key '{}'",
            key
        );
    }
    assert!(same(
        &filter_expr("ceo.name~ne", "Rudolf"),
        &binary(&["ceo", "name"], BinaryOp::NotEq, Value::String("Rudolf".to_string())),
    ));
}

#[test]
fn test_make_page_url() {
    fn check(url_path: &str, url_query: &str, cursor: &str, expected: &str) {
        let url_query = pairs(url_query);
        let actual = make_page_url(url_path, &url_query, cursor);
        assert_eq!(actual.as_str(), expected);
    }

    check("/path", "", "abcd", "/path?cursor=abcd");
    check("/path", "really=no", "xyzw", "/path?really=no&cursor=xyzw");
    check("/path", "really=no&foo=bar", "xyzw", "/path?really=no&foo=bar&cursor=xyzw");
    check("/longer/url/path", "", "abcd", "/longer/url/path?cursor=abcd");
}

#[test]
fn test_query_str_to_ops_errors() {
    let ts = type_system(vec![person(), company()]);
    let run = |q: &str| Query::from_url_query(&person(), &pairs(q), &ts, None);

    assert!(run("limit=two").is_err());
    assert!(run("limit=true").is_err());

    assert!(run("offset=two").is_err());
    assert!(run("offset=true").is_err());

    assert!(run("sort=age1").is_err());
    assert!(run("sort=%2Bnotname").is_err());
    assert!(run("sort=-notname").is_err());
    assert!(run("sort=--age").is_err());
    assert!(run("sort=age aa").is_err());

    assert!(run(".agex=4").is_err());
    assert!(run("..age=4").is_err());
    assert!(run(".age=four").is_err());
    assert!(run(".age=true").is_err());
    assert!(run(".age~ltt=4").is_err());
    assert!(run(".age~neq~lt=4").is_err());
    assert!(run(".age.nothing=4").is_err());
    assert!(run(".=123").is_err());
}

#[test]
fn page_url_encodes_and_replaces_cursor_and_sort() {
    let q = pairs("sort=name&a+b=c%26d&cursor=old");
    assert_eq!(make_page_url("/p", &q, "x y/é"), "/p?a+b=c%26d&cursor=x+y%2F%C3%A9");
}

#[test]
fn query_parses_limits_offset_and_sort() {
    let ts = type_system(vec![person(), company()]);
    let q = Query::from_url_query(&person(), &pairs("limit=2&offset=1&sort=-age"), &ts, None).unwrap();
    assert_eq!(q.page_size, 2);
    assert_eq!(q.offset, Some(1));
    let keys: Vec<(String, bool)> = q.sort.keys.iter().map(|k| (k.field_name.clone(), k.ascending)).collect();
    assert_eq!(keys, vec![("age".to_string(), false), ("id".to_string(), true)]);
    assert!(q.cursor.is_none());
    assert_eq!(q.filters.len(), 0);

    let q = Query::from_url_query(&person(), &pairs("page_size=5&.age~lt=29&.name~like=%25n"), &ts, None).unwrap();
    assert_eq!(q.page_size, 5);
    assert_eq!(q.filters.len(), 2);
    assert!(same(&q.filters[0], &binary(&["age"], BinaryOp::Lt, Value::F64("29".to_string()))));
    assert!(same(&q.filters[1], &binary(&["name"], BinaryOp::Like, Value::String("%n".to_string()))));
}

#[test]
fn query_defaults() {
    let q = Query::new();
    assert_eq!(q.page_size, 1000);
    assert_eq!(q.offset, None);
    assert_eq!(q.sort.keys.len(), 1);
    assert_eq!(q.sort.keys[0].field_name, "id");
    assert!(q.sort.keys[0].ascending);
}

#[test]
fn query_ops_order() {
    let ts = type_system(vec![person()]);
    let q = Query::from_url_query(&person(), &pairs("offset=3&.name=Alan"), &ts, None).unwrap();
    let ops = q.make_query_ops().unwrap();
    assert_eq!(ops.len(), 4);
    assert!(matches!(ops[0], chisel_server::query::QueryOp::SortBy(_)));
    assert!(matches!(ops[1], chisel_server::query::QueryOp::Filter { .. }));
    assert!(matches!(ops[2], chisel_server::query::QueryOp::Skip { count: 3 }));
    assert!(matches!(ops[3], chisel_server::query::QueryOp::Take { count: 1000 }));
}

#[test]
fn operators_convert() {
    assert_eq!(convert_operator(None).unwrap(), BinaryOp::Eq);
    assert_eq!(convert_operator(Some("ne")).unwrap(), BinaryOp::NotEq);
    assert_eq!(convert_operator(Some("lte")).unwrap(), BinaryOp::LtEq);
    assert_eq!(convert_operator(Some("unlike")).unwrap(), BinaryOp::NotLike);
    assert!(convert_operator(Some("ltt")).is_err());
}

#[test]
fn sort_parsing() {
    let p = person();
    let s = parse_sort(&p, "-age").unwrap();
    assert_eq!(s.keys.len(), 1);
    assert_eq!(s.keys[0].field_name, "age");
    assert!(!s.keys[0].ascending);
    let s = parse_sort(&p, "+name").unwrap();
    assert!(s.keys[0].ascending);
    let s = parse_sort(&p, "name").unwrap();
    assert!(s.keys[0].ascending);
    assert!(parse_sort(&p, "--age").is_err());
    assert!(parse_sort(&p, "height").is_err());
}

#[test]
fn sort_by_id_is_added_once() {
    let mut s = SortBy { keys: vec![SortKey { field_name: "name".to_string(), ascending: false }] };
    ensure_sort_by_id(&mut s);
    assert_eq!(s.keys.len(), 2);
    assert_eq!(s.keys[1].field_name, "id");
    assert!(s.keys[1].ascending);
    ensure_sort_by_id(&mut s);
    assert_eq!(s.keys.len(), 2);
}

#[test]
fn scalar_parsers() {
    assert_eq!(parse_bool("true"), Some(true));
    assert_eq!(parse_bool("false"), Some(false));
    assert_eq!(parse_bool("True"), None);
    assert_eq!(parse_u64("18446744073709551615"), Some(u64::MAX));
    assert_eq!(parse_u64("18446744073709551616"), None);
    assert_eq!(parse_u64("+7"), Some(7));
    assert_eq!(parse_u64(""), None);
}

#[test]
fn delete_needs_a_filter_or_all() {
    let ts = type_system(vec![person(), company()]);
    let e = delete_filter_from_url_query(&ts, "Person", &pairs("")).unwrap_err();
    assert_eq!(e, "crud delete requires a filter to be set or `all=true` parameter.");
    assert!(delete_filter_from_url_query(&ts, "Person", &pairs("all=true")).unwrap().is_none());
    let f = delete_filter_from_url_query(&ts, "Person", &pairs(".name=John")).unwrap().unwrap();
    assert!(same(&f, &binary(&["name"], BinaryOp::Eq, Value::String("John".to_string()))));
    let f = delete_filter_from_url_query(&ts, "Company", &pairs(".ceo.name=John")).unwrap().unwrap();
    assert!(same(&f, &binary(&["ceo", "name"], BinaryOp::Eq, Value::String("John".to_string()))));
    let e = delete_filter_from_url_query(&ts, "Nobody", &pairs("all=true")).unwrap_err();
    assert_eq!(e, "Cannot delete from type `Nobody`, type not found");
    let e = delete_filter_from_url_query(&ts, "string", &pairs("all=true")).unwrap_err();
    assert_eq!(e, "Cannot delete scalar type string (string)");
}

fn axis(name: &str, asc: bool, v: JsonValue) -> CursorAxis {
    CursorAxis { key: SortKey { field_name: name.to_string(), ascending: asc }, value: v }
}

#[test]
fn cursor_reversed_twice_is_the_same() {
    let c = Cursor::new(vec![axis("name", true, JsonValue::String("Alan".to_string()))], true);
    let r = c.reversed();
    assert_eq!(r.forward, !c.forward);
    assert_eq!(r.inclusive, !c.inclusive);
    let rr = r.reversed();
    assert_eq!(rr.forward, c.forward);
    assert_eq!(rr.inclusive, c.inclusive);
    assert_eq!(rr.axes.len(), 1);
    assert_eq!(rr.axes[0].key.field_name, "name");
}

#[test]
fn cursor_sort_follows_direction() {
    let c = Cursor::new(vec![axis("age", false, JsonValue::Number("20".to_string())), axis("id", true, JsonValue::String("x".to_string()))], false);
    let s = c.get_sort();
    let keys: Vec<(String, bool)> = s.keys.iter().map(|k| (k.field_name.clone(), k.ascending)).collect();
    assert_eq!(keys, vec![("age".to_string(), true), ("id".to_string(), false)]);
}

#[test]
fn backwards_pages_are_reversed() {
    let mut q = Query::new();
    assert_eq!(order_results(&q, vec![1, 2, 3]), vec![1, 2, 3]);
    q.cursor = Some(Cursor::new(vec![axis("id", true, JsonValue::String("b".to_string()))], false));
    assert_eq!(order_results(&q, vec![1, 2, 3]), vec![3, 2, 1]);
}

#[test]
fn next_page_pivots_on_last_result() {
    let q = Query::new();
    let results = vec![
        vec![("id".to_string(), JsonValue::String("a".to_string()))],
        vec![("id".to_string(), JsonValue::String("b".to_string()))],
    ];
    let next = get_page(&q, &results, true).unwrap();
    assert!(next.forward);
    assert!(!next.inclusive);
    assert_eq!(next.axes.len(), 1);
    assert!(matches!(&next.axes[0].value, JsonValue::String(s) if s == "b"));
    let prev = get_page(&q, &results, false).unwrap();
    assert!(matches!(&prev.axes[0].value, JsonValue::String(s) if s == "a"));
    assert!(get_page(&q, &vec![], true).is_none());
}
