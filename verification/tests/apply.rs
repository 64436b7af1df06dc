use chisel_server::apply::{
    aggregate_indexes, check_removals, order_types_by, removed_types, resolve_new_types, sort_custom_types,
    AddTypeRequest, ContainerType, FieldDefinition, IndexCandidate, TypeEnum, TypeMsg,
};
use chisel_server::prefix_map::PrefixMap;
use chisel_server::types::{ObjectType, Type, TypeSystem};

fn ts_with_auth() -> TypeSystem {
    let mut builtin = PrefixMap::new();
    builtin.insert(
        "AuthUser".to_string(),
        ObjectType { name: "AuthUser".to_string(), backing_table: "auth_user".to_string(), user_fields: vec![] },
    );
    TypeSystem { entities: PrefixMap::new(), builtin }
}

fn field(name: &str, t: Option<TypeEnum>) -> FieldDefinition {
    FieldDefinition {
        name: name.to_string(),
        field_type: Some(TypeMsg { type_enum: t }),
        labels: vec!["pii".to_string()],
        default_value: None,
        is_optional: false,
        is_unique: false,
    }
}

fn def(name: &str, fields: Vec<FieldDefinition>) -> AddTypeRequest {
    AddTypeRequest { name: name.to_string(), field_defs: fields }
}

fn names(v: &[AddTypeRequest]) -> Vec<String> {
    v.iter().map(|t| t.name.clone()).collect()
}

#[test]
fn field_type_reports_what_is_missing() {
    let f = FieldDefinition {
        name: "x".to_string(),
        field_type: None,
        labels: vec![],
        default_value: None,
        is_optional: false,
        is_unique: false,
    };
    assert_eq!(f.field_type().unwrap_err(), "field_type of field 'x' is None");
    let f = field("y", None);
    assert_eq!(f.field_type().unwrap_err(), "type_enum of field 'y' is None");
    let c = ContainerType { value_type: None };
    assert_eq!(c.value_type().unwrap_err(), "value_type of ContainerType is None");
    let c = ContainerType { value_type: Some(Box::new(TypeMsg { type_enum: None })) };
    assert_eq!(c.value_type().unwrap_err(), "type_enum of value_type of ContainerType is None");
}

#[test]
fn builtin_types() {
    let ts = ts_with_auth();
    assert_eq!(TypeEnum::String(true).is_builtin(&ts), Ok(true));
    assert_eq!(TypeEnum::Entity("AuthUser".to_string()).is_builtin(&ts), Ok(true));
    assert_eq!(TypeEnum::Entity("Person".to_string()).is_builtin(&ts), Ok(false));
    assert_eq!(TypeEnum::EntityId("Person".to_string()).is_builtin(&ts), Ok(false));
    let arr = TypeEnum::Array(Box::new(ContainerType {
        value_type: Some(Box::new(TypeMsg { type_enum: Some(TypeEnum::Number(true)) })),
    }));
    assert_eq!(arr.is_builtin(&ts), Ok(true));
    let t = arr.get_builtin(&ts).unwrap();
    assert!(matches!(t, Type::Array(inner) if matches!(*inner, Type::Float)));
    assert!(matches!(TypeEnum::Entity("AuthUser".to_string()).get_builtin(&ts).unwrap(), Type::Entity(n) if n == "AuthUser"));
    assert!(matches!(TypeEnum::Bool(true).get_builtin(&ts).unwrap(), Type::Boolean));
    assert_eq!(TypeEnum::Entity("Nope".to_string()).get_builtin(&ts).unwrap_err(), "type `Nope` not found");
}

#[test]
fn indexes_are_grouped_by_entity() {
    let c = |e: &str, f: &[&str]| IndexCandidate { entity_name: e.to_string(), properties: f.iter().map(|s| s.to_string()).collect() };
    let groups = aggregate_indexes(&vec![c("A", &["x"]), c("B", &["y", "z"]), c("A", &["w"])]);
    assert_eq!(groups.len(), 2);
    assert_eq!(groups[0].0, "A");
    let a: Vec<Vec<String>> = groups[0].1.iter().map(|i| i.fields.clone()).collect();
    assert_eq!(a, vec![vec!["x".to_string()], vec!["w".to_string()]]);
    assert!(groups[0].1.iter().all(|i| i.meta_id.is_none()));
    assert_eq!(groups[1].0, "B");
    assert_eq!(groups[1].1[0].fields, vec!["y".to_string(), "z".to_string()]);
}

#[test]
fn types_are_sorted_after_their_dependencies() {
    let ts = ts_with_auth();
    let types = vec![
        def("Company", vec![field("ceo", Some(TypeEnum::Entity("Person".to_string())))]),
        def("Person", vec![field("name", Some(TypeEnum::String(true))), field("user", Some(TypeEnum::Entity("AuthUser".to_string())))]),
        def("Blog", vec![field("owner", Some(TypeEnum::Entity("Company".to_string())))]),
    ];
    let sorted = sort_custom_types(&ts, types).unwrap();
    assert_eq!(names(&sorted), vec!["Person", "Company", "Blog"]);
}

#[test]
fn cycles_and_unknown_types_are_refused() {
    let ts = ts_with_auth();
    let cyclic = vec![
        def("A", vec![field("b", Some(TypeEnum::Entity("B".to_string())))]),
        def("B", vec![field("a", Some(TypeEnum::Entity("A".to_string())))]),
    ];
    assert_eq!(sort_custom_types(&ts, cyclic).unwrap_err(), "cycle detected in models");
    let unknown = vec![def("A", vec![field("b", Some(TypeEnum::Entity("Ghost".to_string())))])];
    assert_eq!(sort_custom_types(&ts, unknown).unwrap_err(), "unknown type Ghost");
    let broken = vec![def("A", vec![field("b", None)])];
    assert_eq!(sort_custom_types(&ts, broken).unwrap_err(), "type_enum of field 'b' is None");
}

#[test]
fn ordering_by_given_order() {
    let types = vec![def("A", vec![]), def("B", vec![])];
    let v = order_types_by(types, Some(vec!["B".to_string(), "A".to_string()])).unwrap();
    assert_eq!(names(&v), vec!["B", "A"]);
    let types = vec![def("A", vec![])];
    assert_eq!(order_types_by(types, None).unwrap_err(), "cycle detected in models");
}

#[test]
fn new_types_resolve_field_types() {
    let ts = ts_with_auth();
    let defs = vec![
        def("Person", vec![field("name", Some(TypeEnum::String(true))), field("user", Some(TypeEnum::Entity("AuthUser".to_string())))]),
        def("Company", vec![field("ceo", Some(TypeEnum::Entity("Person".to_string()))), field("parent", Some(TypeEnum::EntityId("Company".to_string())))]),
    ];
    let groups = aggregate_indexes(&vec![IndexCandidate { entity_name: "Person".to_string(), properties: vec!["name".to_string()] }]);
    let v = resolve_new_types(&ts, &defs, &groups).unwrap();
    assert_eq!(v.len(), 2);
    assert_eq!(v[0].name, "Person");
    assert!(matches!(v[0].fields[0].ty, Type::String));
    assert!(matches!(&v[0].fields[1].ty, Type::Entity(n) if n == "AuthUser"));
    assert_eq!(v[0].fields[0].labels, vec!["pii".to_string()]);
    assert_eq!(v[0].indexes.len(), 1);
    assert!(matches!(&v[1].fields[0].ty, Type::Entity(n) if n == "Person"));
    assert!(matches!(&v[1].fields[1].ty, Type::EntityId(n) if n == "Company"));
    assert_eq!(v[1].indexes.len(), 0);
}

#[test]
fn new_types_errors() {
    let ts = ts_with_auth();
    let e = resolve_new_types(&ts, &vec![def("AuthUser", vec![])], &vec![]).unwrap_err();
    assert_eq!(e, "custom type expected, got `AuthUser` instead");
    let e = resolve_new_types(&ts, &vec![def("A", vec![field("b", Some(TypeEnum::Entity("B".to_string())))])], &vec![]).unwrap_err();
    assert_eq!(e, "field type `B` is neither a built-in nor a custom type");
    let e = resolve_new_types(&ts, &vec![def("A", vec![field("b", Some(TypeEnum::EntityId("B".to_string())))])], &vec![]).unwrap_err();
    assert_eq!(e, "field `b` of entity `A` is of type `Id<B>`, but entity `B` is undefined");
    let arr_of_entity = TypeEnum::Array(Box::new(ContainerType {
        value_type: Some(Box::new(TypeMsg { type_enum: Some(TypeEnum::Entity("A".to_string())) })),
    }));
    let e = resolve_new_types(&ts, &vec![def("A", vec![]), def("B", vec![field("xs", Some(arr_of_entity))])], &vec![]).unwrap_err();
    assert_eq!(e, "field type must either be entity, entity id or be a builtin");
}

#[test]
fn removals() {
    let existing = vec!["A".to_string(), "B".to_string(), "C".to_string()];
    let defined = vec!["B".to_string()];
    assert_eq!(removed_types(&existing, &defined), vec!["A".to_string(), "C".to_string()]);

    let rows = vec![("A".to_string(), 3u64), ("C".to_string(), 0u64)];
    let e = check_removals(&rows, false).unwrap_err();
    assert_eq!(
        e,
        "Trying to remove models from the models file, but the following models still have data:\n\t\n\tA (3 elements)\n\nTo proceed, try:\n\n'npx chisel apply --allow-type-deletion' (if installed from npm)\n\nor\n\n'chisel apply --allow-type-deletion' (otherwise)"
    );
    assert_eq!(check_removals(&rows, true).unwrap(), vec!["C".to_string(), "A".to_string()]);
    assert_eq!(check_removals(&vec![("C".to_string(), 0)], false).unwrap(), vec!["C".to_string()]);
}

#[test]
fn a_type_that_refers_to_itself_is_a_cycle() {
    let ts = ts_with_auth();
    let selfish = vec![def("Node", vec![field("next", Some(TypeEnum::Entity("Node".to_string())))])];
    assert_eq!(sort_custom_types(&ts, selfish).unwrap_err(), "cycle detected in models");
}
