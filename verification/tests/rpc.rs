use chisel_server::apply::{TypeEnum, TypeMsg};
use chisel_server::pattern::Pattern;
use chisel_server::policies::{Kind, Policy, PolicySystem};
use chisel_server::prefix_map::PrefixMap;
use chisel_server::rpc::{describe, validate_version_id, Version};
use chisel_server::types::{Field, ObjectType, Type, TypeId, TypeSystem};

fn field(name: &str, type_id: TypeId) -> Field {
    Field { name: name.to_string(), type_id, labels: vec![], default: None, is_optional: false, is_unique: false }
}

fn entity(name: &str, fields: Vec<Field>) -> ObjectType {
    ObjectType { name: name.to_string(), backing_table: format!("ty_{}", name), user_fields: fields }
}

#[test]
fn type_messages() {
    assert!(matches!(TypeMsg::from(Type::Float).type_enum, Some(TypeEnum::Number(true))));
    assert!(matches!(TypeMsg::from(Type::Entity("Person".into())).type_enum, Some(TypeEnum::Entity(n)) if n == "Person"));
    match TypeMsg::from(Type::Array(Box::new(Type::Boolean))).type_enum {
        Some(TypeEnum::Array(c)) => {
            assert!(matches!(c.value_type.unwrap().type_enum, Some(TypeEnum::Bool(true))));
        }
        other => panic!("unexpected {:?}", other),
    }
}

#[test]
fn versions_are_described_in_name_order() {
    let mut ts_entities = PrefixMap::new();
    let mut labelled = field("ceo", TypeId::Entity { name: "Person".into(), version_id: "dev".into() });
    labelled.labels = vec!["pii".to_string()];
    labelled.default = Some("x".to_string());
    ts_entities.insert("Person".to_string(), entity("Person", vec![field("name", TypeId::String)]));
    ts_entities.insert("Company".to_string(), entity("Company", vec![labelled, field("size", TypeId::Float)]));
    let mut ps = PolicySystem::new();
    for l in ["zeta", "alpha"] {
        ps.labels.insert(l.to_string(), Policy { kind: Kind::Omit, except_uri: Pattern::new("^$").unwrap() });
    }
    let v = Version {
        version_id: "dev".to_string(),
        type_system: TypeSystem { entities: ts_entities, builtin: PrefixMap::new() },
        policy_system: ps,
    };
    let r = describe(&vec![v]);
    assert_eq!(r.version_defs.len(), 1);
    let d = &r.version_defs[0];
    assert_eq!(d.version_id, "dev");
    let names: Vec<&str> = d.type_defs.iter().map(|t| t.name.as_str()).collect();
    assert_eq!(names, vec!["Company", "Person"]);
    let ceo = &d.type_defs[0].field_defs[0];
    assert_eq!(ceo.name, "ceo");
    assert_eq!(ceo.labels, vec!["pii".to_string()]);
    assert_eq!(ceo.default_value, Some("x".to_string()));
    assert!(matches!(&ceo.field_type, Some(TypeMsg { type_enum: Some(TypeEnum::Entity(n)) }) if n == "Person"));
    assert!(matches!(&d.type_defs[0].field_defs[1].field_type, Some(TypeMsg { type_enum: Some(TypeEnum::Number(true)) })));
    let labels: Vec<&str> = d.label_policy_defs.iter().map(|l| l.label.as_str()).collect();
    assert_eq!(labels, vec!["alpha", "zeta"]);
}

#[test]
fn version_ids_are_checked() {
    assert_eq!(validate_version_id("dev-1_b").unwrap(), "dev-1_b");
    assert_eq!(validate_version_id("__chiselstrike").unwrap_err(), "Version \"__chiselstrike\" is special and cannot be used");
    assert_eq!(validate_version_id("a/b").unwrap_err(), "Version can only be alphanumeric, _ or -");
    assert!(validate_version_id("").is_err());
}
