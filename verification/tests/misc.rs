use chisel_server::collection_utils::{components_of, longest_prefix};
use chisel_server::api::{normalize_path as normalize_api_path, ApiInfo, ApiService, RequestPath};
use chisel_server::auth::{get_auth_user_type, is_auth_entity_name, is_auth_path, username_query};
use chisel_server::endpoint::endpoint_path_from_source_path;
use chisel_server::error::Error;
use chisel_server::health::{mark_not_ready, mark_ready, route, Health};
use chisel_server::http::{classify_request, normalize_path, redirect_target, RequestAction};
use chisel_server::migrate::{codegen_root, migrate_source, migrate_sources, parse_source_path, path_to_url, EndpointSource, Source, SourceRow};
use chisel_server::pattern::Pattern;
use chisel_server::policies::UserAuthorization;
use chisel_server::policy::{Action, Location, PolicyError};
use chisel_server::prefix_map::PrefixMap;
use chisel_server::query::{escape_string, make_limit_and_offset_string, max_prefix, truncate_identifier, TargetDatabase};
use chisel_server::typeinfo::{simplify_object_type, simplify_type_id, SimpleTypeId};
use chisel_server::types::{Field, ObjectType, TypeId, TypeSystem};

fn map_of(keys: &[&str]) -> PrefixMap<usize> {
    let mut m = PrefixMap::new();
    for (i, k) in keys.iter().enumerate() {
        m.insert(k.to_string(), i);
    }
    m
}

fn lookup(m: &PrefixMap<usize>, path: &str) -> Option<(String, usize)> {
    m.longest_prefix(path).map(|(k, v)| (k.to_string(), *v))
}

#[test]
fn prefix_map_exact() {
    let m = map_of(&["/a/b"]);
    assert_eq!(lookup(&m, "/a/b"), Some(("/a/b".to_string(), 0)));
}

#[test]
fn prefix_map_unmatched() {
    let m = map_of(&["/a/b"]);
    assert_eq!(lookup(&m, "/a/c"), None);
    assert_eq!(lookup(&m, "/a"), None);
}

#[test]
fn prefix_map_longer() {
    let m = map_of(&["/a", "/a/b"]);
    assert_eq!(lookup(&m, "/a/b/c"), Some(("/a/b".to_string(), 1)));
    assert_eq!(lookup(&m, "/a/c"), Some(("/a".to_string(), 0)));
}

#[test]
fn prefix_map_root() {
    let m = map_of(&["/"]);
    assert_eq!(lookup(&m, "/anything/at/all"), Some(("/".to_string(), 0)));
}

#[test]
fn prefix_map_not_simple_prefix() {
    let m = map_of(&["/a/b"]);
    assert_eq!(lookup(&m, "/a/bc"), None);
}

#[test]
fn prefix_map_needle_ends_with_slash() {
    let m = map_of(&["/a/"]);
    assert_eq!(lookup(&m, "/a/b"), Some(("/a/".to_string(), 0)));
}

#[test]
fn prefix_map_needle_or_haystack_empty() {
    let m = map_of(&[""]);
    assert_eq!(lookup(&m, ""), Some(("".to_string(), 0)));
    assert_eq!(lookup(&m, "/a"), Some(("".to_string(), 0)));
    let m = map_of(&["/a"]);
    assert_eq!(lookup(&m, ""), None);
}

#[test]
fn prefix_map_lookup_after_insert_and_remove() {
    let mut m = map_of(&["/x", "/x/y", "/z"]);
    assert_eq!(m.insert("/x/y".to_string(), 7), Some(1));
    assert_eq!(lookup(&m, "/x/y"), Some(("/x/y".to_string(), 7)));
    m.remove_prefix("/x");
    assert_eq!(m.len(), 1);
    assert_eq!(lookup(&m, "/x/y"), None);
    assert_eq!(m.get("/z"), Some(&2));
}

#[test]
fn normalizing_paths() {
    assert_eq!(normalize_api_path("//a///b/"), "/a/b/");
    assert_eq!(normalize_api_path(&normalize_api_path("//a///b/")), "/a/b/");
    assert_eq!(normalize_path("/dev/hello/"), "/dev/hello");
    assert_eq!(redirect_target("/a", Some("x=1")), "/a?x=1");
    assert_eq!(redirect_target("/a", None), "/a");
}

#[test]
fn requests_are_classified() {
    assert!(matches!(classify_request("/", "GET"), RequestAction::Index));
    assert!(matches!(classify_request("/dev/hello", "OPTIONS"), RequestAction::Options));
    match classify_request("/dev/hello", "GET") {
        RequestAction::Version { version_id, routing_path } => {
            assert_eq!(version_id, "dev");
            assert_eq!(routing_path, "/hello");
        }
        other => panic!("unexpected {:?}", other),
    }
    assert!(matches!(classify_request("/dev//hello", "GET"), RequestAction::Redirect(p) if p == "/dev/hello"));
}

#[test]
fn request_paths() {
    let rp = RequestPath::try_from("/dev/hello/world").unwrap();
    assert_eq!(rp.api_version(), "dev");
    assert_eq!(rp.path(), "/hello/world");
    assert!(RequestPath::try_from("/dev").is_err());
}

#[test]
fn api_service_routes() {
    let mut info = PrefixMap::new();
    info.insert("dev".to_string(), ApiInfo::new("app".to_string(), "1".to_string()));
    let mut svc: ApiService<u32, u32> = ApiService::new(info, false, "1.2.3".to_string());
    svc.add_route("/dev/a".to_string(), 1);
    svc.add_route("/dev/a/b".to_string(), 2);
    assert_eq!(svc.find_route_fn("/dev/a/b/c"), Some(&2));
    assert_eq!(svc.find_route_fn("/dev//a"), Some(&1));
    assert_eq!(svc.find_route_fn("/prod"), None);
    svc.remove_routes("/dev/a/b");
    assert_eq!(svc.find_route_fn("/dev/a/b/c"), Some(&1));
    assert_eq!(ApiInfo::chiselstrike("1.2.3".to_string()).name, "ChiselStrike Internal API");
    assert_eq!(ApiInfo::all_routes("1.2.3".to_string()).tag, "1.2.3");
}

#[test]
fn errors_render_with_their_kind() {
    assert!(Error::forbidden("no".to_string()).to_string().contains("no"));
    assert!(Error::bad_request("bad".to_string()).to_string().contains("bad"));
    assert!(Error::internal("oops".to_string()).to_string().contains("oops"));
}

fn auth_ts() -> TypeSystem {
    let mut builtin = PrefixMap::new();
    builtin.insert(
        "AuthUser".to_string(),
        ObjectType { name: "AuthUser".to_string(), backing_table: "auth_user".to_string(), user_fields: vec![] },
    );
    TypeSystem { entities: PrefixMap::new(), builtin }
}

#[test]
fn auth_names_and_paths() {
    for n in ["AuthUser", "AuthSession", "AuthToken", "AuthAccount"] {
        assert!(is_auth_entity_name(n));
    }
    assert!(!is_auth_entity_name("Person"));
    assert!(is_auth_path("__chiselstrike", "/auth/users"));
    assert!(!is_auth_path("dev", "/auth/users"));
    assert!(!is_auth_path("__chiselstrike", "/authors"));
    let ts = auth_ts();
    let u = get_auth_user_type(&ts).unwrap();
    assert_eq!(username_query(u), "SELECT email FROM \"auth_user\" WHERE id=$1");
    let empty = TypeSystem { entities: PrefixMap::new(), builtin: PrefixMap::new() };
    assert_eq!(get_auth_user_type(&empty).unwrap_err(), "Internal error: type AuthUser not found");
}

#[test]
fn health_routes() {
    let mut h = Health::new();
    assert_eq!(route("/readiness", &h), ("ready", 404));
    mark_ready(&mut h);
    assert_eq!(route("/readiness", &h), ("ready", 200));
    mark_not_ready(&mut h);
    assert_eq!(route("/readiness", &h), ("ready", 400));
    assert_eq!(route("/status", &h), ("ok", 200));
    assert_eq!(route("/liveness", &h), ("alive", 200));
    assert_eq!(route("/other", &h), ("not found", 404));
}

#[test]
fn actions_and_regions() {
    for code in 0..4 {
        let a = Action::try_from(code).unwrap();
        assert_eq!(a.code(), code);
    }
    assert_eq!(Action::try_from(4).unwrap_err(), "invalid Action");
    assert!(Action::Deny.is_restrictive());
    assert!(Action::Skip.is_restrictive());
    assert!(!Action::Allow.is_restrictive());
    assert!(!Action::Log.is_restrictive());
    assert_eq!(Location::from_str("london").unwrap(), Location::London);
    assert_eq!(Location::from_str("us-east-1").unwrap(), Location::UsEast1);
    assert_eq!(Location::from_str("mars").unwrap_err(), "unknown region mars");
    assert_eq!(
        PolicyError::ReadPermissionDenied("Person".to_string()).to_string(),
        "could not Read `Person`: Permission denied"
    );
}

#[test]
fn source_paths() {
    let sp = parse_source_path("/dev/endpoints/hello.ts").unwrap();
    assert_eq!(sp.version_id, "dev");
    assert_eq!(sp.path, "dev/endpoints/hello.ts");
    assert_eq!(sp.endpoint_route, Some("hello".to_string()));
    let sp = parse_source_path("dev/routes/a/b.js").unwrap();
    assert_eq!(sp.endpoint_route, Some("a/b".to_string()));
    let sp = parse_source_path("//dev/lib/util.ts").unwrap();
    assert_eq!(sp.path, "dev/lib/util.ts");
    assert_eq!(sp.endpoint_route, None);
    assert!(parse_source_path("/noversion").is_none());
    assert_eq!(path_to_url("dev/x.ts"), "file:///dev/x.ts");
}

#[test]
fn root_module_registers_endpoints() {
    let eps = vec![EndpointSource {
        route: "hello".to_string(),
        source: Source { path: "dev/endpoints/hello.ts".to_string(), code: "x".to_string() },
    }];
    let root = codegen_root("dev", &eps);
    assert_eq!(root.url, "file:///__root.ts");
    assert_eq!(root.version_id, "dev");
    let lines: Vec<&str> = root.code.split('\n').collect();
    assert_eq!(lines.len(), 8);
    assert_eq!(lines[1], "import { RouteMap } from 'chisel://api/routing.ts';");
    assert_eq!(lines[5], "");
    assert_eq!(lines[6], "import endpoint0 from \"file:///dev/endpoints/hello.ts\";");
    assert_eq!(lines[7], "routeMap.prefix(\"hello\", RouteMap.convert(endpoint0, \"hello\"));");
    let m = migrate_source("dev", Source { path: "dev/lib.ts".to_string(), code: "y".to_string() });
    assert_eq!(m.url, "file:///dev/lib.ts");
    assert_eq!(m.code, "y");
}

#[test]
fn sources_are_migrated_by_version() {
    let rows = vec![
        SourceRow { path: "/dev/endpoints/a.ts".to_string(), code: "A".to_string() },
        SourceRow { path: "/dev/lib.ts".to_string(), code: "L".to_string() },
        SourceRow { path: "/prod/endpoints/b.js".to_string(), code: "B".to_string() },
        SourceRow { path: "bad".to_string(), code: "?".to_string() },
    ];
    let out = migrate_sources(rows);
    let summary: Vec<(String, String)> = out.iter().map(|m| (m.version_id.clone(), m.url.clone())).collect();
    assert_eq!(
        summary,
        vec![
            ("dev".to_string(), "file:///__root.ts".to_string()),
            ("dev".to_string(), "file:///dev/endpoints/a.ts".to_string()),
            ("dev".to_string(), "file:///dev/lib.ts".to_string()),
            ("prod".to_string(), "file:///__root.ts".to_string()),
            ("prod".to_string(), "file:///prod/endpoints/b.js".to_string()),
        ]
    );
}

#[test]
fn endpoint_paths() {
    assert_eq!(endpoint_path_from_source_path("/dev/endpoints/hello.js"), "/dev/hello");
    assert_eq!(endpoint_path_from_source_path("/dev/endpoints/a/b.ts"), "/dev/a/b");
    assert_eq!(endpoint_path_from_source_path("/dev/routes/noext"), "/dev/noext");
}

#[test]
fn simplified_types() {
    let obj = ObjectType {
        name: "Person".to_string(),
        backing_table: "t".to_string(),
        user_fields: vec![Field {
            name: "tags".to_string(),
            type_id: TypeId::Array(Box::new(TypeId::String)),
            labels: vec![],
            default: None,
            is_optional: true,
            is_unique: false,
        }],
    };
    let s = simplify_object_type(&obj);
    assert_eq!(s.name, "Person");
    assert_eq!(s.fields.len(), 2);
    assert_eq!(s.fields[0].name, "id");
    assert!(matches!(s.fields[0].field_type, SimpleTypeId::String));
    assert!(s.fields[1].is_optional);
    assert!(matches!(&s.fields[1].field_type, SimpleTypeId::Array { element_type } if matches!(**element_type, SimpleTypeId::String)));
    assert!(matches!(simplify_type_id(&TypeId::Float), SimpleTypeId::Number));
    assert!(matches!(simplify_type_id(&TypeId::Id), SimpleTypeId::String));
}

#[test]
fn sql_helpers() {
    assert_eq!(truncate_identifier(&"x".repeat(70)).len(), 63);
    assert_eq!(max_prefix("héllo", 2), "h");
    assert_eq!(max_prefix("abc", 10), "abc");
    assert_eq!(make_limit_and_offset_string(TargetDatabase::Sqlite, None, Some(5)), "LIMIT 5,-1");
    assert_eq!(make_limit_and_offset_string(TargetDatabase::Postgres, Some(2), Some(5)), "LIMIT 2 OFFSET 5");
    assert_eq!(make_limit_and_offset_string(TargetDatabase::Postgres, None, None), " ");
    assert_eq!(escape_string("it's"), "'it''s'");
}

#[test]
fn user_authorization_uses_longest_path() {
    let mut ua = UserAuthorization::new();
    ua.add("/dev/secret", Pattern::new("^admin$").unwrap()).unwrap();
    assert!(ua.is_allowed(None, "/dev/public"));
    assert!(!ua.is_allowed(None, "/dev/secret/x"));
    assert!(ua.is_allowed(Some("admin"), "/dev/secret/x"));
    assert!(!ua.is_allowed(Some("bob"), "/dev/secret/x"));
    assert!(ua.add("/dev/secret", Pattern::new(".*").unwrap()).is_err());
}

#[test]
fn request_paths_normalize_once() {
    for p in ["", "/", "//", "a//b/", "///x///y///", "/dev/hello/", "x"] {
        let once = normalize_path(p);
        assert_eq!(normalize_path(&once), once);
        assert!(once.starts_with('/'));
        assert!(!once.contains("//"));
    }
}

#[test]
fn longest_prefix_compares_path_components() {
    let tree: Vec<(String, u32)> = vec![
        ("/a".to_string(), 1),
        ("/a/b".to_string(), 2),
        ("/a/bb".to_string(), 3),
        ("/a/b/".to_string(), 4),
    ];
    assert_eq!(longest_prefix("/a/b/c", &tree).map(|(k, v)| (k.clone(), *v)), Some(("/a/b".to_string(), 2)));
    assert_eq!(longest_prefix("/a/bbb", &tree).map(|(_, v)| *v), Some(1));
    assert_eq!(longest_prefix("/a//bb/./c", &tree).map(|(_, v)| *v), Some(3));
    assert_eq!(longest_prefix("/x", &tree), None);
    assert_eq!(longest_prefix("a/b", &tree), None);
    assert_eq!(components_of("./a//b/./c/"), vec![".", "a", "b", "c"]);
    assert_eq!(components_of("/"), vec!["/"]);
    assert!(components_of("").is_empty());
}
