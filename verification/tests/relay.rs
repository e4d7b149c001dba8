use moq::relay::{connection_routes, node_url, token_segment, ClusterConfig, Role, Route};
use moq::token::Payload;

fn config(connect: Option<&str>, advertise: Option<&str>, prefix: Option<&str>) -> ClusterConfig {
    ClusterConfig {
        connect: connect.map(str::to_string),
        token: None,
        advertise: advertise.map(str::to_string),
        prefix: prefix.map(str::to_string),
    }
}

#[test]
fn cluster_roles() {
    assert_eq!(config(None, None, None).role(), Role::Root);
    assert_eq!(config(Some("root.example"), Some("root.example"), None).role(), Role::Root);
    assert_eq!(config(Some("root.example"), Some("leaf.example"), None).role(), Role::Leaf { root: "root.example".to_string() });
    assert_eq!(config(Some("root.example"), None, None).role(), Role::Leaf { root: "root.example".to_string() });
}

#[test]
fn cluster_paths() {
    let c = config(Some("root"), Some("leaf1"), None);
    assert_eq!(c.prefix(), "internal/origins");
    assert_eq!(c.origin_path(), Some("internal/origins/leaf1".to_string()));
    assert_eq!(c.origins_prefix(), "internal/origins/");
    assert!(c.is_self("leaf1"));
    assert!(!c.is_self("leaf2"));

    let c = config(Some("root"), None, Some("cluster"));
    assert_eq!(c.origin_path(), None);
    assert_eq!(c.origins_prefix(), "cluster/");
    assert!(!c.is_self("leaf1"));
    assert_eq!(ClusterConfig::default(), config(None, None, None));
}

#[test]
fn node_urls() {
    assert_eq!(token_segment(Some("abc".to_string())), "abc.jwt");
    assert_eq!(token_segment(None), "");
    assert_eq!(node_url("root.example", "abc.jwt"), "https://root.example/abc.jwt");
    assert_eq!(node_url("root.example", ""), "https://root.example/");
}

#[test]
fn routes_are_relative_to_the_token_path() {
    let token = Payload {
        path: "room/".to_string(),
        subscribe: Some("".to_string()),
        publish: Some("alice/".to_string()),
        publish_force: None,
        ..Payload::default()
    };
    let routes = connection_routes(&token);
    assert_eq!(routes.subscribe, Some(Route { session: "".to_string(), origin: "room/".to_string() }));
    assert_eq!(routes.publish, Some(Route { session: "alice/".to_string(), origin: "room/alice/".to_string() }));
    assert_eq!(routes.publish_force, None);

    let routes = connection_routes(&Payload::default());
    assert_eq!(routes.subscribe, None);
    assert_eq!(routes.publish, None);
}
