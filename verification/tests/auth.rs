use moq::auth::{parse_key_val, path_segments, Access, Auth, AuthConfig, AuthError, KeyFile};
use moq::token::{Algorithm, Key, KeyOperation, Payload};
use url::Url;

fn key(ops: Vec<KeyOperation>) -> Key {
    Key { algorithm: Algorithm::HS256, operations: ops, secret: vec![1, 2, 3], kid: None }
}

fn file(path: &str, ops: Vec<KeyOperation>) -> KeyFile {
    KeyFile { path: path.to_string(), key: Ok(key(ops)) }
}

fn verify_only() -> Vec<KeyOperation> {
    vec![KeyOperation::Verify]
}

#[test]
fn disabled_auth_opens_everything() {
    let auth = AuthConfig::default().init(vec![]).unwrap();
    let url = Url::parse("https://relay.example/room/alice").unwrap();
    match auth.validate(&url).unwrap() {
        Access::Open(p) => {
            assert_eq!(p.path, "room/alice");
            assert_eq!(p.publish.as_deref(), Some(""));
            assert_eq!(p.subscribe.as_deref(), Some(""));
            assert!(p.publish_force.is_none());
        }
        other => panic!("unexpected {other:?}"),
    }
}

#[test]
fn disabled_auth_refuses_tokens() {
    let auth = AuthConfig { key: Some(String::new()), path: vec![] }.init(vec![]).unwrap();
    let url = Url::parse("https://relay.example/room/abc.jwt").unwrap();
    assert!(matches!(auth.validate(&url), Err(AuthError::RootKeyRequired)));
}

#[test]
fn without_a_root_key_paths_are_ignored() {
    let config = AuthConfig { key: None, path: vec![("team".to_string(), "team.jwk".to_string())] };
    let auth = config.init(vec![]).unwrap();
    let url = Url::parse("https://relay.example/team/alice").unwrap();
    assert!(matches!(auth.validate(&url), Ok(Access::Open(_))));
    let url = Url::parse("https://relay.example/team/abc.jwt").unwrap();
    assert!(matches!(auth.validate(&url), Err(AuthError::RootKeyRequired)));
}

#[test]
fn root_key_must_be_loaded_and_verify() {
    let config = AuthConfig { key: Some("root.jwk".to_string()), path: vec![] };
    assert!(matches!(config.init(vec![]), Err(AuthError::KeyNotLoaded(p)) if p == "root.jwk"));

    let config = AuthConfig { key: Some("root.jwk".to_string()), path: vec![] };
    let files = vec![KeyFile { path: "root.jwk".to_string(), key: Err("bad json".to_string()) }];
    assert!(matches!(config.init(files), Err(AuthError::KeyFile(m)) if m == "bad json"));

    let config = AuthConfig { key: Some("root.jwk".to_string()), path: vec![] };
    let files = vec![file("root.jwk", vec![KeyOperation::Sign])];
    assert!(matches!(config.init(files), Err(AuthError::CannotVerify)));
}

#[test]
fn enabled_auth_needs_a_token() {
    let config = AuthConfig { key: Some("root.jwk".to_string()), path: vec![] };
    let auth = config.init(vec![file("root.jwk", verify_only())]).unwrap();
    let url = Url::parse("https://relay.example/room/alice").unwrap();
    assert!(matches!(auth.validate(&url), Err(AuthError::NoToken)));
}

#[test]
fn tokens_use_the_path_key_or_the_root_key() {
    let config = AuthConfig {
        key: Some("root.jwk".to_string()),
        path: vec![("demo".to_string(), String::new()), ("team".to_string(), "team.jwk".to_string())],
    };
    let mut team = key(verify_only());
    team.kid = Some("team".to_string());
    let files = vec![file("root.jwk", verify_only()), KeyFile { path: "team.jwk".to_string(), key: Ok(team) }];
    let auth = config.init(files).unwrap();

    // A path with its own key.
    match auth.validate(&Url::parse("https://relay.example/team/abc.jwt").unwrap()).unwrap() {
        Access::Verify { key, token, path } => {
            assert_eq!(key.kid.as_deref(), Some("team"));
            assert_eq!(token, "abc");
            assert_eq!(path, "team");
        }
        other => panic!("unexpected {other:?}"),
    }

    // A path that needs no token.
    match auth.validate(&Url::parse("https://relay.example/demo/xyz.jwt").unwrap()).unwrap() {
        Access::Open(p) => assert_eq!(p.path, "demo/xyz.jwt"),
        other => panic!("unexpected {other:?}"),
    }

    // Any other path falls back to the root key.
    match auth.validate(&Url::parse("https://relay.example/a/b/tok.jwt").unwrap()).unwrap() {
        Access::Verify { key, token, path } => {
            assert!(key.kid.is_none());
            assert_eq!(token, "tok");
            assert_eq!(path, "a/b");
        }
        other => panic!("unexpected {other:?}"),
    }
}

#[test]
fn authorize_prefixes_the_path() {
    let claims = Payload { path: "/alice".to_string(), publish: Some("".to_string()), ..Payload::default() };
    let p = Auth::authorize("room", claims);
    assert_eq!(p.path, "room/alice");
    assert_eq!(p.publish.as_deref(), Some(""));
}

#[test]
fn key_val_pairs() {
    assert_eq!(parse_key_val(""), Ok(vec![]));
    assert_eq!(parse_key_val("a=b=c"), Ok(vec![("a".to_string(), "b=c".to_string())]));
    assert_eq!(parse_key_val("nope"), Err("invalid KEY=VALUE: no `=` in `nope`".to_string()));
}

#[test]
fn url_path_segments() {
    assert_eq!(path_segments("/a/b"), Some(vec!["a".to_string(), "b".to_string()]));
    assert_eq!(path_segments("/"), Some(vec!["".to_string()]));
    assert_eq!(path_segments("a"), None);
}
