use bridge_pool::connection_key::ConnectionKey;
use bridge_pool::pool::LanguageServerPool;
use bridge_pool::upstream::{UpstreamId, UpstreamRequestRegistry};

fn server(name: &str) -> ConnectionKey {
    ConnectionKey::for_server(name)
}

#[test]
fn register_upstream_request_stores_mapping() {
    let mut pool = LanguageServerPool::new();

    pool.register_upstream_request(UpstreamId::Number(42), &server("lua"));

    assert_eq!(pool.upstream_request_count(&UpstreamId::Number(42), &server("lua")), 1);
    let mut registry = UpstreamRequestRegistry::new();
    registry.register_upstream_request(UpstreamId::Number(42), &server("lua"));
    let servers = registry.connections_for(&UpstreamId::Number(42)).expect("should have entry");
    assert!(servers.contains(&server("lua")));
    assert_eq!(servers.len(), 1);
}

#[test]
fn unregister_upstream_request_removes_mapping() {
    let mut pool = LanguageServerPool::new();

    pool.register_upstream_request(UpstreamId::Number(42), &server("lua"));
    pool.unregister_upstream_request(&UpstreamId::Number(42), &server("lua"));

    assert_eq!(pool.upstream_request_count(&UpstreamId::Number(42), &server("lua")), 0);
    assert!(pool.cancel_targets(&UpstreamId::Number(42)).is_none());
}

#[test]
fn unregister_upstream_request_keeps_server_while_sibling_requests_in_flight() {
    let mut registry = UpstreamRequestRegistry::new();

    registry.register_upstream_request(UpstreamId::Number(42), &server("lua"));
    registry.register_upstream_request(UpstreamId::Number(42), &server("lua"));

    registry.unregister_upstream_request(&UpstreamId::Number(42), &server("lua"));
    assert!(
        registry.connections_for(&UpstreamId::Number(42)).is_some(),
        "server must stay registered while its second request is in flight"
    );

    registry.unregister_upstream_request(&UpstreamId::Number(42), &server("lua"));
    assert_eq!(registry.connections_for(&UpstreamId::Number(42)), None);
}

#[test]
fn register_upstream_request_multiple_servers_creates_set() {
    let mut registry = UpstreamRequestRegistry::new();
    let upstream_id = UpstreamId::Number(42);

    registry.register_upstream_request(upstream_id.clone(), &server("lua-ls"));
    registry.register_upstream_request(upstream_id.clone(), &server("pyright"));

    let servers = registry.connections_for(&upstream_id).expect("should have entry");
    assert!(servers.contains(&server("lua-ls")));
    assert!(servers.contains(&server("pyright")));
    assert_eq!(servers.len(), 2);
}

#[test]
fn unregister_upstream_request_removes_single_server() {
    let mut registry = UpstreamRequestRegistry::new();
    let upstream_id = UpstreamId::Number(42);

    registry.register_upstream_request(upstream_id.clone(), &server("lua-ls"));
    registry.register_upstream_request(upstream_id.clone(), &server("pyright"));
    registry.unregister_upstream_request(&upstream_id, &server("lua-ls"));

    let servers = registry.connections_for(&upstream_id).expect("should still have entry");
    assert!(!servers.contains(&server("lua-ls")));
    assert!(servers.contains(&server("pyright")));
    assert_eq!(servers.len(), 1);
}

#[test]
fn unregister_upstream_request_cleans_up_empty_set() {
    let mut registry = UpstreamRequestRegistry::new();
    let upstream_id = UpstreamId::Number(42);

    registry.register_upstream_request(upstream_id.clone(), &server("lua-ls"));
    registry.unregister_upstream_request(&upstream_id, &server("lua-ls"));

    assert!(
        registry.connections_for(&upstream_id).is_none(),
        "entry should be removed when set is empty"
    );
}

#[test]
fn unregister_all_for_upstream_id_removes_entire_entry() {
    let mut pool = LanguageServerPool::new();
    let upstream_id = UpstreamId::Number(42);

    pool.register_upstream_request(upstream_id.clone(), &server("lua-ls"));
    pool.register_upstream_request(upstream_id.clone(), &server("pyright"));
    pool.unregister_all_for_upstream_id(Some(&upstream_id));

    assert_eq!(pool.upstream_request_count(&upstream_id, &server("lua-ls")), 0);
    assert_eq!(pool.upstream_request_count(&upstream_id, &server("pyright")), 0);
    assert!(pool.cancel_targets(&upstream_id).is_none());
}

#[test]
fn unregister_all_for_upstream_id_is_idempotent() {
    let mut pool = LanguageServerPool::new();
    let upstream_id = UpstreamId::Number(42);

    pool.unregister_all_for_upstream_id(Some(&upstream_id));
    pool.unregister_all_for_upstream_id(Some(&upstream_id));
    pool.unregister_all_for_upstream_id(None);

    assert!(pool.cancel_targets(&upstream_id).is_none());
}

#[test]
fn numbers_and_texts_name_different_requests() {
    let mut registry = UpstreamRequestRegistry::new();
    registry.register_upstream_request(UpstreamId::from_number(42), &server("lua"));

    assert!(registry.connections_for(&UpstreamId::from_text("42")).is_none());
    assert_eq!(registry.count(&UpstreamId::from_number(42), &server("lua")), 1);
}

#[test]
fn unregistering_an_unknown_request_changes_nothing() {
    let mut registry = UpstreamRequestRegistry::new();
    registry.register_upstream_request(UpstreamId::Number(1), &server("lua"));
    registry.unregister_upstream_request(&UpstreamId::Number(2), &server("lua"));
    registry.unregister_upstream_request(&UpstreamId::Number(1), &server("ruff"));

    assert_eq!(registry.count(&UpstreamId::Number(1), &server("lua")), 1);
}

#[test]
fn requests_are_shown_as_numbers_or_quoted_texts() {
    assert_eq!(UpstreamId::Number(0).to_string(), "0");
    assert_eq!(UpstreamId::Number(42).to_string(), "42");
    assert_eq!(UpstreamId::Number(-7).to_string(), "-7");
    assert_eq!(UpstreamId::Number(i64::MIN).to_string(), "-9223372036854775808");
    assert_eq!(UpstreamId::Number(i64::MAX).to_string(), "9223372036854775807");
    assert_eq!(UpstreamId::from_text("req-1").to_string(), "\"req-1\"");
}
