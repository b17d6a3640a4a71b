use bridge_pool::connection_key::ConnectionKey;

#[test]
fn same_server_different_root_are_distinct() {
    let a = ConnectionKey::new("tsgo", Some("file:///repo/a".to_string()));
    let b = ConnectionKey::new("tsgo", Some("file:///repo/b".to_string()));
    assert_ne!(a, b, "same server under different roots must not collide");
}

#[test]
fn same_server_same_root_are_equal() {
    let a = ConnectionKey::new("tsgo", Some("file:///repo/a".to_string()));
    let b = ConnectionKey::new("tsgo", Some("file:///repo/a".to_string()));
    assert_eq!(a, b);
}

#[test]
fn fallback_keys_collapse_by_server() {
    assert_eq!(
        ConnectionKey::for_server("lua"),
        ConnectionKey::for_server("lua")
    );
    assert_ne!(
        ConnectionKey::for_server("lua"),
        ConnectionKey::for_server("pyright")
    );
}

#[test]
fn display_includes_root_when_present() {
    assert_eq!(ConnectionKey::for_server("lua").to_string(), "lua");
    assert_eq!(
        ConnectionKey::new("lua", Some("file:///repo".to_string())).to_string(),
        "lua@file:///repo"
    );
}

#[test]
fn shared_key_is_distinct_from_marker_and_fallback() {
    let shared = ConnectionKey::shared("tsgo");
    assert!(shared.is_shared());
    // The shared key must not collide with the client-root fallback for the
    // same server, nor with any marker root — else a marker-less document
    // (or a per-root fallback after a capability miss) would be routed to
    // the shared instance by accident.
    assert_ne!(shared, ConnectionKey::for_server("tsgo"));
    assert_ne!(
        shared,
        ConnectionKey::new("tsgo", Some("file:///repo".to_string()))
    );
    assert_eq!(shared, ConnectionKey::shared("tsgo"));
    assert_ne!(shared, ConnectionKey::shared("pyright"));
    assert!(!ConnectionKey::for_server("tsgo").is_shared());
}

#[test]
fn shared_key_display_is_unambiguous() {
    assert_eq!(ConnectionKey::shared("tsgo").to_string(), "tsgo#shared");
}
