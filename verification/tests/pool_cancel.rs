use bridge_pool::connection_handle::{ConnectionHandle, NotificationSendResult};
use bridge_pool::connection_key::ConnectionKey;
use bridge_pool::connection_state::ConnectionState;
use bridge_pool::error::ErrorKind;
use bridge_pool::pool::cancel::CancelLookup;
use bridge_pool::pool::LanguageServerPool;
use bridge_pool::upstream::UpstreamId;
use bridge_pool::workspace_folders::WorkspaceFolderSet;

fn pool_with(connections: &[(&str, ConnectionState)]) -> LanguageServerPool {
    let mut pool = LanguageServerPool::new();
    let mut id = 0;
    for (name, state) in connections {
        id += 1;
        pool.insert_connection(ConnectionHandle::with_state(
            ConnectionKey::for_server(name),
            id,
            *state,
            None,
            WorkspaceFolderSet::new(None),
        ));
    }
    pool
}

/// Forwards a cancellation where every connection knows the given requests.
fn forward(pool: &mut LanguageServerPool, id: &UpstreamId, known: bool, ids: Vec<i64>) -> usize {
    let Some(targets) = pool.cancel_targets(id) else {
        return 0;
    };
    let lookups = targets
        .into_iter()
        .map(|target| CancelLookup { target, known, downstream_ids: ids.clone() })
        .collect();
    let plan = pool.cancel_plan(lookups);
    let mut sent = 0;
    for entry in &plan {
        for _ in &entry.downstream_ids {
            pool.send_cancel_notification(NotificationSendResult::Queued).unwrap();
            sent += 1;
        }
    }
    sent
}

#[test]
fn forward_cancel_by_upstream_id_uses_registry() {
    let mut pool = pool_with(&[("lua", ConnectionState::Ready)]);
    let id = UpstreamId::Number(42);
    pool.register_upstream_request(id.clone(), &ConnectionKey::for_server("lua"));
    assert_eq!(forward(&mut pool, &id, true, vec![2]), 1);
}

#[test]
fn forward_cancel_by_upstream_id_silently_drops_when_not_in_registry() {
    let mut pool = pool_with(&[("lua", ConnectionState::Ready)]);
    assert!(pool.cancel_targets(&UpstreamId::Number(999)).is_none());
    assert_eq!(pool.cancel_metrics().snapshot(), (0, 0, 0, 0, 1));
}

#[test]
fn forward_cancel_by_upstream_id_iterates_all_servers() {
    let mut pool =
        pool_with(&[("lua-ls", ConnectionState::Ready), ("pyright", ConnectionState::Ready)]);
    let id = UpstreamId::Number(42);
    pool.register_upstream_request(id.clone(), &ConnectionKey::for_server("lua-ls"));
    pool.register_upstream_request(id.clone(), &ConnectionKey::for_server("pyright"));
    assert_eq!(forward(&mut pool, &id, true, vec![2]), 2);
    let (successful, _, _, _, _) = pool.cancel_metrics().snapshot();
    assert_eq!(successful, 2, "should have forwarded cancel to both servers");
}

#[test]
fn forward_cancel_with_notify_survives_handler_cleanup_in_notify() {
    let mut pool = pool_with(&[("lua", ConnectionState::Ready)]);
    let id = UpstreamId::Number(42);
    pool.register_upstream_request(id.clone(), &ConnectionKey::for_server("lua"));
    let targets = pool.cancel_targets(&id).unwrap();
    pool.unregister_all_for_upstream_id(Some(&id));
    let plan = pool.cancel_plan(
        targets
            .into_iter()
            .map(|target| CancelLookup { target, known: true, downstream_ids: vec![2] })
            .collect(),
    );
    assert_eq!(plan.len(), 1, "what was captured before outlives the cleanup");
}

#[test]
fn cancel_metrics_records_success() {
    let mut pool = pool_with(&[("lua", ConnectionState::Ready)]);
    let id = UpstreamId::Number(42);
    pool.register_upstream_request(id.clone(), &ConnectionKey::for_server("lua"));
    forward(&mut pool, &id, true, vec![2]);
    assert_eq!(pool.cancel_metrics().snapshot(), (1, 0, 0, 0, 0));
}

#[test]
fn cancel_metrics_records_failures() {
    let mut pool = pool_with(&[
        ("init_lang", ConnectionState::Initializing),
        ("ready_lang", ConnectionState::Ready),
    ]);
    pool.register_upstream_request(
        UpstreamId::Number(1),
        &ConnectionKey::for_server("nonexistent"),
    );
    forward(&mut pool, &UpstreamId::Number(1), true, vec![2]);
    forward(&mut pool, &UpstreamId::Number(999), true, vec![2]);
    pool.register_upstream_request(UpstreamId::Number(2), &ConnectionKey::for_server("init_lang"));
    forward(&mut pool, &UpstreamId::Number(2), true, vec![2]);
    pool.register_upstream_request(UpstreamId::Number(3), &ConnectionKey::for_server("ready_lang"));
    forward(&mut pool, &UpstreamId::Number(3), false, vec![]);

    let (successful, no_conn, not_ready, unknown_id, not_in_reg) = pool.cancel_metrics().snapshot();
    assert_eq!(successful, 0, "No successful cancels");
    assert_eq!(no_conn, 1, "1 no_connection failure");
    assert_eq!(not_ready, 1, "1 not_ready failure");
    assert_eq!(unknown_id, 1, "1 unknown_id failure");
    assert_eq!(not_in_reg, 1, "1 not_in_registry failure");
}

#[test]
fn a_request_that_was_only_queued_needs_no_message() {
    let mut pool = pool_with(&[("lua", ConnectionState::Ready)]);
    let id = UpstreamId::Number(42);
    pool.register_upstream_request(id.clone(), &ConnectionKey::for_server("lua"));
    assert_eq!(forward(&mut pool, &id, true, vec![]), 0);
    assert_eq!(pool.cancel_metrics().snapshot(), (0, 0, 0, 0, 0));
}

#[test]
fn forward_cancel_downstream_sends_notification_for_specific_id() {
    let mut pool = pool_with(&[("lua", ConnectionState::Ready)]);
    assert_eq!(pool.ready_handle_for_cancel(&ConnectionKey::for_server("lua")), Some(1));
    assert!(pool.send_cancel_notification(NotificationSendResult::Queued).is_ok());
    assert_eq!(pool.cancel_metrics().snapshot(), (1, 0, 0, 0, 0));
}

#[test]
fn forward_cancel_downstream_silently_drops_when_no_connection() {
    let mut pool = pool_with(&[]);
    assert_eq!(pool.ready_handle_for_cancel(&ConnectionKey::for_server("lua")), None);
    assert_eq!(pool.cancel_metrics().snapshot(), (0, 1, 0, 0, 0));
}

#[test]
fn cancellations_that_are_not_queued_have_their_own_errors() {
    let mut pool = pool_with(&[]);
    for (result, kind, text) in [
        (
            NotificationSendResult::QueueFull,
            ErrorKind::WouldBlock,
            "bridge: cancel notification queue full",
        ),
        (
            NotificationSendResult::ChannelClosed,
            ErrorKind::BrokenPipe,
            "bridge: cancel notification channel closed",
        ),
        (
            NotificationSendResult::SerializationFailed,
            ErrorKind::InvalidData,
            "bridge: failed to serialize cancel notification",
        ),
    ] {
        let error = pool.send_cancel_notification(result).unwrap_err();
        assert_eq!(error.kind(), kind);
        assert_eq!(error.to_string(), text);
    }
    assert_eq!(pool.cancel_metrics().snapshot(), (0, 0, 0, 0, 0));
}

#[test]
fn forward_cancel_silently_drops_when_no_connection() {
    let mut pool = pool_with(&[]);
    let id = UpstreamId::Number(42);
    pool.register_upstream_request(id.clone(), &ConnectionKey::for_server("nonexistent"));
    assert_eq!(pool.cancel_targets(&id).unwrap().len(), 0);
}

#[test]
fn forward_cancel_silently_drops_when_upstream_id_not_found() {
    let mut pool = pool_with(&[("lua", ConnectionState::Ready)]);
    let id = UpstreamId::Number(999);
    pool.register_upstream_request(id.clone(), &ConnectionKey::for_server("lua"));
    assert_eq!(forward(&mut pool, &id, false, vec![]), 0);
    assert_eq!(pool.cancel_metrics().snapshot(), (0, 0, 0, 1, 0));
}
