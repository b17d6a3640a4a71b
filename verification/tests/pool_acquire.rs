use bridge_pool::connection_action::{BridgeError, MAX_CONSECUTIVE_PANICS};
use bridge_pool::connection_handle::{
    ConnectionHandle, NotificationSendResult, ShutdownStep, StateNews,
};
use bridge_pool::connection_key::ConnectionKey;
use bridge_pool::connection_ref::ConnectionRef;
use bridge_pool::connection_state::ConnectionState;
use bridge_pool::error::{ErrorKind, PoolError};
use bridge_pool::host_documents::HostDocSyncState;
use bridge_pool::pool::acquire::{
    perform_lsp_handshake, AcquireStep, HandshakeEnd, HandshakeEvent, HandshakeStep,
};
use bridge_pool::pool::settings_push::count_pushed;
use bridge_pool::pool::shutdown::{
    shutdown_invalidated_connection, ShutdownEnd, FORCE_KILL_TIMEOUT_SECS,
    RELOAD_SHUTDOWN_TIMEOUT_SECS,
};
use bridge_pool::pool::{LanguageServerPool, INIT_TIMEOUT_SECS};
use bridge_pool::pool_state::ClientCapabilities;
use bridge_pool::server_capabilities::{Offer, ServerCapabilities};
use bridge_pool::settings::BridgeServerConfig;
use bridge_pool::virtual_uri::VirtualDocumentUri;
use bridge_pool::workspace_folders::WorkspaceFolderSet;

fn json(text: &str) -> serde_json::Value {
    serde_json::from_str(text).unwrap()
}

fn key(name: &str) -> ConnectionKey {
    ConnectionKey::for_server(name)
}

fn config(command: &str) -> BridgeServerConfig {
    BridgeServerConfig { cmd: vec![command.to_string()], ..Default::default() }
}

fn handle(name: &str, id: u64, state: ConnectionState) -> ConnectionHandle {
    ConnectionHandle::with_state(key(name), id, state, None, WorkspaceFolderSet::new(None))
}

fn state_of(pool: &LanguageServerPool, name: &str) -> Option<ConnectionState> {
    pool.connection(&key(name)).map(|handle| handle.state())
}

/// Starts a server and gives the number of its connection.
fn spawn(pool: &mut LanguageServerPool, name: &str, config: &BridgeServerConfig) -> u64 {
    match pool.begin_acquire(&key(name), config) {
        AcquireStep::Spawn(_) => pool.store_spawned(key(name), config, None),
        _ => panic!("a server is to be started"),
    }
}

#[test]
fn ensure_server_ready_spawns_connection_entry() {
    let mut pool = LanguageServerPool::new();
    let id = spawn(&mut pool, "lua", &config("lua-ls"));
    assert_eq!(state_of(&pool, "lua"), Some(ConnectionState::Initializing));
    assert!(pool.is_live(&key("lua"), id));
    assert_eq!(INIT_TIMEOUT_SECS, 30);
}

#[test]
fn request_during_init_returns_error_immediately() {
    let mut pool = LanguageServerPool::new();
    pool.insert_connection(handle("lua", 1, ConnectionState::Initializing));
    let AcquireStep::FailFast(error) = pool.begin_acquire(&key("lua"), &config("lua-ls")) else {
        panic!("an initializing server fails fast");
    };
    assert_eq!(error, BridgeError::Initializing);
    assert_eq!(error.into_error().to_string(), "bridge: downstream server initializing");
    assert_eq!(pool.wait_target(&key("lua"), error).unwrap(), 1);
}

#[test]
fn request_during_closing_state_returns_error_immediately() {
    let mut pool = LanguageServerPool::new();
    pool.insert_connection(handle("lua", 1, ConnectionState::Closing));
    let AcquireStep::FailFast(error) = pool.begin_acquire(&key("lua"), &config("lua-ls")) else {
        panic!("a closing connection fails fast");
    };
    let reported = pool.wait_target(&key("lua"), error).unwrap_err();
    assert_eq!(reported.to_string(), "bridge: connection closing");
}

#[test]
fn waiting_for_a_connection_that_went_away_fails() {
    let pool = LanguageServerPool::new();
    let error = pool.wait_target(&key("lua"), BridgeError::Initializing).unwrap_err();
    assert_eq!(error.to_string(), "bridge: connection disappeared during wait");
}

#[test]
fn request_succeeds_when_state_is_ready() {
    let mut pool = LanguageServerPool::new();
    pool.insert_connection(handle("lua", 5, ConnectionState::Ready));
    assert!(matches!(
        pool.begin_acquire(&key("lua"), &config("lua-ls")),
        AcquireStep::UseExisting(5)
    ));
}

#[test]
fn failed_connection_retry_removes_cache_and_spawns_new_server() {
    let mut pool = LanguageServerPool::new();
    pool.insert_connection(handle("lua", 5, ConnectionState::Failed));
    pool.insert_connection(handle("ruff", 6, ConnectionState::Ready));
    let uri = VirtualDocumentUri::new("file:///doc.lua", "lua", "region-0");
    pool.register_opened_document("file:///doc.md", &uri, &key("lua"));
    pool.register_opened_document("file:///doc.md", &uri, &key("ruff"));
    let synced = HostDocSyncState { version: 1, fingerprint: 3 };
    pool.record_host_document("file:///doc.md", &key("lua"), synced);
    pool.record_host_document("file:///doc.md", &key("ruff"), synced);

    let AcquireStep::Spawn(stale) = pool.begin_acquire(&key("lua"), &config("lua-ls")) else {
        panic!("a failed connection is replaced");
    };
    assert!(stale.is_none(), "there is nobody to say goodbye to");
    assert!(pool.connection(&key("lua")).is_none());
    assert!(!pool.is_document_opened_on_connection(&uri, &key("lua")));
    assert!(pool.is_document_opened_on_connection(&uri, &key("ruff")));
    assert!(!pool.is_host_document_opened("file:///doc.md", "lua"));
    assert!(pool.is_host_document_opened("file:///doc.md", "ruff"));
    assert_eq!(pool.host_document_version("file:///doc.md", "ruff"), Some(1));
    assert_eq!(pool.host_document_version("file:///doc.md", "lua"), None);

    let id = pool.store_spawned(key("lua"), &config("lua-ls"), None);
    assert!(pool.is_live(&key("lua"), id));
    assert!(!pool.is_live(&key("lua"), 5));
}

#[test]
fn a_changed_configuration_replaces_a_ready_connection() {
    let mut pool = LanguageServerPool::new();
    spawn(&mut pool, "lua", &config("old"));
    let AcquireStep::Spawn(stale) = pool.begin_acquire(&key("lua"), &config("new")) else {
        panic!("another command needs another process");
    };
    let mut stale = stale.expect("the old process is to be shut down");
    assert_eq!(stale.state(), ConnectionState::Closing);
    assert!(pool.connection(&key("lua")).is_none());
    shutdown_invalidated_connection(&mut stale, ShutdownEnd::TimedOut);
    assert_eq!(stale.state(), ConnectionState::Closed);
    assert_eq!(RELOAD_SHUTDOWN_TIMEOUT_SECS, 3);
}

#[test]
fn a_handshake_makes_the_connection_ready_and_tells_it_its_settings() {
    let mut pool = LanguageServerPool::new();
    let settings = BridgeServerConfig {
        settings: Some(json("{\"a\": 1}")),
        ..config("lua-ls")
    };
    let id = spawn(&mut pool, "lua", &settings);
    let capabilities =
        ServerCapabilities { hover_provider: Some(Offer::Simple(true)), ..Default::default() };
    let push = pool.handshake_answered(&key("lua"), id, capabilities, true, &None);
    assert_eq!(push, Some(Some(json("{\"a\": 1}"))));
    assert_eq!(state_of(&pool, "lua"), Some(ConnectionState::Initializing));

    let (outcome, announce) = pool.publish_ready(&key("lua"), id, None).unwrap();
    assert!(outcome.is_none());
    assert!(!announce);
    assert_eq!(state_of(&pool, "lua"), Some(ConnectionState::Ready));
    assert!(pool.connection(&key("lua")).unwrap().has_capability("textDocument/hover"));
    assert_eq!(pool.finish_acquire(&key("lua"), id, HandshakeEnd::Ready).unwrap(), id);
}

#[test]
fn settings_are_told_where_they_were_promised_or_came_up() {
    let mut pool = LanguageServerPool::new();
    let id = spawn(&mut pool, "lua", &config("lua-ls"));
    let nothing = ServerCapabilities::default();
    assert_eq!(pool.handshake_answered(&key("lua"), id, nothing, false, &None), None);
    assert_eq!(pool.handshake_answered(&key("lua"), id, nothing, true, &None), Some(None));
}

#[test]
fn a_connection_that_was_taken_out_is_told_the_settings_it_served() {
    let mut pool = LanguageServerPool::new();
    let id = spawn(&mut pool, "lua", &config("lua-ls"));
    let nothing = ServerCapabilities::default();
    let served = Some(json("{\"a\": 1}"));
    let gone = id + 1;
    assert_eq!(
        pool.handshake_answered(&key("lua"), gone, nothing, false, &served),
        Some(served.clone())
    );
    assert_eq!(pool.handshake_answered(&key("lua"), gone, nothing, true, &None), Some(None));
    assert_eq!(pool.handshake_answered(&key("lua"), gone, nothing, false, &None), None);
    assert_eq!(pool.handshake_answered(&key("lua"), id, nothing, false, &served), None);
}

#[test]
fn a_server_without_a_command_list_has_stopped_offering_commands() {
    let mut pool = LanguageServerPool::new();
    pool.set_client_capabilities(ClientCapabilities {
        execute_command_dynamic_registration: Some(true),
    });
    let id = spawn(&mut pool, "lua", &config("lua-ls"));
    let (first, _) =
        pool.publish_ready(&key("lua"), id, Some(vec!["lua.fix".to_string()])).unwrap();
    let first = first.unwrap();
    assert!(first.orphaned.is_empty() && first.retired_encoded.is_empty());
    assert_eq!(pool.command_origins().reconnectable_origins("lua.fix"), vec![key("lua")]);

    pool.set_state(&key("lua"), id, ConnectionState::Failed);
    let again = spawn(&mut pool, "lua", &config("lua-ls"));
    let (outcome, announce) = pool.publish_ready(&key("lua"), again, None).unwrap();
    let outcome = outcome.expect("names were withdrawn");
    assert!(!announce);
    assert!(outcome.newly_advertised.is_empty() && outcome.newly_encoded.is_empty());
    assert_eq!(outcome.orphaned, vec!["lua.fix".to_string()]);
    assert_eq!(outcome.retired_encoded, first.newly_encoded);
    assert!(pool.command_origins().reconnectable_origins("lua.fix").is_empty());
    assert!(pool.command_origins().is_registered("lua.fix"));
}

#[test]
fn commands_are_announced_to_an_editor_that_takes_them() {
    let mut pool = LanguageServerPool::new();
    pool.set_client_capabilities(ClientCapabilities {
        execute_command_dynamic_registration: Some(true),
    });
    pool.set_client_capabilities(ClientCapabilities {
        execute_command_dynamic_registration: Some(false),
    });
    let id = spawn(&mut pool, "lua", &config("lua-ls"));
    let (outcome, announce) =
        pool.publish_ready(&key("lua"), id, Some(vec!["lua.fix".to_string()])).unwrap();
    assert!(announce, "the first word of the editor counts");
    assert_eq!(outcome.unwrap().newly_advertised, vec!["lua.fix".to_string()]);
    assert!(pool.command_origins().is_registered("lua.fix"));
}

#[test]
fn commands_are_recorded_but_not_announced_otherwise() {
    let mut pool = LanguageServerPool::new();
    let id = spawn(&mut pool, "lua", &config("lua-ls"));
    let (outcome, announce) =
        pool.publish_ready(&key("lua"), id, Some(vec!["lua.fix".to_string()])).unwrap();
    assert!(!announce);
    assert!(outcome.is_some());
    assert!(pool.command_origins().is_registered("lua.fix"));
}

#[test]
fn connection_transitions_to_failed_state_on_timeout() {
    let mut pool = LanguageServerPool::new();
    let id = spawn(&mut pool, "lua", &config("lua-ls"));
    let error = pool.handshake_timed_out(&key("lua"), id);
    assert_eq!(error.kind(), ErrorKind::TimedOut);
    assert_eq!(error.to_string(), "bridge: initialize timeout");
    assert_eq!(state_of(&pool, "lua"), Some(ConnectionState::Failed));
}

#[test]
fn recovery_works_after_initialization_timeout() {
    let mut pool = LanguageServerPool::new();
    let id = spawn(&mut pool, "lua", &config("lua-ls"));
    pool.handshake_timed_out(&key("lua"), id);
    let next = spawn(&mut pool, "lua", &config("lua-ls"));
    assert_ne!(id, next);
    pool.publish_ready(&key("lua"), next, None).unwrap();
    assert_eq!(state_of(&pool, "lua"), Some(ConnectionState::Ready));
}

#[test]
fn a_failed_handshake_keeps_its_kind() {
    let mut pool = LanguageServerPool::new();
    let id = spawn(&mut pool, "lua", &config("lua-ls"));
    let error = PoolError::of(ErrorKind::BrokenPipe, "gone");
    let reported =
        pool.handshake_failed(&key("lua"), id, ConnectionState::Initializing, error);
    assert_eq!(reported.kind(), ErrorKind::BrokenPipe);
    assert_eq!(reported.to_string(), "bridge: handshake failed: gone");
    assert_eq!(state_of(&pool, "lua"), Some(ConnectionState::Failed));
}

#[test]
fn a_handshake_that_shutdown_interrupts_hands_its_error_on() {
    let mut pool = LanguageServerPool::new();
    let id = spawn(&mut pool, "lua", &config("lua-ls"));
    pool.set_state(&key("lua"), id, ConnectionState::Closing);
    let reported = pool.handshake_failed(
        &key("lua"),
        id,
        ConnectionState::Initializing,
        PoolError::of(ErrorKind::BrokenPipe, "gone"),
    );
    assert_eq!(reported.to_string(), "gone");
    assert_eq!(state_of(&pool, "lua"), Some(ConnectionState::Closing));

    let error = pool.publish_ready(&key("lua"), id, None).err().unwrap();
    assert_eq!(error.kind(), ErrorKind::Interrupted);
    assert_eq!(
        error.to_string(),
        "bridge: connection was invalidated during initialization"
    );
}

#[test]
fn a_failed_handshake_of_a_connection_that_was_taken_out_goes_by_its_last_state() {
    let mut pool = LanguageServerPool::new();
    let id = spawn(&mut pool, "lua", &config("lua-ls"));
    for (last, text) in [
        (ConnectionState::Failed, "bridge: handshake failed: gone"),
        (ConnectionState::Initializing, "bridge: handshake failed: gone"),
        (ConnectionState::Closing, "gone"),
        (ConnectionState::Closed, "gone"),
    ] {
        let error = PoolError::of(ErrorKind::BrokenPipe, "gone");
        let reported = pool.handshake_failed(&key("lua"), id + 1, last, error);
        assert_eq!(reported.kind(), ErrorKind::BrokenPipe);
        assert_eq!(reported.to_string(), text);
        assert_eq!(state_of(&pool, "lua"), Some(ConnectionState::Initializing));
    }
}

#[test]
fn crashes_in_a_row_disable_a_server() {
    let mut pool = LanguageServerPool::new();
    for _ in 0..MAX_CONSECUTIVE_PANICS {
        let id = spawn(&mut pool, "lua", &config("lua-ls"));
        let error = pool
            .finish_acquire(&key("lua"), id, HandshakeEnd::Panicked("boom".to_string()))
            .unwrap_err();
        assert_eq!(error.to_string(), "bridge: handshake task panicked: boom");
        assert_eq!(state_of(&pool, "lua"), Some(ConnectionState::Failed));
    }
    assert!(matches!(
        pool.begin_acquire(&key("lua"), &config("lua-ls")),
        AcquireStep::FailFast(BridgeError::Disabled)
    ));
}

#[test]
fn a_success_or_a_cancellation_does_not_count_as_a_crash() {
    let mut pool = LanguageServerPool::new();
    for _ in 0..MAX_CONSECUTIVE_PANICS - 1 {
        let id = spawn(&mut pool, "lua", &config("lua-ls"));
        let _ = pool.finish_acquire(&key("lua"), id, HandshakeEnd::Panicked(String::new()));
    }
    let id = spawn(&mut pool, "lua", &config("lua-ls"));
    let error = pool.finish_acquire(&key("lua"), id, HandshakeEnd::Cancelled).unwrap_err();
    assert_eq!(error.kind(), ErrorKind::Interrupted);
    assert_eq!(error.to_string(), "bridge: handshake task cancelled");
    let id = spawn(&mut pool, "lua", &config("lua-ls"));
    pool.finish_acquire(&key("lua"), id, HandshakeEnd::Ready).unwrap();
    pool.set_state(&key("lua"), id, ConnectionState::Failed);
    let id = spawn(&mut pool, "lua", &config("lua-ls"));
    let _ = pool.finish_acquire(&key("lua"), id, HandshakeEnd::Panicked(String::new()));
    spawn(&mut pool, "lua", &config("lua-ls"));
}

#[test]
fn a_handshake_asks_waits_and_confirms() {
    let capabilities =
        ServerCapabilities { hover_provider: Some(Offer::Options), ..Default::default() };
    let step = perform_lsp_handshake(
        HandshakeStep::AskInitialize,
        HandshakeEvent::Sent(NotificationSendResult::Queued),
    );
    assert!(matches!(step, HandshakeStep::AwaitAnswer));
    let step = perform_lsp_handshake(step, HandshakeEvent::Answered(Ok(capabilities)));
    assert!(matches!(step, HandshakeStep::SayInitialized(_)));
    let step =
        perform_lsp_handshake(step, HandshakeEvent::Sent(NotificationSendResult::Queued));
    let HandshakeStep::Done(found) = step else {
        panic!("the handshake is complete");
    };
    assert_eq!(found, capabilities);
}

fn failure(step: HandshakeStep, event: HandshakeEvent) -> (ErrorKind, String) {
    match perform_lsp_handshake(step, event) {
        HandshakeStep::Failed(error) => (error.kind(), error.to_string()),
        _ => panic!("the handshake fails"),
    }
}

#[test]
fn a_handshake_fails_with_what_went_wrong() {
    let nothing = ServerCapabilities::default();
    assert_eq!(
        failure(HandshakeStep::AwaitAnswer, HandshakeEvent::NoAnswer),
        (ErrorKind::Other, "bridge: initialize response channel closed".to_string())
    );
    assert_eq!(
        failure(
            HandshakeStep::AwaitAnswer,
            HandshakeEvent::Answered(Err(PoolError::of(ErrorKind::InvalidData, "bad")))
        ),
        (ErrorKind::InvalidData, "bad".to_string())
    );
    for (result, kind, text) in [
        (
            NotificationSendResult::QueueFull,
            ErrorKind::WouldBlock,
            "bridge: initialized notification queue full",
        ),
        (
            NotificationSendResult::ChannelClosed,
            ErrorKind::BrokenPipe,
            "bridge: initialized notification channel closed",
        ),
        (
            NotificationSendResult::SerializationFailed,
            ErrorKind::InvalidData,
            "bridge: failed to serialize initialized notification",
        ),
    ] {
        assert_eq!(
            failure(HandshakeStep::SayInitialized(nothing), HandshakeEvent::Sent(result)),
            (kind, text.to_string())
        );
        assert!(matches!(
            perform_lsp_handshake(HandshakeStep::AskInitialize, HandshakeEvent::Sent(result)),
            HandshakeStep::Failed(_)
        ));
    }
}

#[test]
fn propagate_settings_updates_changed_connections() {
    let mut pool = LanguageServerPool::new();
    let mut ra = handle("rust-analyzer", 1, ConnectionState::Ready);
    let mut lua = handle("lua", 2, ConnectionState::Ready);
    ra.record_launch_config(&BridgeServerConfig {
        settings: Some(json("{\"not-retained\": true}")),
        ..Default::default()
    });
    lua.record_launch_config(&BridgeServerConfig::default());
    assert!(ra.launch_config().unwrap().settings.is_none());
    let lua_value = json("{\"Lua\": {\"telemetry\": {\"enable\": false}}}");
    lua.store_settings(Some(lua_value.clone()));
    pool.insert_connection(ra);
    pool.insert_connection(lua);

    let ra_value = json("{\"rust-analyzer\": {\"cargo\": {\"features\": \"all\"}}}");
    let resolve = |name: &str| {
        let settings = match name {
            "rust-analyzer" => Some(ra_value.clone()),
            "lua" => Some(lua_value.clone()),
            _ => return None,
        };
        Some(BridgeServerConfig { settings, ..Default::default() })
    };
    let plan = pool.propagate_settings(resolve);
    assert!(plan.stale.is_empty());
    assert_eq!(
        plan.pushes.len(),
        1,
        "only the changed connection is pushed — the unchanged one does not storm"
    );
    assert_eq!(plan.pushes[0].target, ConnectionRef { key: key("rust-analyzer"), id: 1 });
    assert_eq!(plan.pushes[0].settings, Some(ra_value.clone()));
    assert_eq!(
        pool.connection(&key("rust-analyzer")).unwrap().current_settings(),
        &Some(ra_value.clone()),
        "changed connection's cell is updated to the resolved value"
    );
    assert_eq!(
        pool.connection(&key("lua")).unwrap().current_settings(),
        &Some(lua_value.clone()),
        "unchanged connection keeps its settings"
    );
    assert!(
        pool.propagate_settings(resolve).pushes.is_empty(),
        "an unchanged reload pushes nothing"
    );
}

#[test]
fn propagate_settings_updates_but_does_not_notify_initializing_connection() {
    let mut pool = LanguageServerPool::new();
    pool.insert_connection(handle("rust-analyzer", 1, ConnectionState::Initializing));
    let value = json("{\"rust-analyzer\": {\"cargo\": {\"features\": \"all\"}}}");
    let plan = pool.propagate_settings(|_: &str| {
        Some(BridgeServerConfig { settings: Some(value.clone()), ..Default::default() })
    });
    assert!(plan.pushes.is_empty(), "an initializing connection is not notified");
    assert_eq!(
        pool.connection(&key("rust-analyzer")).unwrap().current_settings(),
        &Some(value.clone()),
        "but its cell is advanced"
    );
}

#[test]
fn propagate_settings_no_connections_is_noop() {
    let mut pool = LanguageServerPool::new();
    let plan = pool.propagate_settings(|_: &str| {
        Some(BridgeServerConfig { settings: Some(json("{\"x\": 1}")), ..Default::default() })
    });
    assert!(plan.pushes.is_empty(), "no live connections → nothing pushed");
    assert!(plan.stale.is_empty());
}

#[test]
fn propagate_settings_invalidates_changed_and_removed_launch_configs() {
    let mut pool = LanguageServerPool::new();
    let mut changed = handle("changed", 1, ConnectionState::Initializing);
    let mut removed = handle("removed", 2, ConnectionState::Ready);
    let mut unchanged = handle("unchanged", 3, ConnectionState::Ready);
    changed.record_launch_config(&config("old-server"));
    removed.record_launch_config(&config("removed-server"));
    unchanged.record_launch_config(&config("stable-server"));
    pool.insert_connection(changed);
    pool.insert_connection(removed);
    pool.insert_connection(unchanged);
    let uri = VirtualDocumentUri::new("file:///doc.lua", "lua", "region-0");
    pool.register_opened_document("file:///doc.md", &uri, &key("removed"));
    pool.register_opened_document("file:///doc.md", &uri, &key("unchanged"));

    let mut plan = pool.propagate_settings(|name: &str| match name {
        "changed" => Some(config("new-server")),
        "removed" => None,
        "unchanged" => Some(config("stable-server")),
        _ => unreachable!(),
    });

    assert!(pool.connection(&key("changed")).is_none());
    assert!(pool.connection(&key("removed")).is_none());
    assert!(pool.connection(&key("unchanged")).is_some());
    assert_eq!(plan.stale.len(), 2);
    assert_eq!(plan.stale[0].key(), &key("changed"));
    assert_eq!(plan.stale[0].state(), ConnectionState::Closing);
    assert!(
        !plan.stale[0].transition_initializing_to_ready(),
        "a completing handshake must not resurrect an invalidated connection"
    );
    assert_eq!(plan.stale[1].state(), ConnectionState::Closing);
    assert_eq!(state_of(&pool, "unchanged"), Some(ConnectionState::Ready));
    assert!(!pool.is_document_opened_on_connection(&uri, &key("removed")));
    assert!(pool.is_document_opened_on_connection(&uri, &key("unchanged")));
}

#[test]
fn only_queued_pushes_count() {
    assert_eq!(
        count_pushed(&vec![
            NotificationSendResult::Queued,
            NotificationSendResult::QueueFull,
            NotificationSendResult::Queued,
            NotificationSendResult::ChannelClosed,
        ]),
        2
    );
    assert_eq!(count_pushed(&vec![]), 0);
}

#[test]
fn shutdown_deals_with_every_state() {
    let mut pool = LanguageServerPool::new();
    pool.insert_connection(handle("ready", 1, ConnectionState::Ready));
    pool.insert_connection(handle("init", 2, ConnectionState::Initializing));
    pool.insert_connection(handle("failed", 3, ConnectionState::Failed));
    pool.insert_connection(handle("closing", 4, ConnectionState::Closing));
    pool.insert_connection(handle("closed", 5, ConnectionState::Closed));

    let targets = pool.begin_shutdown_all();
    assert_eq!(
        targets,
        vec![
            ConnectionRef { key: key("ready"), id: 1 },
            ConnectionRef { key: key("init"), id: 2 },
        ]
    );
    assert_eq!(state_of(&pool, "failed"), Some(ConnectionState::Closed));
    assert_eq!(state_of(&pool, "closing"), Some(ConnectionState::Closing));
    assert_eq!(state_of(&pool, "closed"), Some(ConnectionState::Closed));

    for target in &targets {
        let mut step = pool.graceful_shutdown(target);
        assert_eq!(step, ShutdownStep::StopWriter);
        while step != ShutdownStep::Done {
            step = pool.shutdown_went(target, step, true);
        }
    }
    assert_eq!(state_of(&pool, "ready"), Some(ConnectionState::Closed));
    assert_eq!(state_of(&pool, "init"), Some(ConnectionState::Closed));
    assert!(pool.begin_shutdown_all().is_empty());
}

#[test]
fn shutdown_with_timeout_ensures_all_connections_closed() {
    let mut pool = LanguageServerPool::new();
    pool.insert_connection(handle("hung", 1, ConnectionState::Ready));
    pool.insert_connection(handle("slow", 2, ConnectionState::Closing));
    let targets = pool.begin_shutdown_all();
    pool.graceful_shutdown(&targets[0]);

    let left = pool.force_kill_all();
    assert_eq!(left.len(), 2);
    for (target, end) in left.iter().zip([ShutdownEnd::TimedOut, ShutdownEnd::Crashed]) {
        pool.force_killed(target, end);
    }
    assert_eq!(state_of(&pool, "hung"), Some(ConnectionState::Closed));
    assert_eq!(state_of(&pool, "slow"), Some(ConnectionState::Closed));
    assert!(pool.force_kill_all().is_empty());
    assert_eq!(FORCE_KILL_TIMEOUT_SECS, 3);
}

#[test]
fn rejects_new_connection_spawn_after_shutdown() {
    let mut pool = LanguageServerPool::new();
    pool.begin_shutdown_all();
    let AcquireStep::Reject(error) = pool.begin_acquire(&key("lua"), &config("lua-ls")) else {
        panic!("a pool that is being taken down starts nothing");
    };
    assert_eq!(error.kind(), ErrorKind::Interrupted);
    assert_eq!(
        error.to_string(),
        "bridge pool is shutting down; rejecting new connection spawn"
    );
    assert!(pool.connection(&key("lua")).is_none());
}

#[test]
fn init_times_out_when_server_unresponsive() {
    let mut pool = LanguageServerPool::new();
    let id = spawn(&mut pool, "test", &config("unresponsive"));
    assert_eq!(pool.handshake_timed_out(&key("test"), id).kind(), ErrorKind::TimedOut);
    let late = pool.handshake_timed_out(&key("test"), id + 1);
    assert_eq!(late.kind(), ErrorKind::TimedOut);
}

#[test]
fn ensure_server_ready_is_idempotent() {
    let mut pool = LanguageServerPool::new();
    let id = spawn(&mut pool, "test-server", &config("test-server"));
    assert!(matches!(
        pool.begin_acquire(&key("test-server"), &config("test-server")),
        AcquireStep::FailFast(BridgeError::Initializing)
    ));
    pool.publish_ready(&key("test-server"), id, None).unwrap();
    let again = pool.begin_acquire(&key("test-server"), &config("test-server"));
    assert!(matches!(again, AcquireStep::UseExisting(found) if found == id));
}

#[test]
fn request_during_failed_triggers_retry_with_new_server() {
    let mut pool = LanguageServerPool::new();
    pool.insert_connection(handle("lua", 40, ConnectionState::Failed));
    let id = spawn(&mut pool, "lua", &config("lua-ls"));
    pool.publish_ready(&key("lua"), id, None).unwrap();
    assert_eq!(
        state_of(&pool, "lua"),
        Some(ConnectionState::Ready),
        "Connection should be Ready after retry"
    );
}

#[test]
fn different_marker_roots_create_separate_connections() {
    let mut pool = LanguageServerPool::new();
    let one = ConnectionKey::new("pyright", Some("file:///w/a".to_string()));
    let two = ConnectionKey::new("pyright", Some("file:///w/b".to_string()));
    for root in [&one, &two] {
        assert!(matches!(pool.begin_acquire(root, &config("pyright")), AcquireStep::Spawn(None)));
        pool.store_spawned(root.clone(), &config("pyright"), None);
    }
    let first = pool.connection(&one).expect("root A connection present").id();
    let second = pool.connection(&two).expect("root B connection present").id();
    assert_ne!(
        first, second,
        "each marker root must get its own pooled connection, not share one"
    );
}

fn waited(pool: &LanguageServerPool, name: &str, news: StateNews) -> Option<Result<(), PoolError>> {
    pool.connection(&key(name)).unwrap().wait_for_ready(news)
}

#[test]
fn get_or_create_connection_wait_ready_waits_for_initializing_server() {
    let mut pool = LanguageServerPool::new();
    let id = spawn(&mut pool, "test-server", &config("slow"));
    let AcquireStep::FailFast(refusal) = pool.begin_acquire(&key("test-server"), &config("slow"))
    else {
        panic!("somebody else is starting it");
    };
    assert_eq!(pool.wait_target(&key("test-server"), refusal).unwrap(), id);
    assert!(waited(&pool, "test-server", StateNews::Changed).is_none());
    pool.publish_ready(&key("test-server"), id, None).unwrap();
    assert!(waited(&pool, "test-server", StateNews::Changed).unwrap().is_ok());
}

#[test]
fn get_or_create_connection_wait_ready_fails_when_server_fails() {
    let mut pool = LanguageServerPool::new();
    let id = spawn(&mut pool, "test-server", &config("broken"));
    pool.handshake_timed_out(&key("test-server"), id);
    let error = waited(&pool, "test-server", StateNews::Changed).unwrap().unwrap_err();
    assert!(
        error.to_string().contains("failed during initialization"),
        "Error should mention initialization failure: {}",
        error.to_string()
    );
}

#[test]
fn get_or_create_connection_wait_ready_times_out() {
    let mut pool = LanguageServerPool::new();
    spawn(&mut pool, "test-server", &config("slow"));
    let error = waited(&pool, "test-server", StateNews::TimedOut).unwrap().unwrap_err();
    assert_eq!(error.kind(), ErrorKind::TimedOut, "Error should be TimedOut");
}

#[test]
fn get_or_create_connection_wait_ready_returns_immediately_when_ready() {
    let mut pool = LanguageServerPool::new();
    pool.insert_connection(handle("lua", 1, ConnectionState::Ready));
    assert!(matches!(
        pool.begin_acquire(&key("lua"), &config("lua-ls")),
        AcquireStep::UseExisting(1)
    ));
    assert!(waited(&pool, "lua", StateNews::Changed).unwrap().is_ok());
}

#[test]
fn shutdown_all_handles_multiple_connections_in_parallel() {
    let mut pool = LanguageServerPool::new();
    pool.insert_connection(handle("lua", 1, ConnectionState::Ready));
    pool.insert_connection(handle("python", 2, ConnectionState::Failed));
    pool.insert_connection(handle("rust", 3, ConnectionState::Closing));
    let targets = pool.begin_shutdown_all();
    assert_eq!(targets.len(), 1);
    let mut step = pool.graceful_shutdown(&targets[0]);
    while step != ShutdownStep::Done {
        step = pool.shutdown_went(&targets[0], step, false);
    }
    for target in pool.force_kill_all() {
        pool.force_killed(&target, ShutdownEnd::TimedOut);
    }
    for (name, text) in [
        ("lua", "Ready connection should be Closed after shutdown_all"),
        ("python", "Failed connection should be Closed after shutdown_all"),
        ("rust", "Closing connection should be Closed after global timeout triggers force_kill_all"),
    ] {
        assert_eq!(state_of(&pool, name), Some(ConnectionState::Closed), "{}", text);
    }
}

#[test]
fn a_shutdown_of_a_replaced_connection_leaves_its_successor_alone() {
    let mut pool = LanguageServerPool::new();
    pool.insert_connection(handle("lua", 2, ConnectionState::Ready));
    let older = ConnectionRef { key: key("lua"), id: 1 };
    let mut step = pool.graceful_shutdown(&older);
    assert_eq!(step, ShutdownStep::StopWriter, "its process is still to be stopped");
    while step != ShutdownStep::Done {
        assert_eq!(state_of(&pool, "lua"), Some(ConnectionState::Ready));
        step = pool.shutdown_went(&older, step, true);
    }
    pool.force_killed(&older, ShutdownEnd::TimedOut);
    assert_eq!(state_of(&pool, "lua"), Some(ConnectionState::Ready));
}

#[test]
fn a_connection_is_changed_in_place() {
    let mut pool = LanguageServerPool::new();
    pool.insert_connection(handle("lua", 1, ConnectionState::Ready));
    pool.connection_mut(&key("lua")).unwrap().store_settings(Some(json("[1]")));
    assert_eq!(pool.connection(&key("lua")).unwrap().current_settings(), &Some(json("[1]")));
    assert!(pool.connection_mut(&key("ruff")).is_none());
    pool.command_origins_mut().register(&key("lua"), vec!["lua.fix".to_string()]);
    assert!(pool.command_origins().is_registered("lua.fix"));
}

#[test]
fn a_connection_that_is_shut_down_does_not_come_back() {
    let mut pool = LanguageServerPool::new();
    let id = spawn(&mut pool, "lua", &config("lua-ls"));
    let targets = pool.begin_shutdown_all();
    assert_eq!(targets, vec![ConnectionRef { key: key("lua"), id }]);
    pool.graceful_shutdown(&targets[0]);
    assert!(pool.publish_ready(&key("lua"), id, None).is_err());
    pool.handshake_timed_out(&key("lua"), id);
    assert!(pool.publish_ready(&key("lua"), id, None).is_err());
    pool.force_killed(&targets[0], ShutdownEnd::TimedOut);
    assert!(pool.publish_ready(&key("lua"), id, None).is_err());
    assert_eq!(state_of(&pool, "lua"), Some(ConnectionState::Closed));
}
