use bridge_pool::connection_action::{
    decide_connection_action, BridgeError, ConnectionAction, MAX_CONSECUTIVE_PANICS,
};
use bridge_pool::connection_handle::{
    ConnectionHandle, NotificationSendResult, ResponseNews, ShutdownStep, StateNews,
    REQUEST_TIMEOUT_SECS,
};
use bridge_pool::connection_key::ConnectionKey;
use bridge_pool::connection_state::ConnectionState;
use bridge_pool::dynamic_capability_registry::Registration;
use bridge_pool::error::ErrorKind;
use bridge_pool::server_capabilities::{
    ChangeNotifications, CompletionOptions, Offer, RenameOffer, RenameOptions, ServerCapabilities,
    WorkspaceFoldersSupport,
};
use bridge_pool::settings::BridgeServerConfig;
use bridge_pool::workspace_folders::WorkspaceFolderSet;

fn handle_in(state: ConnectionState) -> ConnectionHandle {
    ConnectionHandle::with_state(
        ConnectionKey::for_server("test"),
        1,
        state,
        None,
        WorkspaceFolderSet::new(None),
    )
}

fn capable(capabilities: ServerCapabilities) -> ConnectionHandle {
    let mut handle = handle_in(ConnectionState::Ready);
    handle.set_server_capabilities(capabilities);
    handle
}

#[test]
fn connection_handle_provides_unique_request_ids() {
    let mut handle = handle_in(ConnectionState::Ready);
    let id1 = handle.next_request_id();
    let id2 = handle.next_request_id();
    let id3 = handle.next_request_id();
    assert_eq!(id1, 2, "First user request ID should be 2 (1 is reserved for initialize)");
    assert_eq!(id2, 3, "Second user request ID should be 3");
    assert_eq!(id3, 4, "Third user request ID should be 4");
}

#[test]
fn connection_handle_wraps_connection_with_state() {
    let mut handle = handle_in(ConnectionState::Ready);
    assert_eq!(handle.state(), ConnectionState::Ready);
    handle.set_state(ConnectionState::Failed);
    assert_eq!(handle.state(), ConnectionState::Failed);
    handle.set_state(ConnectionState::Initializing);
    assert_eq!(handle.state(), ConnectionState::Initializing);
}

#[test]
fn liveness_timeout_transitions_to_failed_state() {
    let mut handle = handle_in(ConnectionState::Ready);
    assert_eq!(handle.state(), ConnectionState::Ready);
    assert_eq!(handle.register_request(2, true, true).unwrap(), (2, true));
    let failed: serde_json::Value = serde_json::from_str(
        r#"{ "id": 2, "error": { "code": -32603, "message": "bridge: liveness timeout" } }"#,
    )
    .unwrap();
    let (result, forget) = handle.wait_for_response(ResponseNews::Arrived(failed), true);
    let response = result.expect("should receive error response from fail_all");
    assert!(response.get("error").is_some(), "Response should be an error: {:?}", response);
    assert!(
        response["error"]["message"].as_str().unwrap_or("").contains("liveness timeout"),
        "Error should mention liveness timeout"
    );
    assert!(!forget);
    assert_eq!(
        handle.state(),
        ConnectionState::Failed,
        "Connection should transition to Failed state on liveness timeout"
    );
}

#[test]
fn a_response_that_never_comes_from_a_silent_server_fails_the_connection() {
    let mut handle = handle_in(ConnectionState::Ready);
    let (result, forget) = handle.wait_for_response(ResponseNews::Gone, true);
    let error = result.unwrap_err();
    assert_eq!(error.kind(), ErrorKind::Other);
    assert_eq!(error.to_string(), "bridge: response channel closed");
    assert!(!forget);
    assert_eq!(handle.state(), ConnectionState::Failed);
}

#[test]
fn a_response_is_handed_on_and_leaves_the_connection_ready() {
    let mut handle = handle_in(ConnectionState::Ready);
    let value: serde_json::Value = serde_json::from_str("{\"id\": 2}").unwrap();
    let (result, forget) = handle.wait_for_response(ResponseNews::Arrived(value.clone()), false);
    assert_eq!(result.unwrap(), value);
    assert!(!forget);
    assert_eq!(handle.state(), ConnectionState::Ready);
}

#[test]
fn a_request_that_takes_too_long_is_forgotten() {
    let mut handle = handle_in(ConnectionState::Ready);
    let (result, forget) = handle.wait_for_response(ResponseNews::TimedOut, true);
    let error = result.unwrap_err();
    assert_eq!(error.kind(), ErrorKind::TimedOut);
    assert_eq!(error.to_string(), "bridge: request timeout");
    assert!(forget);
    assert_eq!(handle.state(), ConnectionState::Ready);
    assert_eq!(REQUEST_TIMEOUT_SECS, 30);
}

#[test]
fn liveness_timer_does_not_start_in_closing_state() {
    let mut handle = handle_in(ConnectionState::Ready);
    handle.begin_shutdown();
    assert_eq!(handle.state(), ConnectionState::Closing);
    assert_eq!(handle.register_request(2, true, true).unwrap(), (2, false));
}

#[test]
fn the_first_pending_request_of_a_ready_connection_starts_the_watch() {
    let handle = handle_in(ConnectionState::Ready);
    assert_eq!(handle.register_request(2, true, true).unwrap(), (2, true));
    assert_eq!(handle.register_request(3, true, false).unwrap(), (3, false));
    let error = handle.register_request(3, false, false).unwrap_err();
    assert_eq!(error.to_string(), "bridge: duplicate request ID");
}

#[test]
fn wait_for_ready_returns_immediately_when_ready() {
    let handle = handle_in(ConnectionState::Ready);
    assert!(matches!(handle.wait_for_ready(StateNews::Changed), Some(Ok(()))));
}

#[test]
fn wait_for_ready_waits_for_initialization() {
    let mut handle = handle_in(ConnectionState::Initializing);
    assert!(handle.wait_for_ready(StateNews::Changed).is_none());
    assert!(handle.transition_initializing_to_ready());
    assert!(matches!(handle.wait_for_ready(StateNews::Changed), Some(Ok(()))));
    assert_eq!(handle.state(), ConnectionState::Ready);
    assert!(!handle.transition_initializing_to_ready());
}

#[test]
fn wait_for_ready_fails_on_failed_state() {
    let handle = handle_in(ConnectionState::Failed);
    let error = handle.wait_for_ready(StateNews::Changed).unwrap().unwrap_err();
    assert_eq!(error.to_string(), "bridge: server failed during initialization");
}

#[test]
fn wait_for_ready_times_out() {
    let handle = handle_in(ConnectionState::Initializing);
    let error = handle.wait_for_ready(StateNews::TimedOut).unwrap().unwrap_err();
    assert_eq!(error.kind(), ErrorKind::TimedOut);
    assert_eq!(error.to_string(), "bridge: wait for ready timeout");
    let error = handle.wait_for_ready(StateNews::Gone).unwrap().unwrap_err();
    assert_eq!(error.kind(), ErrorKind::Other);
    assert_eq!(error.to_string(), "bridge: state channel closed");
}

#[test]
fn wait_for_ready_fails_on_shutdown() {
    for state in [ConnectionState::Closing, ConnectionState::Closed] {
        let handle = handle_in(state);
        let error = handle.wait_for_ready(StateNews::Changed).unwrap().unwrap_err();
        assert_eq!(error.to_string(), "bridge: server shutdown during wait");
    }
}

#[test]
fn server_capabilities_returns_none_before_init() {
    let handle = handle_in(ConnectionState::Ready);
    assert!(handle.server_capabilities().is_none());
}

#[test]
fn server_capabilities_returns_typed_struct() {
    let mut handle = capable(ServerCapabilities {
        hover_provider: Some(Offer::Simple(true)),
        completion_provider: Some(CompletionOptions { resolve_provider: None }),
        diagnostic_provider: true,
        ..Default::default()
    });
    let caps = *handle.server_capabilities().unwrap();
    assert!(caps.hover_provider.is_some());
    assert!(caps.completion_provider.is_some());
    assert!(caps.diagnostic_provider);

    handle.set_server_capabilities(ServerCapabilities::default());
    assert_eq!(handle.server_capabilities(), Some(&caps), "only the first word counts");
}

#[test]
fn server_capabilities_default_has_none_fields() {
    let handle = capable(ServerCapabilities::default());
    let caps = handle.server_capabilities().unwrap();
    assert!(caps.hover_provider.is_none());
    assert!(!caps.diagnostic_provider);
    assert!(caps.completion_provider.is_none());
}

#[test]
fn has_capability_returns_false_when_no_capabilities() {
    let handle = handle_in(ConnectionState::Ready);
    assert!(!handle.has_capability("textDocument/diagnostic"));
}

fn diagnostics() -> ServerCapabilities {
    ServerCapabilities { diagnostic_provider: true, ..Default::default() }
}

fn registration(method: &str) -> Registration {
    Registration { id: "1".to_string(), method: method.to_string(), register_options: None }
}

#[test]
fn has_capability_returns_true_with_static_only() {
    assert!(capable(diagnostics()).has_capability("textDocument/diagnostic"));
}

#[test]
fn has_capability_returns_true_with_dynamic_only() {
    let mut handle = handle_in(ConnectionState::Ready);
    handle.dynamic_capabilities_mut().register(vec![registration("textDocument/diagnostic")]);
    assert!(handle.has_capability("textDocument/diagnostic"));
    assert!(handle.dynamic_capabilities().has_registration("textDocument/diagnostic"));
}

#[test]
fn has_capability_returns_true_with_both() {
    let mut handle = capable(diagnostics());
    handle.dynamic_capabilities_mut().register(vec![registration("textDocument/diagnostic")]);
    assert!(handle.has_capability("textDocument/diagnostic"));
}

#[test]
fn has_capability_returns_false_for_unknown_method() {
    assert!(!capable(diagnostics()).has_capability("textDocument/someUnknownMethod"));
}

fn with(set: fn(&mut ServerCapabilities)) -> ServerCapabilities {
    let mut capabilities = ServerCapabilities::default();
    set(&mut capabilities);
    capabilities
}

#[test]
fn has_capability_returns_true_for_enabled_providers() {
    let cases: Vec<(&str, ServerCapabilities)> = vec![
        ("textDocument/hover", with(|c| c.hover_provider = Some(Offer::Simple(true)))),
        (
            "textDocument/completion",
            with(|c| c.completion_provider = Some(CompletionOptions { resolve_provider: None })),
        ),
        ("textDocument/definition", with(|c| c.definition_provider = Some(Offer::Simple(true)))),
        (
            "textDocument/typeDefinition",
            with(|c| c.type_definition_provider = Some(Offer::Simple(true))),
        ),
        ("textDocument/declaration", with(|c| c.declaration_provider = Some(Offer::Simple(true)))),
        (
            "textDocument/implementation",
            with(|c| c.implementation_provider = Some(Offer::Simple(true))),
        ),
        ("textDocument/references", with(|c| c.references_provider = Some(Offer::Simple(true)))),
        (
            "textDocument/documentHighlight",
            with(|c| c.document_highlight_provider = Some(Offer::Simple(true))),
        ),
        ("textDocument/signatureHelp", with(|c| c.signature_help_provider = true)),
        ("textDocument/documentLink", with(|c| c.document_link_provider = true)),
        ("textDocument/rename", with(|c| c.rename_provider = Some(RenameOffer::Simple(true)))),
        (
            "textDocument/prepareRename",
            with(|c| {
                c.rename_provider = Some(RenameOffer::Options(RenameOptions {
                    prepare_provider: Some(true),
                }))
            }),
        ),
        (
            "textDocument/rename",
            with(|c| {
                c.rename_provider =
                    Some(RenameOffer::Options(RenameOptions { prepare_provider: None }))
            }),
        ),
        ("textDocument/moniker", with(|c| c.moniker_provider = Some(Offer::Simple(true)))),
        ("textDocument/inlayHint", with(|c| c.inlay_hint_provider = Some(Offer::Simple(true)))),
        (
            "textDocument/documentSymbol",
            with(|c| c.document_symbol_provider = Some(Offer::Simple(true))),
        ),
        ("textDocument/documentColor", with(|c| c.color_provider = Some(Offer::Simple(true)))),
        ("textDocument/colorPresentation", with(|c| c.color_provider = Some(Offer::Simple(true)))),
        ("textDocument/documentColor", with(|c| c.color_provider = Some(Offer::Options))),
        ("textDocument/declaration", with(|c| c.declaration_provider = Some(Offer::Options))),
        ("textDocument/codeLens", with(|c| c.code_lens_provider = true)),
        ("textDocument/foldingRange", with(|c| c.folding_range_provider = Some(Offer::Options))),
        (
            "textDocument/linkedEditingRange",
            with(|c| c.linked_editing_range_provider = Some(Offer::Simple(true))),
        ),
        (
            "textDocument/formatting",
            with(|c| c.document_formatting_provider = Some(Offer::Simple(true))),
        ),
        (
            "textDocument/rangeFormatting",
            with(|c| c.document_range_formatting_provider = Some(Offer::Options)),
        ),
    ];

    for (method, capabilities) in cases {
        assert!(
            capable(capabilities).has_capability(method),
            "has_capability({method}) should return true when enabled",
        );
    }
}

#[test]
fn has_capability_returns_false_for_explicitly_disabled() {
    let no = Some(Offer::Simple(false));
    let all_off = ServerCapabilities {
        hover_provider: no,
        definition_provider: no,
        type_definition_provider: no,
        declaration_provider: no,
        implementation_provider: no,
        references_provider: no,
        document_highlight_provider: no,
        rename_provider: Some(RenameOffer::Simple(false)),
        moniker_provider: no,
        inlay_hint_provider: no,
        document_symbol_provider: no,
        color_provider: no,
        folding_range_provider: no,
        linked_editing_range_provider: no,
        document_formatting_provider: no,
        document_range_formatting_provider: no,
        ..Default::default()
    };
    let handle = capable(all_off);
    for method in [
        "textDocument/hover",
        "textDocument/definition",
        "textDocument/typeDefinition",
        "textDocument/declaration",
        "textDocument/implementation",
        "textDocument/references",
        "textDocument/documentHighlight",
        "textDocument/rename",
        "textDocument/moniker",
        "textDocument/inlayHint",
        "textDocument/documentSymbol",
        "textDocument/documentColor",
        "textDocument/colorPresentation",
        "textDocument/foldingRange",
        "textDocument/linkedEditingRange",
        "textDocument/formatting",
        "textDocument/rangeFormatting",
    ] {
        assert!(
            !handle.has_capability(method),
            "has_capability({method}) should return false when explicitly disabled",
        );
    }
    // Renaming without a word about preparing it.
    let handle = capable(with(|c| c.rename_provider = Some(RenameOffer::Simple(true))));
    assert!(!handle.has_capability("textDocument/prepareRename"));
    let handle = capable(with(|c| {
        c.rename_provider =
            Some(RenameOffer::Options(RenameOptions { prepare_provider: Some(false) }))
    }));
    assert!(!handle.has_capability("textDocument/prepareRename"));
}

#[test]
fn has_capability_returns_false_for_unset_providers() {
    let handle = capable(ServerCapabilities::default());
    for method in [
        "textDocument/hover",
        "textDocument/completion",
        "textDocument/definition",
        "textDocument/typeDefinition",
        "textDocument/declaration",
        "textDocument/implementation",
        "textDocument/references",
        "textDocument/documentHighlight",
        "textDocument/signatureHelp",
        "textDocument/documentLink",
        "textDocument/rename",
        "textDocument/prepareRename",
        "textDocument/moniker",
        "textDocument/inlayHint",
        "textDocument/documentColor",
        "textDocument/colorPresentation",
    ] {
        assert!(!handle.has_capability(method), "{method}");
    }
}

fn completion(resolve_provider: Option<bool>) -> ConnectionHandle {
    capable(ServerCapabilities {
        completion_provider: Some(CompletionOptions { resolve_provider }),
        ..Default::default()
    })
}

#[test]
fn completion_resolve_capability_true_when_resolve_provider_true() {
    assert!(completion(Some(true)).has_capability("completionItem/resolve"));
}

#[test]
fn completion_resolve_capability_false_when_resolve_provider_false() {
    assert!(!completion(Some(false)).has_capability("completionItem/resolve"));
}

#[test]
fn completion_resolve_capability_false_when_resolve_provider_absent() {
    assert!(!completion(None).has_capability("completionItem/resolve"));
}

#[test]
fn completion_resolve_capability_false_when_no_completion_provider() {
    assert!(!capable(ServerCapabilities::default()).has_capability("completionItem/resolve"));
}

#[test]
fn folder_changes_need_both_words() {
    let support = |supported, change_notifications| {
        capable(ServerCapabilities {
            workspace_folders: Some(WorkspaceFoldersSupport { supported, change_notifications }),
            ..Default::default()
        })
        .supports_workspace_folder_changes()
    };
    assert!(support(Some(true), Some(ChangeNotifications::Flag(true))));
    assert!(support(Some(true), Some(ChangeNotifications::Registered)));
    assert!(!support(Some(true), Some(ChangeNotifications::Flag(false))));
    assert!(!support(Some(true), None));
    assert!(!support(Some(false), Some(ChangeNotifications::Flag(true))));
    assert!(!support(None, Some(ChangeNotifications::Flag(true))));
    assert!(!handle_in(ConnectionState::Ready).supports_workspace_folder_changes());
}

#[test]
fn ready_to_closing_transition() {
    let mut handle = handle_in(ConnectionState::Ready);
    assert_eq!(handle.state(), ConnectionState::Ready, "Should start in Ready state");
    handle.begin_shutdown();
    assert_eq!(handle.state(), ConnectionState::Closing, "Ready + shutdown signal = Closing");
}

#[test]
fn initializing_to_closing_transition() {
    let mut handle = handle_in(ConnectionState::Initializing);
    handle.begin_shutdown();
    assert_eq!(
        handle.state(),
        ConnectionState::Closing,
        "Initializing + shutdown signal = Closing"
    );
}

#[test]
fn closing_to_closed_transition() {
    let mut handle = handle_in(ConnectionState::Closing);
    handle.complete_shutdown();
    assert_eq!(handle.state(), ConnectionState::Closed, "Closing + completion = Closed");
}

#[test]
fn failed_to_closed_direct_transition() {
    let mut handle = handle_in(ConnectionState::Failed);
    handle.complete_shutdown();
    assert_eq!(
        handle.state(),
        ConnectionState::Closed,
        "Failed + completion = Closed (bypasses Closing)"
    );
}

#[test]
fn an_orderly_shutdown_goes_through_all_steps() {
    let mut handle = handle_in(ConnectionState::Ready);
    let mut step = handle.graceful_shutdown();
    let mut steps = vec![step];
    while step != ShutdownStep::Done {
        assert_eq!(handle.state(), ConnectionState::Closing);
        step = handle.shutdown_went(step, true);
        steps.push(step);
    }
    assert_eq!(
        steps,
        vec![
            ShutdownStep::StopWriter,
            ShutdownStep::AskShutdown,
            ShutdownStep::AwaitAnswer,
            ShutdownStep::SayExit,
            ShutdownStep::Kill,
            ShutdownStep::Done,
        ]
    );
    assert_eq!(handle.state(), ConnectionState::Closed);
}

#[test]
fn a_shutdown_that_goes_wrong_still_ends_closed() {
    let mut handle = handle_in(ConnectionState::Ready);
    let step = handle.graceful_shutdown();
    assert_eq!(handle.shutdown_went(step, false), ShutdownStep::Done, "the writer is lost");
    assert_eq!(handle.state(), ConnectionState::Closed);

    let mut handle = handle_in(ConnectionState::Ready);
    let step = handle.graceful_shutdown();
    let step = handle.shutdown_went(step, true);
    let step = handle.shutdown_went(step, false);
    assert_eq!(step, ShutdownStep::Kill, "a request that cannot be written skips to the end");
    assert_eq!(handle.shutdown_went(step, false), ShutdownStep::Done);
    assert_eq!(handle.state(), ConnectionState::Closed);
}

#[test]
fn sends_that_fail_have_their_own_errors() {
    assert!(NotificationSendResult::Queued.send_request().is_ok());
    assert_eq!(
        NotificationSendResult::QueueFull.send_request(),
        Err(BridgeError::QueueFull)
    );
    assert_eq!(
        NotificationSendResult::ChannelClosed.send_request(),
        Err(BridgeError::ChannelClosed)
    );
    assert_eq!(
        NotificationSendResult::SerializationFailed.send_request(),
        Err(BridgeError::SerializationFailed)
    );
    assert_eq!(NotificationSendResult::QueueFull.error_kind(), ErrorKind::WouldBlock);
    assert_eq!(NotificationSendResult::ChannelClosed.error_kind(), ErrorKind::BrokenPipe);
    assert_eq!(NotificationSendResult::SerializationFailed.error_kind(), ErrorKind::InvalidData);
}

#[test]
fn every_state_has_its_action() {
    let action = |state| decide_connection_action(state, 0);
    assert_eq!(action(None), ConnectionAction::SpawnNew);
    assert_eq!(action(Some(ConnectionState::Ready)), ConnectionAction::ReturnExisting);
    assert_eq!(
        action(Some(ConnectionState::Initializing)),
        ConnectionAction::FailFast(BridgeError::Initializing)
    );
    assert_eq!(
        action(Some(ConnectionState::Closing)),
        ConnectionAction::FailFast(BridgeError::Closing)
    );
    assert_eq!(action(Some(ConnectionState::Failed)), ConnectionAction::SpawnNew);
    assert_eq!(action(Some(ConnectionState::Closed)), ConnectionAction::SpawnNew);
    assert_eq!(
        decide_connection_action(Some(ConnectionState::Failed), MAX_CONSECUTIVE_PANICS),
        ConnectionAction::FailFast(BridgeError::Disabled)
    );
    assert_eq!(
        decide_connection_action(Some(ConnectionState::Failed), MAX_CONSECUTIVE_PANICS - 1),
        ConnectionAction::SpawnNew
    );
}

#[test]
fn the_launch_configuration_is_kept_without_settings() {
    let mut handle = handle_in(ConnectionState::Initializing);
    assert!(handle.launch_config().is_none());
    handle.record_launch_config(&BridgeServerConfig {
        cmd: vec!["server".to_string()],
        settings: Some(serde_json::from_str("{\"a\": 1}").unwrap()),
        ..Default::default()
    });
    let config = handle.launch_config().unwrap();
    assert_eq!(config.cmd, vec!["server".to_string()]);
    assert!(config.settings.is_none());
}

#[test]
fn shutdown_transitions_through_closing_state() {
    let mut handle = handle_in(ConnectionState::Ready);
    handle.begin_shutdown();
    assert_eq!(
        handle.state(),
        ConnectionState::Closing,
        "State should be Closing after begin_shutdown"
    );
    handle.complete_shutdown();
    assert_eq!(
        handle.state(),
        ConnectionState::Closed,
        "State should be Closed after complete_shutdown"
    );
}

#[test]
fn register_request_with_upstream_none_works() {
    let mut handle = handle_in(ConnectionState::Ready);
    let id = handle.next_request_id();
    let (registered, _) = handle.register_request(id, true, true).expect("should register request");
    assert!(registered >= 2, "Should have valid downstream ID");
}
