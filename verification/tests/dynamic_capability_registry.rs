use bridge_pool::dynamic_capability_registry::{
    DynamicCapabilityRegistry, LogMessageLevel, Registration, Unregistration,
};

fn json(text: &str) -> serde_json::Value {
    serde_json::from_str(text).unwrap()
}

fn make_registration(id: &str, method: &str) -> Registration {
    Registration {
        id: id.to_string(),
        method: method.to_string(),
        register_options: None,
    }
}

fn make_unregistration(id: &str, method: &str) -> Unregistration {
    Unregistration {
        id: id.to_string(),
        method: method.to_string(),
    }
}

#[test]
fn register_stores_capability() {
    let mut registry = DynamicCapabilityRegistry::new();
    let reg = make_registration("1", "textDocument/completion");

    registry.register(vec![reg]);

    assert!(registry.has_registration("textDocument/completion"));
}

#[test]
fn unregister_removes_capability() {
    let mut registry = DynamicCapabilityRegistry::new();
    let reg = make_registration("1", "textDocument/completion");
    registry.register(vec![reg]);

    let unreg = make_unregistration("1", "textDocument/completion");
    registry.unregister(vec![unreg]);

    assert!(!registry.has_registration("textDocument/completion"));
}

#[test]
fn registration_read_lease_orders_unregistration_after_admission() {
    let mut registry = DynamicCapabilityRegistry::new();
    registry.register(vec![make_registration("1", "textDocument/completion")]);
    let write_is_excluded = registry.with_registration("textDocument/completion", || {
        registry.has_registration("textDocument/completion")
    });
    assert_eq!(
        write_is_excluded,
        Some(true),
        "the callback runs while the registration stands"
    );
    registry.unregister(vec![make_unregistration("1", "textDocument/completion")]);
    assert!(!registry.has_registration("textDocument/completion"));
}

#[test]
fn exact_registration_read_lease_exposes_options_and_orders_unregistration() {
    let mut registry = DynamicCapabilityRegistry::new();
    registry.register(vec![Registration {
        id: "diagnostics".into(),
        method: "textDocument/diagnostic".into(),
        register_options: Some(json(r#"{ "identifier": "rust", "workspaceDiagnostics": true }"#)),
    }]);

    let snapshot = registry.with_registrations_by_id(
        &vec!["diagnostics".to_string()],
        "textDocument/diagnostic",
        |registrations| {
            (
                registrations[0].register_options.clone(),
                registry.has_registration("textDocument/diagnostic"),
            )
        },
    );

    assert_eq!(
        snapshot,
        (
            Some(json(r#"{ "identifier": "rust", "workspaceDiagnostics": true }"#)),
            true
        )
    );
}

#[test]
fn registrations_for_method_returns_each_provider_registration() {
    let mut registry = DynamicCapabilityRegistry::new();
    registry.register(vec![
        Registration {
            id: "rust".into(),
            method: "textDocument/diagnostic".into(),
            register_options: Some(json(r#"{ "identifier": "rust" }"#)),
        },
        Registration {
            id: "lua".into(),
            method: "textDocument/diagnostic".into(),
            register_options: Some(json(r#"{ "identifier": "lua" }"#)),
        },
        make_registration("hover", "textDocument/hover"),
    ]);

    let mut ids: Vec<_> = registry
        .registrations_for_method("textDocument/diagnostic")
        .into_iter()
        .map(|registration| registration.id)
        .collect();
    ids.sort();
    assert_eq!(ids, ["lua", "rust"]);
}

#[test]
fn workspace_diagnostic_revision_ignores_unrelated_capabilities() {
    let mut registry = DynamicCapabilityRegistry::new();
    let (_, initial_revision) =
        registry.registrations_for_method_with_revision("textDocument/diagnostic");

    registry.register(vec![make_registration("hover", "textDocument/hover")]);
    let (_, unrelated_revision) =
        registry.registrations_for_method_with_revision("textDocument/diagnostic");
    assert_eq!(unrelated_revision, initial_revision);

    registry.register(vec![Registration {
        id: "document-diagnostics".into(),
        method: "textDocument/diagnostic".into(),
        register_options: Some(json(r#"{ "workspaceDiagnostics": false }"#)),
    }]);
    let (_, document_only_revision) =
        registry.registrations_for_method_with_revision("textDocument/diagnostic");
    assert_eq!(document_only_revision, unrelated_revision);

    registry.register(vec![Registration {
        id: "workspace-diagnostics".into(),
        method: "textDocument/diagnostic".into(),
        register_options: Some(json(r#"{ "workspaceDiagnostics": true }"#)),
    }]);
    let (_, diagnostic_revision) =
        registry.registrations_for_method_with_revision("textDocument/diagnostic");
    assert!(diagnostic_revision > document_only_revision);
}

#[test]
fn replacing_workspace_diagnostics_with_document_only_is_a_workspace_change() {
    let mut registry = DynamicCapabilityRegistry::new();
    assert!(registry.register(vec![Registration {
        id: "diagnostics".into(),
        method: "textDocument/diagnostic".into(),
        register_options: Some(json(r#"{ "workspaceDiagnostics": true }"#)),
    }]));

    assert!(registry.register(vec![Registration {
        id: "diagnostics".into(),
        method: "textDocument/diagnostic".into(),
        register_options: Some(json(r#"{ "workspaceDiagnostics": false }"#)),
    }]));
    assert!(!registry.has_workspace_diagnostic_provider());
}

#[test]
fn registration_snapshot_keeps_resolve_state_stable_during_admission() {
    let mut registry = DynamicCapabilityRegistry::new();
    registry.register(vec![Registration {
        id: "1".into(),
        method: "workspace/symbol".into(),
        register_options: Some(json(r#"{ "resolveProvider": true }"#)),
    }]);
    let snapshot = registry.with_registration_snapshot(
        "workspace/symbol",
        "resolveProvider",
        |registered, resolves| {
            (
                registered,
                resolves,
                registry.has_registration("workspace/symbol"),
            )
        },
    );
    assert_eq!(snapshot, (true, true, true));
}

#[test]
fn has_registration_returns_false_for_unknown() {
    let mut registry = DynamicCapabilityRegistry::new();

    assert!(!registry.has_registration("textDocument/hover"));
}

#[test]
fn register_coexists_same_method_different_ids() {
    let mut registry = DynamicCapabilityRegistry::new();
    let reg1 = make_registration("1", "textDocument/completion");
    let reg2 = make_registration("2", "textDocument/completion");

    registry.register(vec![reg1]);
    registry.register(vec![reg2]);

    assert!(registry.has_registration("textDocument/completion"));
    let both = vec!["1".to_string(), "2".to_string()];
    let found = registry.registrations_by_id(&both, "textDocument/completion");
    assert_eq!(found[0].id, "1");
    assert_eq!(found[1].id, "2");
}

#[test]
fn unregister_removes_by_id_not_method() {
    let mut registry = DynamicCapabilityRegistry::new();
    let reg1 = make_registration("diag-1", "textDocument/diagnostic");
    let reg2 = make_registration("diag-2", "textDocument/diagnostic");

    registry.register(vec![reg1, reg2]);

    let unreg = make_unregistration("diag-1", "textDocument/diagnostic");
    registry.unregister(vec![unreg]);

    assert!(registry.has_registration("textDocument/diagnostic"));
}

#[test]
fn diagnostic_registration_refresh_waits_for_an_accepted_aggregate() {
    let mut registry = DynamicCapabilityRegistry::new();
    registry.mark_workspace_diagnostic_pull_active();

    assert!(
        !registry.request_or_defer_workspace_diagnostic_registration_refresh(),
        "a cold registration must not immediately trigger another pull"
    );
    assert!(
        registry.try_mark_workspace_diagnostic_contributed() == Some(true),
        "the first accepted aggregate must release the deferred retry"
    );
    assert!(
        registry.request_or_defer_workspace_diagnostic_registration_refresh(),
        "later registrations invalidate an already accepted aggregate immediately"
    );
    assert!(
        registry.try_mark_workspace_diagnostic_contributed() == Some(false),
        "an immediate retry must not leave duplicate deferred work"
    );
}

#[test]
fn reader_exit_and_contribution_use_an_atomic_handoff() {
    let mut exited_first = DynamicCapabilityRegistry::new();
    assert!(!exited_first.mark_workspace_diagnostic_reader_exited());
    assert_eq!(
        exited_first.try_mark_workspace_diagnostic_contributed(),
        None,
        "an aggregate must not be accepted after reader exit"
    );

    let mut contributed_first = DynamicCapabilityRegistry::new();
    assert_eq!(
        contributed_first.try_mark_workspace_diagnostic_contributed(),
        Some(false)
    );
    assert!(
        contributed_first.mark_workspace_diagnostic_reader_exited(),
        "reader exit must observe an accepted contribution and request refresh"
    );
}

#[test]
fn cold_pull_stays_incomplete_until_success_is_recorded() {
    let mut registry = DynamicCapabilityRegistry::new();
    registry.mark_workspace_diagnostic_pull_active();

    assert!(!registry.request_or_defer_workspace_diagnostic_registration_refresh());
    assert!(!registry.request_or_defer_workspace_diagnostic_registration_refresh());
    assert!(!registry.has_workspace_diagnostic_contributed());
    assert!(registry.mark_workspace_diagnostic_pull_completed());
    assert!(registry.request_or_defer_workspace_diagnostic_registration_refresh());
}

#[test]
fn empty_pull_releases_registration_refresh_without_arming_exit_refresh() {
    let mut registry = DynamicCapabilityRegistry::new();
    registry.mark_workspace_diagnostic_pull_active();

    assert!(!registry.request_or_defer_workspace_diagnostic_registration_refresh());
    assert!(registry.mark_workspace_diagnostic_pull_completed());
    assert!(!registry.has_workspace_diagnostic_contributed());
    assert!(registry.request_or_defer_workspace_diagnostic_registration_refresh());
}

#[test]
fn warm_registration_refreshes_without_waiting_for_a_pull() {
    let mut registry = DynamicCapabilityRegistry::new();

    assert!(registry.request_or_defer_workspace_diagnostic_registration_refresh());
    assert!(!registry.take_workspace_diagnostic_registration_refresh());
}

#[test]
fn aborted_cold_pull_does_not_release_its_deferred_refresh() {
    let mut registry = DynamicCapabilityRegistry::new();
    registry.mark_workspace_diagnostic_pull_active();
    assert!(!registry.request_or_defer_workspace_diagnostic_registration_refresh());

    assert!(!registry.mark_workspace_diagnostic_pull_aborted(true));

    assert!(!registry.take_workspace_diagnostic_registration_refresh());
    assert!(
        registry.request_or_defer_workspace_diagnostic_registration_refresh(),
        "the registration deferred before abort is resolved by the abort"
    );
}

#[test]
fn aborted_cold_pull_does_not_suppress_a_later_registration() {
    let mut registry = DynamicCapabilityRegistry::new();
    registry.mark_workspace_diagnostic_pull_active();
    registry.mark_workspace_diagnostic_pull_aborted(true);

    assert!(
        registry.request_or_defer_workspace_diagnostic_registration_refresh(),
        "a registration not observed during the pull must refresh normally"
    );
}

#[test]
fn aborted_first_pull_releases_refresh_for_a_preexisting_connection() {
    let mut registry = DynamicCapabilityRegistry::new();
    registry.mark_workspace_diagnostic_pull_active();
    assert!(!registry.request_or_defer_workspace_diagnostic_registration_refresh());

    assert!(registry.mark_workspace_diagnostic_pull_aborted(false));
    assert!(!registry.take_workspace_diagnostic_registration_refresh());
}

#[test]
fn aborted_warm_pull_releases_its_deferred_refresh() {
    let mut registry = DynamicCapabilityRegistry::new();
    assert_eq!(
        registry.try_mark_workspace_diagnostic_contributed(),
        Some(false)
    );
    registry.mark_workspace_diagnostic_pull_active();
    assert!(!registry.request_or_defer_workspace_diagnostic_registration_refresh());

    assert!(registry.mark_workspace_diagnostic_pull_aborted(true));
    assert!(!registry.take_workspace_diagnostic_registration_refresh());
}

#[test]
fn aborted_pull_after_an_accepted_empty_result_releases_its_deferred_refresh() {
    let mut registry = DynamicCapabilityRegistry::new();
    registry.mark_workspace_diagnostic_pull_active();
    assert!(!registry.mark_workspace_diagnostic_pull_completed());
    assert!(
        !registry.has_workspace_diagnostic_contributed(),
        "an accepted empty result must remain distinct from visible contribution"
    );

    registry.mark_workspace_diagnostic_pull_active();
    assert!(!registry.request_or_defer_workspace_diagnostic_registration_refresh());

    assert!(registry.mark_workspace_diagnostic_pull_aborted(true));
    assert!(!registry.take_workspace_diagnostic_registration_refresh());
}

#[test]
fn completed_pull_is_not_reclassified_as_aborted_by_guard_cleanup() {
    let mut registry = DynamicCapabilityRegistry::new();
    registry.mark_workspace_diagnostic_pull_active();
    assert!(!registry.mark_workspace_diagnostic_pull_completed());

    registry.mark_workspace_diagnostic_pull_aborted(true);

    assert!(registry.request_or_defer_workspace_diagnostic_registration_refresh());
}

#[test]
fn downstream_log_gate_matches_every_global_level() {
    let mut registry = DynamicCapabilityRegistry::new();
    let message_types: [i32; 5] = [1, 2, 3, 4, 5];
    for level in [
        LogMessageLevel::Error,
        LogMessageLevel::Warning,
        LogMessageLevel::Info,
        LogMessageLevel::Log,
        LogMessageLevel::Off,
    ] {
        registry.store_log_message_level(level);
        for message_type in message_types {
            assert_eq!(
                registry.allows_log_message(message_type),
                level.allows(message_type),
                "{level:?} lets different messages through"
            );
        }
    }
}

#[test]
fn log_levels_let_through_what_is_at_least_as_urgent() {
    let allowed = |level: LogMessageLevel| {
        let mut count = 0;
        for message_type in 1..=5 {
            if level.allows(message_type) {
                count += 1;
            }
        }
        count
    };
    assert_eq!(allowed(LogMessageLevel::Off), 0);
    assert_eq!(allowed(LogMessageLevel::Error), 1);
    assert_eq!(allowed(LogMessageLevel::Warning), 2);
    assert_eq!(allowed(LogMessageLevel::Info), 3);
    assert_eq!(allowed(LogMessageLevel::Log), 4);
}

#[test]
fn flags_are_read_from_the_options_of_a_registration() {
    let mut registry = DynamicCapabilityRegistry::new();
    registry.register(vec![
        Registration {
            id: "on".into(),
            method: "workspace/symbol".into(),
            register_options: Some(json(r#"{ "resolveProvider": true }"#)),
        },
        Registration {
            id: "off".into(),
            method: "textDocument/codeLens".into(),
            register_options: Some(json(r#"{ "resolveProvider": false }"#)),
        },
        Registration {
            id: "text".into(),
            method: "textDocument/hover".into(),
            register_options: Some(json(r#"{ "resolveProvider": "yes" }"#)),
        },
    ]);
    assert!(registry.registration_options_flag("workspace/symbol", "resolveProvider"));
    assert!(!registry.registration_options_flag("workspace/symbol", "other"));
    assert!(!registry.registration_options_flag("textDocument/codeLens", "resolveProvider"));
    assert!(!registry.registration_options_flag("textDocument/hover", "resolveProvider"));
}

#[test]
fn unregistering_workspace_diagnostics_is_noticed() {
    let mut registry = DynamicCapabilityRegistry::new();
    registry.register(vec![Registration {
        id: "diagnostics".into(),
        method: "textDocument/diagnostic".into(),
        register_options: Some(json(r#"{ "workspaceDiagnostics": true }"#)),
    }]);
    assert_eq!(registry.workspace_diagnostic_revision(), 1);
    registry.unregister(vec![make_unregistration("diagnostics", "textDocument/diagnostic")]);
    assert_eq!(registry.workspace_diagnostic_revision(), 2);
    assert_eq!(registry.revision(), 2);
    registry.set_static_workspace_diagnostic_provider(true);
    assert!(registry.has_workspace_diagnostic_provider());
}
