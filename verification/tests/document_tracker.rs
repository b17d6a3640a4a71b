use bridge_pool::connection_key::ConnectionKey;
use bridge_pool::document_tracker::{DocumentTracker, OpenedVirtualDoc};
use bridge_pool::virtual_uri::VirtualDocumentUri;

const TEST_ULID_LUA_0: &str = "01ARZ3NDEKTSV4RRFFQ69G5FAV";
const TEST_ULID_LUA_1: &str = "01BX5ZZKBKACTAV9WEVGEMMVRZ";
const TEST_ULID_PYTHON_0: &str = "01CX5ZZKBKACTAV9WEVGEMMVS0";

fn region(host_uri: &str, language: &str, region_id: &str) -> VirtualDocumentUri {
    let uri = format!("{host_uri}.{region_id}.{language}");
    VirtualDocumentUri::new(&uri, language, region_id)
}

fn host(name: &str) -> String {
    format!("file:///test/{name}.md")
}

fn number(ulid: &str) -> u128 {
    ulid.parse::<ulid::Ulid>().unwrap().0
}


#[test]
fn opened_virtual_doc_struct_has_required_fields() {
    let host_uri = "file:///project/doc.md".to_string();
    let virtual_uri = region(&host_uri, "lua", "region-0");
    let doc = OpenedVirtualDoc {
        virtual_uri: virtual_uri.clone(),
        connection_key: ConnectionKey::for_server("lua"),
    };

    assert_eq!(doc.virtual_uri.language(), "lua");
    assert_eq!(doc.virtual_uri.region_id(), "region-0");
    assert_eq!(doc.connection_key, ConnectionKey::for_server("lua"));
}

#[test]
fn register_opened_document_records_host_to_virtual_mapping() {
    let mut tracker = DocumentTracker::new();
    let host_uri = "file:///project/doc.md".to_string();
    let virtual_uri = region(&host_uri, "lua", "lua-0");

    tracker
        .register_opened_document(&host_uri, &virtual_uri, &ConnectionKey::for_server("lua"));

        let virtual_docs = tracker.host_virtual_docs(&host_uri);
    assert_eq!(virtual_docs.len(), 1);
    assert_eq!(virtual_docs[0].virtual_uri.language(), "lua");
    assert_eq!(virtual_docs[0].virtual_uri.region_id(), "lua-0");
    assert_eq!(
        virtual_docs[0].connection_key,
        ConnectionKey::for_server("lua")
    );
}

#[test]
fn register_opened_document_records_multiple_virtual_docs() {
    let mut tracker = DocumentTracker::new();
    let host_uri = "file:///project/doc.md".to_string();

    let virtual_uri_0 = region(&host_uri, "lua", "lua-0");
    tracker
        .register_opened_document(&host_uri, &virtual_uri_0, &ConnectionKey::for_server("lua"));

    let virtual_uri_1 = region(&host_uri, "lua", "lua-1");
    tracker
        .register_opened_document(&host_uri, &virtual_uri_1, &ConnectionKey::for_server("lua"));

        let virtual_docs = tracker.host_virtual_docs(&host_uri);
    assert_eq!(virtual_docs.len(), 2);
    assert_eq!(virtual_docs[0].virtual_uri.region_id(), "lua-0");
    assert_eq!(virtual_docs[1].virtual_uri.region_id(), "lua-1");
}

#[test]
fn register_opened_document_is_idempotent() {
    let mut tracker = DocumentTracker::new();
    let host_uri = "file:///project/doc.md".to_string();
    let virtual_uri = region(&host_uri, "lua", "lua-0");

    tracker
        .register_opened_document(&host_uri, &virtual_uri, &ConnectionKey::for_server("lua"));
    tracker
        .register_opened_document(&host_uri, &virtual_uri, &ConnectionKey::for_server("lua"));

        let virtual_docs = tracker.host_virtual_docs(&host_uri);
    assert_eq!(
        virtual_docs.len(),
        1,
        "Should only have one entry, not duplicates"
    );
}

#[test]
fn register_opened_document_marks_as_opened() {
    let mut tracker = DocumentTracker::new();
    let host_uri = "file:///test/doc.md".to_string();
    let virtual_uri = region(&host_uri, "lua", TEST_ULID_LUA_0);

    assert!(
        !tracker.is_document_opened(&virtual_uri),
        "Should not be opened before registration"
    );

    tracker
        .register_opened_document(&host_uri, &virtual_uri, &ConnectionKey::for_server("lua"));

    assert!(
        tracker.is_document_opened(&virtual_uri),
        "Should be opened after registration"
    );
}

#[test]
fn is_document_opened_returns_false_before_registered() {
    let mut tracker = DocumentTracker::new();
    let host_uri = "file:///test/doc.md".to_string();
    let virtual_uri = region(&host_uri, "lua", TEST_ULID_LUA_0);

    assert!(
        !tracker.is_document_opened(&virtual_uri),
        "is_document_opened should return false before registration"
    );
}

#[test]
fn try_claim_for_open_returns_true_for_new_document() {
    let mut tracker = DocumentTracker::new();
    let host_uri = "file:///test/doc.md".to_string();
    let virtual_uri = region(&host_uri, "lua", TEST_ULID_LUA_0);

    assert!(
        tracker
            .try_claim_for_open(&virtual_uri, &ConnectionKey::for_server("lua")),
        "First claim should succeed"
    );
}

#[test]
fn try_claim_for_open_returns_false_for_already_claimed() {
    let mut tracker = DocumentTracker::new();
    let host_uri = "file:///test/doc.md".to_string();
    let virtual_uri = region(&host_uri, "lua", TEST_ULID_LUA_0);

    assert!(
        tracker
            .try_claim_for_open(&virtual_uri, &ConnectionKey::for_server("lua"))
    );

    assert!(
        !tracker
            .try_claim_for_open(&virtual_uri, &ConnectionKey::for_server("lua")),
        "Second claim should fail — already claimed"
    );
}

#[test]
fn unclaim_document_allows_reclaim() {
    let mut tracker = DocumentTracker::new();
    let host_uri = "file:///test/doc.md".to_string();
    let virtual_uri = region(&host_uri, "lua", TEST_ULID_LUA_0);

    assert!(
        tracker
            .try_claim_for_open(&virtual_uri, &ConnectionKey::for_server("lua"))
    );
    tracker
        .unclaim_document(&virtual_uri, &ConnectionKey::for_server("lua"));
    assert!(
        tracker
            .try_claim_for_open(&virtual_uri, &ConnectionKey::for_server("lua")),
        "Should be able to reclaim after unclaim"
    );
}

#[test]
fn reverse_index_available_immediately_after_claim() {
    let mut tracker = DocumentTracker::new();
    let host_uri = "file:///test/doc.md".to_string();
    let virtual_uri = region(&host_uri, "lua", TEST_ULID_LUA_0);

    assert!(
        tracker
            .get_all_connections_for_virtual_uri(&virtual_uri)
            .is_empty(),
        "Should return empty before claim"
    );

    tracker
        .try_claim_for_open(&virtual_uri, &ConnectionKey::for_server("lua"));

    let servers = tracker.get_all_connections_for_virtual_uri(&virtual_uri);
    assert_eq!(
        servers,
        vec![ConnectionKey::for_server("lua")],
        "Reverse index should be available immediately after claim"
    );
}

#[test]
fn version_available_immediately_after_claim() {
    let mut tracker = DocumentTracker::new();
    let host_uri = "file:///test/doc.md".to_string();
    let virtual_uri = region(&host_uri, "lua", TEST_ULID_LUA_0);

    tracker
        .try_claim_for_open(&virtual_uri, &ConnectionKey::for_server("lua"));

    let version = tracker
        .increment_document_version(&virtual_uri, &ConnectionKey::for_server("lua"));
    assert_eq!(
        version,
        Some(2),
        "Version should be available immediately after claim (1 → 2)"
    );
}

#[test]
fn unclaim_removes_version_entry() {
    let mut tracker = DocumentTracker::new();
    let host_uri = "file:///test/doc.md".to_string();
    let virtual_uri = region(&host_uri, "lua", TEST_ULID_LUA_0);

    tracker
        .try_claim_for_open(&virtual_uri, &ConnectionKey::for_server("lua"));
    tracker
        .unclaim_document(&virtual_uri, &ConnectionKey::for_server("lua"));

    let version = tracker
        .increment_document_version(&virtual_uri, &ConnectionKey::for_server("lua"));
    assert!(version.is_none(), "Version should be removed after unclaim");
}

#[test]
fn increment_document_version_returns_none_for_unopened() {
    let mut tracker = DocumentTracker::new();
    let host_uri = "file:///test/doc.md".to_string();
    let virtual_uri = region(&host_uri, "lua", TEST_ULID_LUA_0);

    let version = tracker
        .increment_document_version(&virtual_uri, &ConnectionKey::for_server("lua"));
    assert!(
        version.is_none(),
        "increment_document_version should return None for unopened document"
    );
}

#[test]
fn increment_document_version_increments_after_open() {
    let mut tracker = DocumentTracker::new();
    let host_uri = "file:///test/doc.md".to_string();
    let virtual_uri = region(&host_uri, "lua", TEST_ULID_LUA_0);

    tracker
        .register_opened_document(&host_uri, &virtual_uri, &ConnectionKey::for_server("lua"));

    let version = tracker
        .increment_document_version(&virtual_uri, &ConnectionKey::for_server("lua"));
    assert_eq!(version, Some(2), "First increment should return 2");

    let version = tracker
        .increment_document_version(&virtual_uri, &ConnectionKey::for_server("lua"));
    assert_eq!(version, Some(3), "Second increment should return 3");
}

#[test]
fn untrack_document_removes_from_versions() {
    let mut tracker = DocumentTracker::new();
    let host_uri = "file:///test/doc.md".to_string();
    let virtual_uri = region(&host_uri, "lua", TEST_ULID_LUA_0);

    tracker
        .register_opened_document(&host_uri, &virtual_uri, &ConnectionKey::for_server("lua"));

    let version = tracker
        .increment_document_version(&virtual_uri, &ConnectionKey::for_server("lua"));
    assert!(
        version.is_some(),
        "Document should have version before untrack"
    );

    tracker
        .untrack_document(&virtual_uri, &ConnectionKey::for_server("lua"));

    let version = tracker
        .increment_document_version(&virtual_uri, &ConnectionKey::for_server("lua"));
    assert!(
        version.is_none(),
        "Document should not have version after untrack"
    );
}

#[test]
fn untrack_document_removes_from_opened() {
    let mut tracker = DocumentTracker::new();
    let host_uri = "file:///test/doc.md".to_string();
    let virtual_uri = region(&host_uri, "lua", TEST_ULID_LUA_0);

    tracker
        .register_opened_document(&host_uri, &virtual_uri, &ConnectionKey::for_server("lua"));
    assert!(
        tracker.is_document_opened(&virtual_uri),
        "Document should be opened before untrack"
    );

    tracker
        .untrack_document(&virtual_uri, &ConnectionKey::for_server("lua"));

    assert!(
        !tracker.is_document_opened(&virtual_uri),
        "Document should not be opened after untrack"
    );
}

#[test]
fn untrack_document_does_not_remove_from_host_to_virtual() {
    let mut tracker = DocumentTracker::new();
    let host_uri = "file:///test/doc.md".to_string();
    let virtual_uri = region(&host_uri, "lua", TEST_ULID_LUA_0);

    tracker
        .register_opened_document(&host_uri, &virtual_uri, &ConnectionKey::for_server("lua"));

    tracker
        .untrack_document(&virtual_uri, &ConnectionKey::for_server("lua"));

        let docs = tracker.host_virtual_docs(&host_uri);
    assert!(
        !docs.is_empty(),
        "untrack_document should NOT remove from host_to_virtual"
    );
}

#[test]
fn remove_matching_virtual_docs_removes_matching_docs() {
    let mut tracker = DocumentTracker::new();
    let host_uri = host("regions_take");

    let virtual_uri_1 = region(&host_uri, "lua", TEST_ULID_LUA_0);
    let virtual_uri_2 =
        region(&host_uri, "python", TEST_ULID_PYTHON_0);

    tracker
        .register_opened_document(&host_uri, &virtual_uri_1, &ConnectionKey::for_server("lua"));
    tracker
        .register_opened_document(
            &host_uri,
            &virtual_uri_2,
            &ConnectionKey::for_server("python"),
        );

    let ulid_lua: u128 = number(TEST_ULID_LUA_0);

    let taken = tracker
        .remove_matching_virtual_docs(&host_uri, &[ulid_lua]);

    assert_eq!(taken.len(), 1, "Should take exactly one doc");
    assert_eq!(
        taken[0].virtual_uri.language(),
        "lua",
        "Should be the Lua doc"
    );
    assert_eq!(
        taken[0].virtual_uri.region_id(),
        TEST_ULID_LUA_0,
        "Should have the Lua ULID"
    );

        let remaining = tracker.host_virtual_docs(&host_uri);
    assert_eq!(remaining.len(), 1, "Should have one remaining doc");
    assert_eq!(
        remaining[0].virtual_uri.language(),
        "python",
        "Python doc should remain"
    );
}

#[test]
fn remove_matching_virtual_docs_returns_empty_for_no_match() {
    let mut tracker = DocumentTracker::new();
    let host_uri = host("regions_no_match");

    let virtual_uri = region(&host_uri, "lua", TEST_ULID_LUA_0);
    tracker
        .register_opened_document(&host_uri, &virtual_uri, &ConnectionKey::for_server("lua"));

    let other_ulid: u128 = number(TEST_ULID_LUA_1);
    let taken = tracker
        .remove_matching_virtual_docs(&host_uri, &[other_ulid]);

    assert!(taken.is_empty(), "Should return empty when no ULIDs match");

        let remaining = tracker.host_virtual_docs(&host_uri);
    assert_eq!(remaining.len(), 1, "Original doc should remain");
}

#[test]
fn remove_matching_virtual_docs_returns_empty_for_unknown_host() {
    let mut tracker = DocumentTracker::new();
    let host_uri = host("regions_unknown_host");

    let ulid: u128 = number(TEST_ULID_LUA_0);
    let taken = tracker
        .remove_matching_virtual_docs(&host_uri, &[ulid]);

    assert!(taken.is_empty(), "Should return empty for unknown host URI");
}

#[test]
fn remove_matching_virtual_docs_returns_empty_for_empty_ulids() {
    let mut tracker = DocumentTracker::new();
    let host_uri = host("regions_empty_ulids");

    let virtual_uri = region(&host_uri, "lua", TEST_ULID_LUA_0);
    tracker
        .register_opened_document(&host_uri, &virtual_uri, &ConnectionKey::for_server("lua"));

    let taken = tracker.remove_matching_virtual_docs(&host_uri, &[]);

    assert!(taken.is_empty(), "Should return empty for empty ULID list");

        let remaining = tracker.host_virtual_docs(&host_uri);
    assert_eq!(remaining.len(), 1, "Original doc should remain");
}

#[test]
fn remove_matching_virtual_docs_takes_multiple_docs() {
    let mut tracker = DocumentTracker::new();
    let host_uri = host("regions_multiple");

    let virtual_uri_1 = region(&host_uri, "lua", TEST_ULID_LUA_0);
    let virtual_uri_2 = region(&host_uri, "lua", TEST_ULID_LUA_1);
    let virtual_uri_3 =
        region(&host_uri, "python", TEST_ULID_PYTHON_0);

    tracker
        .register_opened_document(&host_uri, &virtual_uri_1, &ConnectionKey::for_server("lua"));
    tracker
        .register_opened_document(&host_uri, &virtual_uri_2, &ConnectionKey::for_server("lua"));
    tracker
        .register_opened_document(
            &host_uri,
            &virtual_uri_3,
            &ConnectionKey::for_server("python"),
        );

    let ulid_1: u128 = number(TEST_ULID_LUA_0);
    let ulid_2: u128 = number(TEST_ULID_LUA_1);

    let taken = tracker
        .remove_matching_virtual_docs(&host_uri, &[ulid_1, ulid_2]);

    assert_eq!(taken.len(), 2, "Should take both Lua docs");

        let remaining = tracker.host_virtual_docs(&host_uri);
    assert_eq!(remaining.len(), 1, "Python doc should remain");
    assert_eq!(
        remaining[0].virtual_uri.language(),
        "python",
        "Remaining doc should be Python"
    );
}

#[test]
fn unregister_virtual_doc_removes_entry() {
    let mut tracker = DocumentTracker::new();
    let host_uri = host("unregister");
    let virtual_uri = region(&host_uri, "lua", TEST_ULID_LUA_0);

    tracker
        .register_opened_document(&host_uri, &virtual_uri, &ConnectionKey::for_server("lua"));
    tracker
        .unregister_virtual_doc(&host_uri, &virtual_uri);

        let docs = tracker.host_virtual_docs(&host_uri);
    assert!(
        docs.is_empty(),
        "unregister_virtual_doc should remove the entry from host_to_virtual"
    );
}

#[test]
fn unregister_virtual_doc_preserves_other_entries() {
    let mut tracker = DocumentTracker::new();
    let host_uri = host("unregister_partial");
    let vuri_0 = region(&host_uri, "lua", TEST_ULID_LUA_0);
    let vuri_1 = region(&host_uri, "lua", TEST_ULID_LUA_1);

    tracker
        .register_opened_document(&host_uri, &vuri_0, &ConnectionKey::for_server("lua"));
    tracker
        .register_opened_document(&host_uri, &vuri_1, &ConnectionKey::for_server("lua"));

    tracker.unregister_virtual_doc(&host_uri, &vuri_0);

        let docs = tracker.host_virtual_docs(&host_uri);
    assert_eq!(docs.len(), 1, "Should have exactly one remaining entry");
    assert_eq!(
        docs[0].virtual_uri.region_id(),
        TEST_ULID_LUA_1,
        "The remaining entry should be the second document"
    );
}

#[test]
fn unregister_virtual_doc_noop_for_unknown_host() {
    let mut tracker = DocumentTracker::new();
    let host_uri = host("unregister_unknown");
    let virtual_uri = region(&host_uri, "lua", TEST_ULID_LUA_0);

    tracker
        .unregister_virtual_doc(&host_uri, &virtual_uri);
}

#[test]
fn get_all_servers_returns_multiple_servers_for_same_uri() {
    let mut tracker = DocumentTracker::new();
    let host_uri = "file:///test/doc.md".to_string();
    let virtual_uri = region(&host_uri, "lua", TEST_ULID_LUA_0);

    tracker
        .register_opened_document(
            &host_uri,
            &virtual_uri,
            &ConnectionKey::for_server("emmylua"),
        );
    tracker
        .register_opened_document(
            &host_uri,
            &virtual_uri,
            &ConnectionKey::for_server("lua_ls"),
        );

    let servers = tracker.get_all_connections_for_virtual_uri(&virtual_uri);
    assert_eq!(servers.len(), 2, "Should return both servers");
    assert!(servers.contains(&ConnectionKey::for_server("emmylua")));
    assert!(servers.contains(&ConnectionKey::for_server("lua_ls")));
}

#[test]
fn get_all_servers_returns_single_server() {
    let mut tracker = DocumentTracker::new();
    let host_uri = "file:///test/doc.md".to_string();
    let virtual_uri = region(&host_uri, "lua", TEST_ULID_LUA_0);

    tracker
        .register_opened_document(&host_uri, &virtual_uri, &ConnectionKey::for_server("lua"));

    let servers = tracker.get_all_connections_for_virtual_uri(&virtual_uri);
    assert_eq!(servers, vec![ConnectionKey::for_server("lua")]);
}

#[test]
fn get_all_servers_returns_empty_for_unknown() {
    let mut tracker = DocumentTracker::new();
    let host_uri = "file:///test/doc.md".to_string();
    let virtual_uri = region(&host_uri, "lua", TEST_ULID_LUA_0);

    let servers = tracker.get_all_connections_for_virtual_uri(&virtual_uri);
    assert!(servers.is_empty(), "Should return empty for unknown URI");
}

#[test]
fn get_all_servers_does_not_cross_contaminate() {
    let mut tracker = DocumentTracker::new();
    let host_uri = "file:///test/doc.md".to_string();

    let virtual_uri_lua =
        region(&host_uri, "lua", TEST_ULID_LUA_0);
    let virtual_uri_python =
        region(&host_uri, "python", TEST_ULID_PYTHON_0);

    tracker
        .register_opened_document(
            &host_uri,
            &virtual_uri_lua,
            &ConnectionKey::for_server("lua"),
        );
    tracker
        .register_opened_document(
            &host_uri,
            &virtual_uri_python,
            &ConnectionKey::for_server("python"),
        );

    let lua_servers = tracker.get_all_connections_for_virtual_uri(&virtual_uri_lua);
    let python_servers = tracker.get_all_connections_for_virtual_uri(&virtual_uri_python);

    assert_eq!(lua_servers, vec![ConnectionKey::for_server("lua")]);
    assert_eq!(python_servers, vec![ConnectionKey::for_server("python")]);
}

#[test]
fn untrack_one_server_preserves_opened_for_other_server() {
    let mut tracker = DocumentTracker::new();
    let host_uri = "file:///test/doc.md".to_string();
    let virtual_uri = region(&host_uri, "lua", TEST_ULID_LUA_0);

    assert!(
        tracker
            .try_claim_for_open(&virtual_uri, &ConnectionKey::for_server("emmylua"))
    );
    assert!(
        tracker
            .try_claim_for_open(&virtual_uri, &ConnectionKey::for_server("lua_ls"))
    );
    assert!(
        tracker.is_document_opened(&virtual_uri),
        "Document should be opened after two claims"
    );

    tracker
        .untrack_document(&virtual_uri, &ConnectionKey::for_server("emmylua"));

    assert!(
        tracker.is_document_opened(&virtual_uri),
        "Document should remain opened while another server still has it"
    );

    tracker
        .untrack_document(&virtual_uri, &ConnectionKey::for_server("lua_ls"));

    assert!(
        !tracker.is_document_opened(&virtual_uri),
        "Document should not be opened after all servers untrack"
    );
}

#[test]
fn purge_connection_allows_reopen_and_spares_siblings() {
    let mut tracker = DocumentTracker::new();
    let host_uri = "file:///test/doc.md".to_string();
    let vuri = region(&host_uri, "lua", TEST_ULID_LUA_0);
    let dead = ConnectionKey::for_server("pyright-a");
    let sibling = ConnectionKey::for_server("pyright-b");

    assert!(tracker.try_claim_for_open(&vuri, &dead));
    assert!(tracker.try_claim_for_open(&vuri, &sibling));
    tracker
        .register_opened_document(&host_uri, &vuri, &dead);
    assert!(
        !tracker.try_claim_for_open(&vuri, &dead),
        "already claimed on the dead connection before purge"
    );

    tracker.purge_connection(&dead);

    assert!(
        tracker.is_document_opened(&vuri),
        "sibling connection keeps the document open"
    );
    assert!(
        tracker.try_claim_for_open(&vuri, &dead),
        "purged connection must be able to re-claim (→ re-didOpen)"
    );
    let servers = tracker.get_all_connections_for_virtual_uri(&vuri);
    assert!(
        servers.contains(&dead) && servers.contains(&sibling),
        "reverse index holds both connections after purge + re-claim: {servers:?}"
    );
    assert_eq!(
        tracker.increment_document_version(&vuri, &sibling),
        Some(2),
        "sibling version survives the purge"
    );
}

#[test]
fn get_all_servers_with_process_sharing() {
    let mut tracker = DocumentTracker::new();
    let host_uri = "file:///test/doc.md".to_string();

    let virtual_uri_ts =
        region(&host_uri, "typescript", TEST_ULID_LUA_0);
    tracker
        .register_opened_document(
            &host_uri,
            &virtual_uri_ts,
            &ConnectionKey::for_server("tsgo"),
        );

    let virtual_uri_tsx =
        region(&host_uri, "typescriptreact", TEST_ULID_LUA_1);
    tracker
        .register_opened_document(
            &host_uri,
            &virtual_uri_tsx,
            &ConnectionKey::for_server("tsgo"),
        );

    assert_eq!(
        tracker.get_all_connections_for_virtual_uri(&virtual_uri_ts),
        vec![ConnectionKey::for_server("tsgo")]
    );
    assert_eq!(
        tracker.get_all_connections_for_virtual_uri(&virtual_uri_tsx),
        vec![ConnectionKey::for_server("tsgo")]
    );
}

#[test]
fn resolve_virtual_uri_recovers_host_and_region() {
    let mut tracker = DocumentTracker::new();
    let host_uri = "file:///project/doc.md".to_string();
    let virtual_uri = region(&host_uri, "lua", "lua-0");
    tracker
        .register_opened_document(&host_uri, &virtual_uri, &ConnectionKey::for_server("lua"));

    assert_eq!(
        tracker
            .resolve_virtual_uri(&virtual_uri.to_uri_string()),
        Some((host_uri, "lua-0".to_string()))
    );

    assert_eq!(
        tracker
            .resolve_virtual_uri("file:///project/other.lua"),
        None
    );
}

#[test]
fn purging_takes_a_connection_off_every_list() {
    let mut tracker = DocumentTracker::new();
    let host_uri = host("doc");
    let shared = region(&host_uri, "lua", TEST_ULID_LUA_0);
    let own = region(&host_uri, "python", TEST_ULID_PYTHON_0);
    let dead = ConnectionKey::for_server("a");
    let other = ConnectionKey::for_server("b");
    for (uri, key) in [(&shared, &dead), (&shared, &other), (&own, &dead)] {
        assert!(tracker.try_claim_for_open(uri, key));
        tracker.register_opened_document(&host_uri, uri, key);
    }

    tracker.purge_connection(&dead);

    assert_eq!(tracker.get_all_connections_for_virtual_uri(&shared), vec![other.clone()]);
    assert!(tracker.get_all_connections_for_virtual_uri(&own).is_empty());
    assert!(tracker.is_document_opened(&shared));
    assert!(!tracker.is_document_opened(&own));
    assert_eq!(tracker.increment_document_version(&own, &dead), None);
    let left = tracker.host_virtual_docs(&host_uri);
    assert_eq!(left.len(), 1);
    assert_eq!(left[0].connection_key, other);
}
