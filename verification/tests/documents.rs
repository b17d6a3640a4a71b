use bridge_pool::connection_action::BridgeError;
use bridge_pool::connection_handle::{ConnectionHandle, NotificationSendResult, ResponseNews};
use bridge_pool::connection_key::ConnectionKey;
use bridge_pool::connection_state::ConnectionState;
use bridge_pool::document_tracker::OpenedVirtualDoc;
use bridge_pool::error::{ErrorKind, PoolError};
use bridge_pool::opening::{OpenClaim, OpenDocuments, OpenStep};
use bridge_pool::pool::acquire::AcquireStep;
use bridge_pool::pool::execute::{
    position_reaches_server, BridgeRequest, BridgeResponseContext, OpeningStep,
};
use bridge_pool::pool::LanguageServerPool;
use bridge_pool::region::{Position, PositionVerdict, RegionOffset};
use bridge_pool::settings::BridgeServerConfig;
use bridge_pool::table::Table;
use bridge_pool::upstream::UpstreamId;
use bridge_pool::virtual_uri::VirtualDocumentUri;
use bridge_pool::workspace_folders::WorkspaceFolderSet;

const TEST_ULID_LUA_0: &str = "01ARZ3NDEKTSV4RRFFQ69G5FAV";
const TEST_ULID_LUA_1: &str = "01BX5ZZKBKACTAV9WEVGEMMVRZ";

fn number(ulid: &str) -> u128 {
    ulid.parse::<ulid::Ulid>().unwrap().0
}

fn lua(region: &str) -> VirtualDocumentUri {
    VirtualDocumentUri::new(&format!("file:///test/{region}.lua"), "lua", region)
}

fn key() -> ConnectionKey {
    ConnectionKey::for_server("lua")
}

fn begin(pool: &mut LanguageServerPool, host: &str, content: &str) -> (OpenClaim, String) {
    match pool.ensure_document_opened(host, &lua(TEST_ULID_LUA_0), content, &key()) {
        OpeningStep::SendDidOpen(claim, told) => (claim, told),
        OpeningStep::AlreadyOpen => panic!("the server is to be told"),
    }
}

#[test]
fn ensure_document_opened_sends_didopen_for_new_document() {
    let mut documents = OpenDocuments::new();
    let uri = lua(TEST_ULID_LUA_0);
    let OpenStep::SendDidOpen(claim) =
        documents.ensure_document_opened("file:///doc.md", &uri, &key())
    else {
        panic!("the server is to be told");
    };
    assert!(!documents.is_document_opened_on_connection(&uri, &key()));
    assert!(!documents.is_document_opened(&uri), "a claim is not an open document");
    documents
        .settle_open("file:///doc.md", &uri, &key(), claim, "print('hello')", Ok(()))
        .unwrap();
    assert!(documents.is_document_opened_on_connection(&uri, &key()));
    assert!(documents.is_document_opened(&uri));
    assert_eq!(documents.get_all_connections_for_virtual_uri(&uri), vec![key()]);
    assert_eq!(documents.tracker().host_virtual_docs("file:///doc.md").len(), 1);
}

#[test]
fn ensure_document_opened_skips_didopen_for_already_opened_document() {
    let mut pool = LanguageServerPool::new();
    let uri = lua(TEST_ULID_LUA_0);
    pool.register_opened_document("file:///doc.md", &uri, &key());
    assert!(matches!(
        pool.ensure_document_opened("file:///doc.md", &uri, "print('hello')", &key()),
        OpeningStep::AlreadyOpen
    ));
}

#[test]
fn ensure_document_opened_unclaims_on_send_failure() {
    let mut documents = OpenDocuments::new();
    let uri = lua(TEST_ULID_LUA_0);
    let OpenStep::SendDidOpen(claim) =
        documents.ensure_document_opened("file:///doc.md", &uri, &key())
    else {
        panic!("the server is to be told");
    };
    let error = documents
        .settle_open(
            "file:///doc.md",
            &uri,
            &key(),
            claim,
            "text",
            Err(PoolError::of(ErrorKind::BrokenPipe, "closed")),
        )
        .unwrap_err();
    assert_eq!(error.kind(), ErrorKind::BrokenPipe);
    assert!(!documents.tracker().is_document_opened(&uri));
    assert!(documents.tracker().host_virtual_docs("file:///doc.md").is_empty());
    assert!(matches!(
        documents.ensure_document_opened("file:///doc.md", &uri, &key()),
        OpenStep::SendDidOpen(_)
    ));
}

#[test]
fn ensure_document_opened_unclaims_when_task_is_aborted_before_enqueue() {
    let mut pool = LanguageServerPool::new();
    let uri = lua(TEST_ULID_LUA_0);
    let (claim, _) = begin(&mut pool, "file:///doc.md", "text");
    pool.abandon_open("file:///doc.md", &uri, &key(), claim);
    assert!(pool.connections_opening_or_opened(&uri).is_empty());
    assert!(pool.host_virtual_docs("file:///doc.md").is_empty());
}

#[test]
fn a_claim_left_behind_is_taken_over() {
    let mut pool = LanguageServerPool::new();
    let (left, _) = begin(&mut pool, "file:///doc.md", "text");
    let (taken, _) = begin(&mut pool, "file:///doc.md", "text");
    assert_ne!(left, taken);
    assert_eq!(pool.connections_opening_or_opened(&lua(TEST_ULID_LUA_0)), vec![key()]);
    assert_eq!(pool.host_virtual_docs("file:///doc.md").len(), 1);
    pool.abandon_open("file:///doc.md", &lua(TEST_ULID_LUA_0), &key(), left);
    assert_eq!(
        pool.connections_opening_or_opened(&lua(TEST_ULID_LUA_0)),
        vec![key()],
        "an older claim does not undo a later one"
    );
}

#[test]
fn a_claim_that_was_purged_cannot_be_settled() {
    let mut documents = OpenDocuments::new();
    let uri = lua(TEST_ULID_LUA_0);
    let OpenStep::SendDidOpen(claim) =
        documents.ensure_document_opened("file:///doc.md", &uri, &key())
    else {
        panic!("the server is to be told");
    };
    documents.purge_connection(&key());
    let error = documents
        .settle_open("file:///doc.md", &uri, &key(), claim, "text", Ok(()))
        .unwrap_err();
    assert_eq!(error.kind(), ErrorKind::Other);
    assert_eq!(error.to_string(), "bridge: didOpen claim invalidated during enqueue");
    assert!(!documents.is_document_opened(&uri));
}

#[test]
fn ensure_document_opened_uses_edit_that_arrived_while_server_was_starting() {
    let mut pool = LanguageServerPool::new();
    let host = "file:///test/stale-open.md";
    pool.open_host_incarnation(host, 1);
    pool.record_latest_virtual_content(host, 1, "lua", TEST_ULID_LUA_0, "print('current')");
    let (_, told) = begin(&mut pool, host, "print('stale')");
    assert_eq!(told, "print('current')");
}

#[test]
fn stale_incarnation_cannot_repopulate_latest_virtual_content_after_fast_reopen() {
    let mut pool = LanguageServerPool::new();
    let host = "file:///test/cache-fast-reopen.md";
    pool.open_host_incarnation(host, 1);
    pool.close_host_incarnation(host, 1);
    pool.open_host_incarnation(host, 2);
    pool.record_latest_virtual_content(host, 1, "lua", TEST_ULID_LUA_0, "print('old lifetime')");
    let (_, told) = begin(&mut pool, host, "print('new lifetime')");
    assert_eq!(told, "print('new lifetime')");
    pool.close_host_incarnation(host, 1);
    assert_eq!(pool.current_host_incarnation(host), Some(2), "a late close does nothing");
}

#[test]
fn host_close_reclaims_unopened_latest_virtual_content() {
    let mut pool = LanguageServerPool::new();
    let host = "file:///test/cache-close.md";
    pool.open_host_incarnation(host, 1);
    pool.record_latest_virtual_content(host, 1, "lua", TEST_ULID_LUA_0, "print('cached')");
    assert!(pool.contents().latest(host, "lua", TEST_ULID_LUA_0).is_some());
    pool.close_host_incarnation(host, 1);
    assert!(pool.contents().latest(host, "lua", TEST_ULID_LUA_0).is_none());
    assert!(pool.remove_host_virtual_docs(host).is_empty());
    assert_eq!(pool.current_host_incarnation(host), None);
}

#[test]
fn invalidation_reclaims_only_matching_latest_virtual_content() {
    let mut pool = LanguageServerPool::new();
    let host = "file:///test/cache-invalidation.md";
    pool.open_host_incarnation(host, 1);
    pool.record_latest_virtual_content(host, 1, "lua", TEST_ULID_LUA_0, "first");
    pool.record_latest_virtual_content(host, 1, "lua", TEST_ULID_LUA_1, "second");

    pool.clear_invalidated_virtual_contents(host, &[number(TEST_ULID_LUA_0)]);
    assert!(pool.contents().latest(host, "lua", TEST_ULID_LUA_0).is_none());
    assert_eq!(pool.contents().latest(host, "lua", TEST_ULID_LUA_1).unwrap(), "second");

    pool.clear_invalidated_virtual_contents(host, &[number(TEST_ULID_LUA_1)]);
    assert!(pool.contents().latest(host, "lua", TEST_ULID_LUA_1).is_none());
    assert_eq!(pool.current_host_incarnation(host), Some(1));

    pool.record_latest_virtual_content(host, 1, "lua", TEST_ULID_LUA_0, "replacement");
    assert_eq!(pool.contents().latest(host, "lua", TEST_ULID_LUA_0).unwrap(), "replacement");
    pool.record_latest_virtual_content(host, 1, "lua", TEST_ULID_LUA_0, "replacement");
    assert_eq!(pool.contents().latest(host, "lua", TEST_ULID_LUA_0).unwrap(), "replacement");
}

#[test]
fn replacement_reclaims_only_old_language_virtual_content() {
    let mut pool = LanguageServerPool::new();
    let host = "file:///test/cache-replacement.md";
    pool.open_host_incarnation(host, 1);
    pool.record_latest_virtual_content(host, 1, "lua", TEST_ULID_LUA_0, "old");
    pool.record_latest_virtual_content(host, 1, "python", TEST_ULID_LUA_0, "new");
    let replaced =
        OpenedVirtualDoc { virtual_uri: lua(TEST_ULID_LUA_0), connection_key: key() };

    pool.clear_replaced_virtual_contents(host, &vec![replaced]);

    assert!(pool.contents().latest(host, "lua", TEST_ULID_LUA_0).is_none());
    assert_eq!(pool.contents().latest(host, "python", TEST_ULID_LUA_0).unwrap(), "new");
}

#[test]
fn a_connection_is_told_of_a_content_once() {
    let mut pool = LanguageServerPool::new();
    let uri = lua(TEST_ULID_LUA_0);
    assert_eq!(pool.increment_version_if_content_changed(&uri, &key(), "a"), None);
    pool.register_opened_document("file:///doc.md", &uri, &key());
    pool.record_sent_content_fingerprint(&uri, &key(), "a");
    assert_eq!(pool.increment_version_if_content_changed(&uri, &key(), "a"), None);
    assert_eq!(pool.virtual_document_version(uri.uri(), &key()), Some(1));
    assert_eq!(pool.increment_version_if_content_changed(&uri, &key(), "b"), Some(2));
    pool.record_sent_content_fingerprint(&uri, &key(), "b");
    assert_eq!(pool.increment_version_if_content_changed(&uri, &key(), "b"), None);
    assert_eq!(pool.increment_version_if_content_changed(&uri, &key(), "a"), Some(3));
    pool.untrack_document(&uri, &key());
    assert_eq!(pool.increment_version_if_content_changed(&uri, &key(), "c"), None);
}

#[test]
fn the_pool_answers_for_its_documents() {
    let mut pool = LanguageServerPool::new();
    let uri = lua(TEST_ULID_LUA_0);
    pool.register_opened_document("file:///doc.md", &uri, &key());
    assert!(pool.is_document_opened(&uri));
    assert!(pool.is_virtual_doc_open_on_connection(uri.uri(), &key()));
    assert_eq!(pool.get_all_connections_for_virtual_uri(&uri), vec![key()]);
    assert_eq!(
        pool.resolve_virtual_uri(uri.uri()),
        Some(("file:///doc.md".to_string(), TEST_ULID_LUA_0.to_string()))
    );
    let taken = pool.remove_matching_virtual_docs("file:///doc.md", &[number(TEST_ULID_LUA_0)]);
    assert_eq!(taken.len(), 1);
    pool.register_opened_document("file:///doc.md", &uri, &key());
    pool.unregister_virtual_doc("file:///doc.md", &uri);
    assert!(pool.host_virtual_docs("file:///doc.md").is_empty());
    assert_eq!(pool.documents().tracker().document_version(uri.uri(), &key()), Some(1));
}

/// Has the pool forget what the connection held, as when its server failed and
/// is to be started anew.
fn start_anew(pool: &mut LanguageServerPool) {
    pool.insert_connection(ConnectionHandle::with_state(
        key(),
        9,
        ConnectionState::Failed,
        None,
        WorkspaceFolderSet::new(None),
    ));
    let config = BridgeServerConfig { cmd: vec!["lua-ls".to_string()], ..Default::default() };
    assert!(matches!(pool.begin_acquire(&key(), &config), AcquireStep::Spawn(_)));
}

#[test]
fn stale_connection_generation_close_does_not_untrack_reopened_document() {
    let mut pool = LanguageServerPool::new();
    let host_uri = "file:///test/reopened.md";
    let virtual_uri = VirtualDocumentUri::new(host_uri, "lua", TEST_ULID_LUA_0);
    pool.register_opened_document(host_uri, &virtual_uri, &key());
    let stale = pool.host_virtual_docs(host_uri).remove(0);
    let stale_generation = pool.document_connection_generation(&key());

    start_anew(&mut pool);
    pool.register_opened_document(host_uri, &virtual_uri, &key());
    assert_ne!(stale_generation, pool.document_connection_generation(&key()));

    assert!(!pool.close_single_virtual_doc(&stale, stale_generation));
    assert!(
        pool.documents().is_document_opened_on_connection(&virtual_uri, &key()),
        "a stale close must not erase the replacement generation's open state"
    );
}

#[test]
fn a_close_of_the_current_generation_is_heeded() {
    let mut pool = LanguageServerPool::new();
    let uri = lua(TEST_ULID_LUA_0);
    let other = ConnectionKey::for_server("ruff");
    start_anew(&mut pool);
    start_anew(&mut pool);
    assert_eq!(pool.document_connection_generation(&key()), 2);
    assert_eq!(pool.document_connection_generation(&other), 0);
    pool.register_opened_document("file:///doc.md", &uri, &key());
    assert_eq!(pool.document_connection_generation(&key()), 2, "opening begins no generation");
    let doc = OpenedVirtualDoc { virtual_uri: lua(TEST_ULID_LUA_0), connection_key: key() };
    assert!(!pool.close_single_virtual_doc(&doc, 1));
    assert!(pool.is_document_opened(&uri));
    assert!(pool.close_single_virtual_doc(&doc, 2));
    assert!(!pool.is_document_opened(&uri));
    assert_eq!(pool.document_connection_generation(&key()), 2, "closing begins no generation");
}

#[test]
fn documents_of_regions_in_another_language_are_replaced() {
    let mut pool = LanguageServerPool::new();
    let host = "file:///doc.md";
    let stays = lua(TEST_ULID_LUA_0);
    let goes = lua(TEST_ULID_LUA_1);
    pool.register_opened_document(host, &stays, &key());
    pool.register_opened_document(host, &goes, &key());
    let mut expected: Table<String, String> = Table::new();
    assert!(pool.remove_replaced_virtual_docs(host, &expected).is_empty());
    expected.insert(TEST_ULID_LUA_0.to_string(), "lua".to_string());
    expected.insert(TEST_ULID_LUA_1.to_string(), "python".to_string());
    assert!(pool.remove_replaced_virtual_docs("file:///other.md", &expected).is_empty());

    let replaced = pool.remove_replaced_virtual_docs(host, &expected);
    assert_eq!(replaced.len(), 1);
    assert_eq!(replaced[0].virtual_uri.uri(), goes.uri());
    let left = pool.host_virtual_docs(host);
    assert_eq!(left.len(), 1);
    assert_eq!(left[0].virtual_uri.uri(), stays.uri());
    assert!(pool.remove_replaced_virtual_docs(host, &expected).is_empty());
}

#[test]
fn the_pool_settles_what_it_was_asked_to_open() {
    let mut pool = LanguageServerPool::new();
    let host = "file:///doc.md";
    let uri = lua(TEST_ULID_LUA_0);
    let (claim, told) = begin(&mut pool, host, "a");
    let full = PoolError::of(ErrorKind::WouldBlock, "queue full");
    let error = pool.settle_open(host, &uri, &key(), claim, &told, Err(full)).unwrap_err();
    assert_eq!(error.to_string(), "queue full");
    assert!(!pool.is_document_opened(&uri));
    assert!(pool.host_virtual_docs(host).is_empty());

    let (claim, told) = begin(&mut pool, host, "a");
    pool.settle_open(host, &uri, &key(), claim, &told, Ok(())).unwrap();
    assert!(pool.is_document_opened(&uri));
    assert_eq!(pool.increment_version_if_content_changed(&uri, &key(), "a"), None);

    start_anew(&mut pool);
    let (claim, told) = begin(&mut pool, host, "a");
    start_anew(&mut pool);
    let error = pool.settle_open(host, &uri, &key(), claim, &told, Ok(())).unwrap_err();
    assert_eq!(error.to_string(), "bridge: didOpen claim invalidated during enqueue");
    assert!(!pool.is_document_opened(&uri));
}

fn ready_pool() -> LanguageServerPool {
    let mut pool = LanguageServerPool::new();
    pool.insert_connection(ConnectionHandle::with_state(
        key(),
        9,
        ConnectionState::Ready,
        None,
        WorkspaceFolderSet::new(None),
    ));
    pool.open_host_incarnation("file:///doc.md", 1);
    pool
}

fn request() -> BridgeRequest {
    BridgeRequest {
        key: key(),
        handle: 9,
        host_uri: "file:///doc.md".to_string(),
        virtual_uri: VirtualDocumentUri::new(
            "file:///Test/../doc.lua",
            "lua",
            TEST_ULID_LUA_0,
        ),
        content: "print('hello')".to_string(),
        upstream_id: Some(UpstreamId::Number(42)),
        expected_incarnation: None,
    }
}

fn noted(pool: &LanguageServerPool) -> usize {
    pool.upstream_request_count(&UpstreamId::Number(42), &key())
}

#[test]
fn a_request_goes_to_the_server_and_back() {
    let mut pool = ready_pool();
    let request = request();
    assert_eq!(
        pool.admit_request(&request).unwrap(),
        "file:///doc.lua",
        "the address is written out in full"
    );
    let id = pool.start_request(&request, None).unwrap();
    assert_eq!(id, 2);
    assert_eq!(noted(&pool), 1);
    assert!(pool.request_registered(&request, id, true, true).unwrap());
    let OpeningStep::SendDidOpen(claim, told) = pool.open_for_request(&request).unwrap() else {
        panic!("the server is to be told of the document");
    };
    assert_eq!(told, "print('hello')");
    pool.opened_for_request(&request, claim, &told, Ok(())).unwrap();
    pool.request_sent(&request, NotificationSendResult::Queued).unwrap();
    let value: serde_json::Value = serde_json::from_str("{\"result\": null}").unwrap();
    let (result, forget) =
        pool.finish_request(&request, ResponseNews::Arrived(value.clone()), false);
    assert_eq!(result.unwrap(), value);
    assert!(!forget);
    assert_eq!(noted(&pool), 0);
    assert!(matches!(pool.open_for_request(&request).unwrap(), OpeningStep::AlreadyOpen));
}

#[test]
fn downstream_ids_are_unique_and_independent_of_upstream_id() {
    let mut pool = ready_pool();
    let first = pool.start_request(&request(), None).unwrap();
    let second = pool.start_request(&request(), Some(true)).unwrap();
    assert_ne!(first, second, "concurrent requests need fresh numeric ids");
    assert_ne!(first, 42, "downstream id mirrored upstream");
    assert_ne!(second, 42, "downstream id mirrored upstream");
    assert_eq!(noted(&pool), 2);
}

#[test]
fn host_request_rejects_a_reopened_incarnation() {
    let mut pool = LanguageServerPool::new();
    let host = "file:///test/reopened.md";
    pool.open_host_incarnation(host, 1);
    assert_eq!(pool.request_host_lifecycle(host, None).unwrap(), 1);
    pool.close_host_incarnation(host, 1);
    let error = pool.request_host_lifecycle(host, None).unwrap_err();
    assert_eq!(error.kind(), ErrorKind::NotConnected);
    assert_eq!(
        error.to_string(),
        "bridge: host document is closed: file:///test/reopened.md"
    );
    pool.open_host_incarnation(host, 2);
    let error = pool.request_host_lifecycle(host, Some(1)).unwrap_err();
    assert_eq!(error.kind(), ErrorKind::NotConnected);
    assert_eq!(
        error.to_string(),
        "bridge: host document incarnation changed before request: file:///test/reopened.md"
    );
    assert_eq!(pool.request_host_lifecycle(host, Some(2)).unwrap(), 2);
}

#[test]
fn an_address_that_cannot_be_read_is_refused() {
    let pool = ready_pool();
    let mut request = request();
    request.virtual_uri = VirtualDocumentUri::new("no address", "lua", "region-0");
    let error = pool.admit_request(&request).unwrap_err();
    assert_eq!(error.kind(), ErrorKind::InvalidData);
    assert_eq!(error.to_string(), "relative URL without a base");
}

#[test]
fn a_disabled_route_is_refused_before_anything_is_noted() {
    let mut pool = ready_pool();
    let error = pool.start_request(&request(), Some(false)).unwrap_err();
    assert_eq!(error.kind(), ErrorKind::NotConnected);
    assert_eq!(error.to_string(), "virtual document routing disabled on lua");
    assert_eq!(noted(&pool), 0);
}

#[test]
fn a_replaced_connection_ends_the_request() {
    let mut pool = ready_pool();
    let request = request();
    pool.start_request(&request, None).unwrap();
    pool.insert_connection(ConnectionHandle::with_state(
        key(),
        10,
        ConnectionState::Initializing,
        None,
        WorkspaceFolderSet::new(None),
    ));
    let error = pool.open_for_request(&request).unwrap_err();
    assert_eq!(error.kind(), ErrorKind::NotConnected);
    assert_eq!(error.to_string(), "connection lua was replaced before request send");
    assert_eq!(noted(&pool), 0);
    let error = pool.start_request(&request, None).unwrap_err();
    assert_eq!(error.to_string(), "connection lua was replaced before request send");
    assert_eq!(noted(&pool), 0);
}

#[test]
fn a_request_that_fails_on_the_way_is_not_noted_any_more() {
    let request = request();
    let mut pool = ready_pool();
    let id = pool.start_request(&request, None).unwrap();
    let error = pool.request_registered(&request, id, false, false).unwrap_err();
    assert_eq!(error.to_string(), "bridge: duplicate request ID");
    assert_eq!(noted(&pool), 0);

    pool.start_request(&request, None).unwrap();
    let OpeningStep::SendDidOpen(claim, told) = pool.open_for_request(&request).unwrap() else {
        panic!("the server is to be told of the document");
    };
    let lost = PoolError::of(ErrorKind::BrokenPipe, "closed");
    assert!(pool.opened_for_request(&request, claim, &told, Err(lost)).is_err());
    assert_eq!(noted(&pool), 0);
    assert!(!pool.is_document_opened(&request.virtual_uri));

    pool.start_request(&request, None).unwrap();
    let error = pool.request_sent(&request, NotificationSendResult::QueueFull).unwrap_err();
    assert_eq!(error.to_string(), BridgeError::QueueFull.into_error().to_string());
    assert_eq!(noted(&pool), 0);

    pool.start_request(&request, None).unwrap();
    let (result, forget) = pool.finish_request(&request, ResponseNews::TimedOut, false);
    assert_eq!(result.unwrap_err().to_string(), "bridge: request timeout");
    assert!(forget);
    assert_eq!(noted(&pool), 0);
}

#[test]
fn a_server_that_fell_silent_has_failed() {
    let mut pool = ready_pool();
    let request = request();
    pool.start_request(&request, None).unwrap();
    let (result, _) = pool.finish_request(&request, ResponseNews::Gone, true);
    assert!(result.is_err());
    assert_eq!(pool.connection(&key()).unwrap().state(), ConnectionState::Failed);
}

fn at(line: u32, character: u32) -> Position {
    Position { line, character }
}

#[test]
fn position_request_aborts_when_host_position_above_region() {
    let offset = RegionOffset::new(10, 0);
    let end = at(10, 14);
    assert_eq!(offset.judge(at(2, 0), end), PositionVerdict::AboveRegion);
    assert!(!position_reaches_server(at(2, 0), &offset, end));
}

#[test]
fn position_request_aborts_when_host_position_before_start_column() {
    let offset = RegionOffset::new(10, 4);
    let end = at(10, 18);
    assert_eq!(offset.judge(at(10, 1), end), PositionVerdict::BeforeColumn);
    assert!(!position_reaches_server(at(10, 1), &offset, end));
    assert!(position_reaches_server(at(10, 4), &offset, end));
}

#[test]
fn the_end_of_a_region_belongs_to_it() {
    let offset = RegionOffset::with_columns(10, vec![2, 4]);
    let end = at(11, 9);
    assert_eq!(offset.judge(at(11, 9), end), PositionVerdict::Within);
    assert_eq!(offset.judge(at(11, 10), end), PositionVerdict::PastEnd);
    assert_eq!(offset.judge(at(12, 0), end), PositionVerdict::PastEnd);
    assert_eq!(offset.judge(at(11, 3), end), PositionVerdict::BeforeColumn);
    assert_eq!(offset.judge(at(10, 2), end), PositionVerdict::Within);
    assert_eq!(offset.column_for_line(1), 4);
    assert_eq!(offset.column_for_line(2), 0);
}

#[test]
fn bridge_response_context_exposes_fields() {
    let ctx = BridgeResponseContext {
        virtual_uri_string: "file:///project/virtual.lua".to_string(),
        host_uri: "file:///project/doc.md".to_string(),
        offset: RegionOffset::new(5, 0),
    };
    assert_eq!(ctx.virtual_uri_string, "file:///project/virtual.lua");
    assert_eq!(ctx.host_uri, "file:///project/doc.md");
    assert_eq!(ctx.offset.line(), 5);
    assert_eq!(ctx.offset.column_for_line(0), 0);

    let ctx = request().response_context(RegionOffset::new(3, 1));
    assert_eq!(ctx.virtual_uri_string, "file:///Test/../doc.lua");
    assert_eq!(ctx.host_uri, "file:///doc.md");
    assert_eq!(ctx.offset.line(), 3);
}
