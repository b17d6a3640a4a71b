use bridge_pool::connection_handle::{ConnectionHandle, NotificationSendResult};
use bridge_pool::connection_key::ConnectionKey;
use bridge_pool::connection_state::ConnectionState;
use bridge_pool::error::ErrorKind;
use bridge_pool::pool::routing::MarkerRoot;
use bridge_pool::pool::LanguageServerPool;
use bridge_pool::server_capabilities::{
    ChangeNotifications, Offer, ServerCapabilities, WorkspaceFoldersSupport,
};
use bridge_pool::settings::BridgeServerConfig;
use bridge_pool::workspace_folders::{WorkspaceFolder, WorkspaceFolderSet};
use std::time::Duration;

fn folder(uri: &str) -> WorkspaceFolder {
    WorkspaceFolder { uri: uri.to_string(), name: uri.to_string() }
}

fn marker(root: &str) -> MarkerRoot {
    MarkerRoot { root: root.to_string(), folder: folder(root) }
}

fn handle(state: ConnectionState, key: ConnectionKey) -> ConnectionHandle {
    ConnectionHandle::with_state(key, 7, state, None, WorkspaceFolderSet::new(None))
}

fn capable_handle(
    state: ConnectionState,
    key: ConnectionKey,
    capabilities: ServerCapabilities,
) -> ConnectionHandle {
    let mut handle = handle(state, key);
    handle.set_server_capabilities(capabilities);
    handle
}

fn capable_workspace_folders_caps() -> ServerCapabilities {
    ServerCapabilities {
        workspace_folders: Some(WorkspaceFoldersSupport {
            supported: Some(true),
            change_notifications: Some(ChangeNotifications::Flag(true)),
        }),
        ..Default::default()
    }
}

fn shared_config() -> BridgeServerConfig {
    BridgeServerConfig { prefer_shared_instance: Some(true), ..Default::default() }
}

fn names(list: &[&str]) -> Vec<String> {
    list.iter().map(|name| name.to_string()).collect()
}

#[test]
fn pool_starts_with_no_connections() {
    let pool = LanguageServerPool::new();
    assert!(pool.connection(&ConnectionKey::for_server("lua")).is_none());
    assert!(pool.ready_connection_by_key(&ConnectionKey::for_server("lua")).is_none());
    assert!(pool.root_uri().is_none());
    assert!(pool.workspace_folders().is_none());
    assert_eq!(pool.cancel_metrics().snapshot(), (0, 0, 0, 0, 0));
}

#[test]
fn only_a_ready_connection_is_found_as_ready() {
    let mut pool = LanguageServerPool::default();
    let key = ConnectionKey::for_server("lua");
    pool.insert_connection(handle(ConnectionState::Initializing, key.clone()));
    assert!(pool.connection(&key).is_some());
    assert!(pool.ready_connection_by_key(&key).is_none());
    pool.set_state(&key, 8, ConnectionState::Ready);
    assert!(pool.ready_connection_by_key(&key).is_none(), "another connection was meant");
    pool.set_state(&key, 7, ConnectionState::Ready);
    assert!(pool.ready_connection_by_key(&key).is_some());
}

#[test]
fn connection_key_distinguishes_marker_roots() {
    let a = marker("file:///w/a");
    let b = marker("file:///w/b");
    let key_a = LanguageServerPool::connection_key("pyright", Some(&a));
    let key_b = LanguageServerPool::connection_key("pyright", Some(&b));
    assert_ne!(
        key_a, key_b,
        "documents under different roots must get distinct connection keys"
    );
    assert_eq!(
        key_a,
        LanguageServerPool::connection_key("pyright", Some(&marker("file:///w/a"))),
        "documents sharing a marker root must share one connection key"
    );
    assert_ne!(
        key_a,
        LanguageServerPool::connection_key("ruff", Some(&a)),
        "different servers never share a connection"
    );
}

#[test]
fn connection_key_falls_back_to_client_root_without_marker() {
    let fallback = LanguageServerPool::connection_key("pyright", None);
    assert_eq!(
        fallback,
        LanguageServerPool::connection_key("pyright", None),
        "marker-less documents must share the fallback connection"
    );
    assert_eq!(fallback, ConnectionKey::for_server("pyright"));
    assert!(fallback.is_client_fallback());
}

#[test]
fn resolve_acquire_routes_opt_in_server_to_shared_key() {
    let pool = LanguageServerPool::new();
    let root = marker("file:///w/a");

    let key = pool.resolve_acquire("lua", &shared_config(), Some(&root));
    assert_eq!(key, ConnectionKey::shared("lua"));
    assert!(key.is_shared());

    let per_root = pool.resolve_acquire("lua", &BridgeServerConfig::default(), Some(&root));
    assert!(!per_root.is_shared());
}

#[test]
fn resolve_acquire_keeps_marker_less_docs_on_client_fallback() {
    let pool = LanguageServerPool::new();
    let key = pool.resolve_acquire("lua", &shared_config(), None);
    assert!(
        !key.is_shared(),
        "a marker-less document must stay on the client-root fallback, not shared"
    );
}

#[test]
fn resolve_acquire_joins_capable_shared_connection() {
    let mut pool = LanguageServerPool::new();
    pool.insert_connection(capable_handle(
        ConnectionState::Ready,
        ConnectionKey::shared("lua"),
        capable_workspace_folders_caps(),
    ));
    let key = pool.resolve_acquire("lua", &shared_config(), Some(&marker("file:///w/a")));
    assert_eq!(key, ConnectionKey::shared("lua"));
}

#[test]
fn resolve_acquire_falls_back_to_per_root_when_shared_is_incapable() {
    let mut pool = LanguageServerPool::new();
    let root = marker("file:///w/a");
    pool.insert_connection(capable_handle(
        ConnectionState::Ready,
        ConnectionKey::shared("lua"),
        ServerCapabilities::default(),
    ));
    let key = pool.resolve_acquire("lua", &shared_config(), Some(&root));
    assert!(
        !key.is_shared(),
        "an incapable shared connection must fall back to a per-root key"
    );
    assert_eq!(key, LanguageServerPool::connection_key("lua", Some(&root)));
}

#[test]
fn resolve_acquire_keeps_incapable_shared_own_root_on_shared() {
    let mut pool = LanguageServerPool::new();
    let root = marker("file:///w/a");
    let mut shared = capable_handle(
        ConnectionState::Ready,
        ConnectionKey::shared("lua"),
        ServerCapabilities::default(),
    );
    shared.workspace_folders_mut().add(&root.folder);
    pool.insert_connection(shared);

    assert_eq!(
        pool.resolve_acquire("lua", &shared_config(), Some(&root)),
        ConnectionKey::shared("lua"),
        "the incapable shared connection's own root must stay on the shared key"
    );
    let other = marker("file:///w/b");
    assert_eq!(
        pool.resolve_acquire("lua", &shared_config(), Some(&other)),
        ConnectionKey::new("lua", Some("file:///w/b".to_string())),
        "a different root must divert to its own per-root key"
    );
}

#[test]
fn an_initializing_shared_connection_is_trusted_until_it_is_ready() {
    let mut pool = LanguageServerPool::new();
    let key = ConnectionKey::shared("lua");
    let root = marker("file:///w/a");
    pool.insert_connection(capable_handle(
        ConnectionState::Initializing,
        key.clone(),
        ServerCapabilities::default(),
    ));
    assert_eq!(pool.resolve_acquire("lua", &shared_config(), Some(&root)), key);

    let (per_root, left) = pool
        .divert_from_shared(
            "lua",
            &key,
            7,
            true,
            &unseen(),
            Some(&root),
            Duration::from_millis(2500),
            Duration::from_millis(1000),
        )
        .expect("it turned out to be unable to take the root on");
    assert_eq!(per_root, ConnectionKey::new("lua", Some("file:///w/a".to_string())));
    assert_eq!(left, Duration::from_millis(1500));

    let (_, left) = pool
        .divert_from_shared(
            "lua",
            &key,
            7,
            true,
            &unseen(),
            Some(&root),
            Duration::from_millis(500),
            Duration::from_secs(1),
        )
        .unwrap();
    assert_eq!(left, Duration::from_secs(0), "an exhausted budget leaves nothing");

    let plain = ConnectionKey::for_server("lua");
    let none = pool.divert_from_shared(
        "lua",
        &plain,
        7,
        false,
        &unseen(),
        Some(&root),
        Duration::from_secs(1),
        Duration::from_secs(0),
    );
    assert!(none.is_none(), "only shared connections divert");
}

#[test]
fn a_capable_shared_connection_does_not_divert() {
    let mut pool = LanguageServerPool::new();
    let key = ConnectionKey::shared("lua");
    pool.insert_connection(capable_handle(
        ConnectionState::Ready,
        key.clone(),
        capable_workspace_folders_caps(),
    ));
    let none = pool.divert_from_shared(
        "lua",
        &key,
        7,
        false,
        &unseen(),
        Some(&marker("file:///w/a")),
        Duration::from_secs(1),
        Duration::from_secs(0),
    );
    assert!(none.is_none());
}

#[test]
fn a_connection_that_was_taken_out_still_decides_where_its_documents_go() {
    let mut pool = LanguageServerPool::new();
    let key = ConnectionKey::shared("lua");
    let root = marker("file:///w/a");
    let told = WorkspaceFolderSet::new(Some(vec![folder("file:///w/a")]));
    let second = Duration::from_secs(1);
    let none = Duration::from_secs(0);
    for _ in 0..2 {
        let diverted = pool
            .divert_from_shared("lua", &key, 3, false, &unseen(), Some(&root), second, none)
            .expect("it could not take the root on when it was last seen");
        assert_eq!(diverted.0, ConnectionKey::new("lua", Some("file:///w/a".to_string())));
        assert_eq!(diverted.1, second);
        let diverted = pool
            .divert_from_shared("lua", &key, 3, false, &told, None, second, none)
            .expect("a document without a root is served by no folder");
        assert_eq!(diverted.0, ConnectionKey::for_server("lua"));
        assert!(pool
            .divert_from_shared("lua", &key, 3, false, &told, Some(&root), second, none)
            .is_none());
        assert!(pool
            .divert_from_shared("lua", &key, 3, true, &unseen(), Some(&root), second, none)
            .is_none());

        // A capable successor changes nothing for the one that is gone.
        pool.insert_connection(capable_handle(
            ConnectionState::Ready,
            key.clone(),
            capable_workspace_folders_caps(),
        ));
    }
}

#[test]
fn a_root_is_announced_once() {
    let mut pool = LanguageServerPool::new();
    let key = ConnectionKey::shared("lua");
    let root = marker("file:///w/a");
    pool.insert_connection(capable_handle(
        ConnectionState::Ready,
        key.clone(),
        capable_workspace_folders_caps(),
    ));

    let due = pool.announce_shared_root(&key, 7, true, &unseen(), Some(&root)).unwrap();
    assert_eq!(due, Some(folder("file:///w/a")));
    assert!(pool
        .shared_root_announced(&key, 7, &root.folder, NotificationSendResult::Queued)
        .is_ok());
    assert_eq!(pool.announce_shared_root(&key, 7, true, &unseen(), Some(&root)).unwrap(), None);
}

/// The folders of a connection of which nothing is known.
fn unseen() -> WorkspaceFolderSet {
    WorkspaceFolderSet::new(None)
}

#[test]
fn a_served_root_is_not_announced_though_the_connection_was_replaced() {
    let mut pool = LanguageServerPool::new();
    let key = ConnectionKey::shared("lua");
    let root = marker("file:///w/a");
    let told = WorkspaceFolderSet::new(Some(vec![folder("file:///w/a")]));
    assert_eq!(pool.announce_shared_root(&key, 7, true, &told, Some(&root)).unwrap(), None);

    // Of a connection that the pool holds, the pool itself knows the folders.
    pool.insert_connection(capable_handle(
        ConnectionState::Ready,
        key.clone(),
        capable_workspace_folders_caps(),
    ));
    assert_eq!(pool.announce_shared_root(&key, 8, true, &told, Some(&root)).unwrap(), None);
    let due = pool.announce_shared_root(&key, 7, false, &told, Some(&root)).unwrap();
    assert_eq!(due, Some(folder("file:///w/a")));
    let other = marker("file:///w/b");
    let error = pool.announce_shared_root(&key, 8, true, &told, Some(&other)).unwrap_err();
    assert_eq!(error.kind(), ErrorKind::BrokenPipe);
}

#[test]
fn nothing_is_announced_without_need() {
    let pool = LanguageServerPool::new();
    let root = marker("file:///w/a");
    let plain = ConnectionKey::for_server("lua");
    let shared = ConnectionKey::shared("lua");
    assert_eq!(pool.announce_shared_root(&plain, 7, true, &unseen(), Some(&root)).unwrap(), None);
    assert_eq!(pool.announce_shared_root(&shared, 7, true, &unseen(), None).unwrap(), None);
    assert_eq!(pool.announce_shared_root(&shared, 7, false, &unseen(), Some(&root)).unwrap(), None);
}

#[test]
fn a_replaced_connection_is_not_told_of_roots() {
    let mut pool = LanguageServerPool::new();
    let key = ConnectionKey::shared("lua");
    let root = marker("file:///w/a");
    let error = pool.announce_shared_root(&key, 7, true, &unseen(), Some(&root)).unwrap_err();
    assert_eq!(error.kind(), ErrorKind::BrokenPipe);
    assert_eq!(
        error.to_string(),
        "bridge: connection was replaced before didChangeWorkspaceFolders"
    );
    pool.insert_connection(handle(ConnectionState::Ready, key.clone()));
    assert!(pool.announce_shared_root(&key, 8, true, &unseen(), Some(&root)).is_err());
}

#[test]
fn an_announcement_that_was_not_queued_is_due_again() {
    let mut pool = LanguageServerPool::new();
    let key = ConnectionKey::shared("lua");
    let root = marker("file:///w/a");
    pool.insert_connection(capable_handle(
        ConnectionState::Ready,
        key.clone(),
        capable_workspace_folders_caps(),
    ));
    for (result, kind, text) in [
        (
            NotificationSendResult::QueueFull,
            ErrorKind::WouldBlock,
            "bridge: could not queue didChangeWorkspaceFolders for file:///w/a (QueueFull)",
        ),
        (
            NotificationSendResult::ChannelClosed,
            ErrorKind::BrokenPipe,
            "bridge: could not queue didChangeWorkspaceFolders for file:///w/a (ChannelClosed)",
        ),
        (
            NotificationSendResult::SerializationFailed,
            ErrorKind::InvalidData,
            "bridge: could not queue didChangeWorkspaceFolders for file:///w/a (SerializationFailed)",
        ),
    ] {
        let error = pool.shared_root_announced(&key, 7, &root.folder, result).unwrap_err();
        assert_eq!(error.kind(), kind);
        assert_eq!(error.to_string(), text);
        assert!(pool.announce_shared_root(&key, 7, true, &unseen(), Some(&root)).unwrap().is_some());
    }
}

#[test]
fn workspace_folder_change_updates_primary_root_for_future_spawns() {
    let mut pool = LanguageServerPool::new();
    let original = folder("file:///original");
    let replacement = folder("file:///replacement");
    pool.set_root_uri(Some(original.uri.clone()));
    pool.set_workspace_folders(Some(vec![original.clone()]));

    pool.apply_workspace_folder_change(&vec![replacement.clone()], &vec![original]);

    assert_eq!(pool.root_uri().as_deref(), Some("file:///replacement"));
    assert_eq!(pool.workspace_folders(), Some(vec![replacement]));
}

#[test]
fn workspace_folder_change_forwards_only_to_capable_ready_connections() {
    let mut pool = LanguageServerPool::new();
    let capable = ConnectionKey::for_server("capable");
    let incapable = ConnectionKey::for_server("incapable");
    let warming = ConnectionKey::for_server("warming");
    pool.insert_connection(capable_handle(
        ConnectionState::Ready,
        capable.clone(),
        capable_workspace_folders_caps(),
    ));
    pool.insert_connection(capable_handle(
        ConnectionState::Ready,
        incapable.clone(),
        ServerCapabilities::default(),
    ));
    pool.insert_connection(capable_handle(
        ConnectionState::Initializing,
        warming.clone(),
        capable_workspace_folders_caps(),
    ));
    let added = vec![folder("file:///added")];
    let removed: Vec<WorkspaceFolder> = vec![];

    let targets = pool.apply_workspace_folder_change(&added, &removed);
    assert_eq!(targets.len(), 1);
    assert_eq!(targets[0].key, capable);
    pool.folder_change_sent(&targets[0], &added, &removed, NotificationSendResult::QueueFull);
    assert_eq!(pool.connection(&capable).unwrap().workspace_folders().snapshot(), None);
    pool.folder_change_sent(&targets[0], &added, &removed, NotificationSendResult::Queued);

    assert_eq!(
        pool.connection(&capable).unwrap().workspace_folders().snapshot(),
        Some(vec![folder("file:///added")])
    );
    assert_eq!(pool.connection(&incapable).unwrap().workspace_folders().snapshot(), None);
}

#[test]
fn folders_are_told_apart_by_their_address() {
    let mut set = WorkspaceFolderSet::new(Some(vec![folder("a"), folder("b"), folder("c")]));
    let renamed = WorkspaceFolder { uri: "b".to_string(), name: "other".to_string() };
    assert!(set.contains(&renamed));
    set.apply_change(&vec![folder("d"), folder("a"), folder("d")], &vec![renamed]);
    assert_eq!(set.snapshot(), Some(vec![folder("a"), folder("c"), folder("d")]));
    set.apply_change(&vec![folder("a")], &vec![folder("a")]);
    assert_eq!(
        set.snapshot(),
        Some(vec![folder("c"), folder("d"), folder("a")]),
        "what is removed and added again comes last"
    );
    assert_eq!(set.first_uri().as_deref(), Some("c"));
}

#[test]
fn a_server_is_started_at_its_marker_or_at_the_editors_root() {
    let mut pool = LanguageServerPool::new();
    pool.set_root_uri(Some("file:///client".to_string()));
    pool.set_workspace_folders(Some(vec![folder("file:///client")]));

    let (root, folders) = pool.spawn_workspace(Some(&marker("file:///w/a")));
    assert_eq!(root.as_deref(), Some("file:///w/a"));
    assert_eq!(folders, Some(vec![folder("file:///w/a")]));

    let (root, folders) = pool.spawn_workspace(None);
    assert_eq!(root.as_deref(), Some("file:///client"));
    assert_eq!(folders, Some(vec![folder("file:///client")]));
}

fn hover() -> ServerCapabilities {
    ServerCapabilities { hover_provider: Some(Offer::Simple(true)), ..Default::default() }
}

#[test]
fn pull_driven_servers_classifies_by_live_capability() {
    let mut pool = LanguageServerPool::new();
    pool.insert_connection(capable_handle(
        ConnectionState::Ready,
        ConnectionKey::for_server("ra"),
        ServerCapabilities { diagnostic_provider: true, ..Default::default() },
    ));
    pool.insert_connection(capable_handle(
        ConnectionState::Ready,
        ConnectionKey::for_server("linter"),
        ServerCapabilities::default(),
    ));
    assert_eq!(
        pool.pull_driven_servers(&names(&["ra", "linter", "ghost"])),
        names(&["ra"]),
        "only the pull-capable server with a live connection is pull-driven"
    );
    assert_eq!(pool.pull_driven_servers(&names(&["ra", "ra"])), names(&["ra"]));
}

#[test]
fn pull_driven_servers_empty_candidates_returns_empty() {
    let pool = LanguageServerPool::new();
    assert!(pool.pull_driven_servers(&vec![]).is_empty());
}

#[test]
fn servers_known_incapable_returns_only_ready_and_lacking() {
    let mut pool = LanguageServerPool::new();
    pool.insert_connection(capable_handle(
        ConnectionState::Ready,
        ConnectionKey::for_server("capable"),
        hover(),
    ));
    pool.insert_connection(capable_handle(
        ConnectionState::Ready,
        ConnectionKey::for_server("lacking"),
        ServerCapabilities::default(),
    ));
    pool.insert_connection(handle(
        ConnectionState::Initializing,
        ConnectionKey::for_server("warming"),
    ));
    assert_eq!(
        pool.servers_known_incapable(
            &names(&["capable", "lacking", "warming", "ghost"]),
            "textDocument/hover"
        ),
        names(&["lacking"]),
        "only a Ready connection that lacks the capability is known-incapable"
    );
}

#[test]
fn servers_known_incapable_capable_on_any_instance_wins() {
    let mut pool = LanguageServerPool::new();
    pool.insert_connection(capable_handle(
        ConnectionState::Ready,
        ConnectionKey::new("srv", Some("/a".to_string())),
        ServerCapabilities::default(),
    ));
    pool.insert_connection(capable_handle(
        ConnectionState::Ready,
        ConnectionKey::new("srv", Some("/b".to_string())),
        hover(),
    ));
    assert!(
        pool.servers_known_incapable(&names(&["srv"]), "textDocument/hover").is_empty(),
        "a capable instance makes the whole server capable across roots"
    );
}

#[test]
fn servers_known_incapable_keeps_failed_and_closing_only() {
    let mut pool = LanguageServerPool::new();
    for (name, state) in
        [("failed", ConnectionState::Failed), ("closing", ConnectionState::Closing)]
    {
        pool.insert_connection(capable_handle(
            state,
            ConnectionKey::for_server(name),
            ServerCapabilities::default(),
        ));
    }
    assert!(
        pool.servers_known_incapable(&names(&["failed", "closing"]), "textDocument/hover")
            .is_empty(),
        "only a Ready connection is known-incapable; Failed/Closing are kept"
    );
}

#[test]
fn servers_known_incapable_empty_candidates_returns_empty() {
    let pool = LanguageServerPool::new();
    assert!(pool.servers_known_incapable(&vec![], "textDocument/hover").is_empty());
}
