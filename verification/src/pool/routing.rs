//! Which connection a document goes to, and what the connections are told of
//! workspace folders.

use crate::connection_handle::{
    send_error_kind, ConnectionHandle, HandleView, NotificationSendResult,
};
use crate::connection_key::{fallback_key, marker_key, shared_key, ConnectionKey, KeyView};
use crate::connection_ref::{picked, ref_views, refs_of, ConnectionRef, RefView};
use crate::connection_state::ConnectionState;
use crate::error::{ErrorKind, PoolError};
use crate::outside::nanos_of;
use crate::pool::{optional_text, LanguageServerPool};
use crate::pool_state::PoolView;
use crate::settings::BridgeServerConfig;
use crate::text::{holds_text, joined, lemma_texts_push, same_text, texts};
use crate::server_capabilities::ChangeNotifications;
use crate::workspace_folders::{
    after_change, folder_views, folders_are_found_by_address, folders_keep_their_order, listed,
    lists_folder, optional_folder_views, serves, staying, with_folder, with_folders, FolderView,
    WorkspaceFolder, WorkspaceFolderSet,
};
use std::time::Duration;
use vstd::prelude::*;

verus! {

/// The workspace root that a root marker was found in.
#[derive(Debug, PartialEq, Eq)]
pub struct MarkerRoot {
    pub root: String,
    pub folder: WorkspaceFolder,
}

/// The mathematical content of a [`MarkerRoot`].
pub struct MarkerView {
    pub root: Seq<char>,
    pub folder: FolderView,
}

impl View for MarkerRoot {
    type V = MarkerView;

    open spec fn view(&self) -> MarkerView {
        MarkerView { root: self.root@, folder: self.folder@ }
    }
}

/// The content of an optional marker root.
pub open spec fn optional_marker(marker: Option<&MarkerRoot>) -> Option<MarkerView> {
    match marker {
        Some(marker) => Some(marker@),
        None => None,
    }
}

/// The key of a server for a root of its own.
pub open spec fn root_key(server: Seq<char>, marker: Option<MarkerView>) -> KeyView {
    match marker {
        Some(marker) => marker_key(server, marker.root),
        None => fallback_key(server),
    }
}

/// Whether a connection is known not to take on another root than those that it
/// serves already.
pub open spec fn cannot_take(handle: HandleView, marker: MarkerView) -> bool {
    !handle.takes_folders() && !serves(handle.folders, marker.folder.uri)
}

/// The key that a document goes to. One instance serves all roots where the
/// configuration prefers that, the document has a root of its own, and the
/// instance is not known to be unable to take it on.
pub open spec fn route(
    connections: Map<KeyView, HandleView>,
    server: Seq<char>,
    prefers_shared: bool,
    marker: Option<MarkerView>,
) -> KeyView {
    let shared = shared_key(server);
    match marker {
        Some(root) if prefers_shared && !(connections.contains_key(shared)
            && connections[shared].state is Ready && cannot_take(connections[shared], root))
            => shared,
        _ => root_key(server, marker),
    }
}

/// The name of an outcome of queueing a message.
pub open spec fn result_name(result: NotificationSendResult) -> Seq<char> {
    match result {
        NotificationSendResult::Queued => "Queued"@,
        NotificationSendResult::QueueFull => "QueueFull"@,
        NotificationSendResult::ChannelClosed => "ChannelClosed"@,
        NotificationSendResult::SerializationFailed => "SerializationFailed"@,
    }
}

/// Holds of the connections that can be told of changed folders right now.
pub open spec fn hears_of_folders() -> spec_fn(HandleView) -> bool {
    |handle: HandleView| handle.state is Ready && handle.takes_folders()
}

/// The address of the first folder, if there is one.
pub open spec fn first_address(folders: Option<Seq<FolderView>>) -> Option<Seq<char>> {
    if listed(folders).len() > 0 {
        Some(listed(folders)[0].uri)
    } else {
        None
    }
}

/// Whether some connection of a server can answer a method.
pub open spec fn some_can(
    connections: Map<KeyView, HandleView>,
    server: Seq<char>,
    method: Seq<char>,
) -> bool {
    exists|key: KeyView| #[trigger]
        connections.contains_key(key) && key.server == server && connections[key].can(method)
}

/// Whether some connection of a server is ready.
pub open spec fn some_ready(connections: Map<KeyView, HandleView>, server: Seq<char>) -> bool {
    exists|key: KeyView| #[trigger]
        connections.contains_key(key) && key.server == server && connections[key].state is Ready
}

/// The folders that a connection serves: those that the pool knows of, or those
/// that were last seen where the pool does not hold it any more.
pub open spec fn folders_of(
    pool: PoolView,
    key: KeyView,
    id: u64,
    last_folders: Option<Seq<FolderView>>,
) -> Option<Seq<FolderView>> {
    if pool.live(key, id) {
        pool.connections[key].folders
    } else {
        last_folders
    }
}

/// Whether a connection can be told of changed folders: what the pool knows of
/// it, or what was last seen where the pool does not hold it any more.
pub open spec fn takes_folders_of(
    pool: PoolView,
    key: KeyView,
    id: u64,
    last_takes_folders: bool,
) -> bool {
    if pool.live(key, id) {
        pool.connections[key].takes_folders()
    } else {
        last_takes_folders
    }
}

/// Whether a document with the given root has to go elsewhere than to a
/// connection that cannot be told of changed folders, since it does not serve
/// that root.
pub open spec fn is_diverted(
    takes_folders: bool,
    folders: Option<Seq<FolderView>>,
    marker: Option<MarkerView>,
) -> bool {
    !takes_folders && !(marker matches Some(root) && serves(folders, root.folder.uri))
}

impl LanguageServerPool {
    /// The key of a server for a root of its own.
    pub fn connection_key(server_name: &str, marker: Option<&MarkerRoot>) -> (key: ConnectionKey)
        ensures
            key@ == root_key(server_name@, optional_marker(marker)),
    {
        match marker {
            Some(marker) => ConnectionKey::new(server_name, Some(marker.root.clone())),
            None => ConnectionKey::new(server_name, None),
        }
    }

    /// The key that a document with the given root goes to.
    pub fn resolve_acquire(
        &self,
        server_name: &str,
        config: &BridgeServerConfig,
        marker: Option<&MarkerRoot>,
    ) -> (key: ConnectionKey)
        requires
            self.wf(),
        ensures
            key@ == route(
                self@.connections,
                server_name@,
                config.spec_prefers_shared_instance(),
                optional_marker(marker),
            ),
    {
        let per_root = Self::connection_key(server_name, marker);
        if !config.prefers_shared_instance() {
            return per_root;
        }
        let root = match marker {
            Some(root) => root,
            None => return per_root,
        };
        let shared = ConnectionKey::shared(server_name);
        let refused = match self.connections.get(&shared) {
            Some(handle) => matches!(handle.state(), ConnectionState::Ready)
                && !handle.supports_workspace_folder_changes()
                && !handle.workspace_folders().contains(&root.folder),
            None => false,
        };
        if refused {
            per_root
        } else {
            shared
        }
    }

    /// Where a document goes instead of a shared connection that turned out, once
    /// ready, to be unable to take its root on: the key, and how much of the time
    /// allowed is left.
    ///
    /// `last_takes_folders` and `last_folders` say whether the connection could be
    /// told of changed folders, and which folders it served, when it was last
    /// seen. They count where the pool does not hold it any more.
    pub fn divert_from_shared(
        &self,
        server_name: &str,
        key: &ConnectionKey,
        id: u64,
        last_takes_folders: bool,
        last_folders: &WorkspaceFolderSet,
        marker: Option<&MarkerRoot>,
        timeout: Duration,
        elapsed: Duration,
    ) -> (diverted: Option<(ConnectionKey, Duration)>)
        requires
            self.wf(),
        ensures
            if key@.root is Shared && is_diverted(
                takes_folders_of(self@, key@, id, last_takes_folders),
                folders_of(self@, key@, id, last_folders@),
                optional_marker(marker),
            ) {
                &&& diverted is Some
                &&& (diverted->0).0@ == root_key(server_name@, optional_marker(marker))
                &&& nanos_of((diverted->0).1) == (if nanos_of(timeout) >= nanos_of(elapsed) {
                    nanos_of(timeout) - nanos_of(elapsed)
                } else {
                    0
                })
            } else {
                diverted is None
            },
    {
        if !key.is_shared() || self.takes_folders(key, id, last_takes_folders) {
            return None;
        }
        let served = match marker {
            Some(root) => self.serves_folder(key, id, last_folders, &root.folder),
            None => false,
        };
        if served {
            return None;
        }
        Some((Self::connection_key(server_name, marker), timeout.saturating_sub(elapsed)))
    }

    fn takes_folders(&self, key: &ConnectionKey, id: u64, last_takes_folders: bool) -> (takes: bool)
        requires
            self.wf(),
        ensures
            takes == takes_folders_of(self@, key@, id, last_takes_folders),
    {
        match self.connections.get(key) {
            Some(handle) => if handle.id() == id {
                handle.supports_workspace_folder_changes()
            } else {
                last_takes_folders
            },
            None => last_takes_folders,
        }
    }

    fn serves_folder(
        &self,
        key: &ConnectionKey,
        id: u64,
        last_folders: &WorkspaceFolderSet,
        folder: &WorkspaceFolder,
    ) -> (served: bool)
        requires
            self.wf(),
        ensures
            served == serves(folders_of(self@, key@, id, last_folders@), folder@.uri),
    {
        match self.connections.get(key) {
            Some(handle) => if handle.id() == id {
                handle.workspace_folders().contains(folder)
            } else {
                last_folders.contains(folder)
            },
            None => last_folders.contains(folder),
        }
    }

    /// The root and the folders that a server is started with: those of the
    /// marker, or else those of the editor.
    pub fn spawn_workspace(&self, marker: Option<&MarkerRoot>) -> (workspace: (
        Option<String>,
        Option<Vec<WorkspaceFolder>>,
    ))
        ensures
            match marker {
                Some(marker) => optional_text(workspace.0) == Some(marker@.root)
                    && optional_folder_views(workspace.1) == Some(seq![marker@.folder]),
                None => optional_text(workspace.0) == self@.root_uri && optional_folder_views(
                    workspace.1,
                ) == self@.folders,
            },
    {
        match marker {
            Some(marker) => {
                let mut folders: Vec<WorkspaceFolder> = Vec::new();
                folders.push(marker.folder.clone());
                assert(folder_views(folders@) =~= seq![marker@.folder]);
                (Some(marker.root.clone()), Some(folders))
            },
            None => (self.root_uri(), self.workspace_folders()),
        }
    }

    /// Whether a shared connection has to be told of the root of a document
    /// before the document is opened on it. Gives back the folder to announce, or
    /// nothing where there is no need: a root that the connection serves already
    /// is not announced again. A new root cannot be announced to a connection that
    /// was replaced.
    ///
    /// `last_takes_folders` and `last_folders` say whether the connection could be
    /// told of changed folders, and which folders it served, when it was last
    /// seen. They count where the pool does not hold it any more.
    pub fn announce_shared_root(
        &self,
        key: &ConnectionKey,
        id: u64,
        last_takes_folders: bool,
        last_folders: &WorkspaceFolderSet,
        marker: Option<&MarkerRoot>,
    ) -> (folder: Result<Option<WorkspaceFolder>, PoolError>)
        requires
            self.wf(),
        ensures
            match marker {
                Some(root) if key@.root is Shared && takes_folders_of(
                    self@,
                    key@,
                    id,
                    last_takes_folders,
                ) => if serves(
                    folders_of(self@, key@, id, last_folders@),
                    root@.folder.uri,
                ) {
                    folder is Ok && folder->Ok_0 is None
                } else if self@.live(key@, id) {
                    folder is Ok && folder->Ok_0 is Some && folder->Ok_0->0@ == root@.folder
                } else {
                    folder is Err && folder->Err_0.says(
                        ErrorKind::BrokenPipe,
                        "bridge: connection was replaced before didChangeWorkspaceFolders"@,
                    )
                },
                _ => folder is Ok && folder->Ok_0 is None,
            },
    {
        if !key.is_shared() {
            return Ok(None);
        }
        let root = match marker {
            Some(root) => root,
            None => return Ok(None),
        };
        if !self.takes_folders(key, id, last_takes_folders) {
            return Ok(None);
        }
        if self.serves_folder(key, id, last_folders, &root.folder) {
            Ok(None)
        } else if self.is_live(key, id) {
            Ok(Some(root.folder.clone()))
        } else {
            Err(
                PoolError::of(
                    ErrorKind::BrokenPipe,
                    "bridge: connection was replaced before didChangeWorkspaceFolders",
                ),
            )
        }
    }

    /// Settles the announcement of a root. The folder counts as announced only
    /// where the message was queued; otherwise no document may be opened for it.
    pub fn shared_root_announced(
        &mut self,
        key: &ConnectionKey,
        id: u64,
        folder: &WorkspaceFolder,
        result: NotificationSendResult,
    ) -> (announced: Result<(), PoolError>)
        requires
            old(self).wf(),
        ensures
            final(self).wf(),
            if result is Queued {
                &&& announced is Ok
                &&& final(self)@ == (if old(self)@.live(key@, id) {
                    old(self)@.with_handle(
                        HandleView {
                            folders: Some(
                                with_folder(
                                    listed(old(self)@.connections[key@].folders),
                                    folder@,
                                ),
                            ),
                            ..old(self)@.connections[key@]
                        },
                    )
                } else {
                    old(self)@
                })
            } else {
                &&& announced is Err
                &&& announced->Err_0.says(
                    send_error_kind(result),
                    "bridge: could not queue didChangeWorkspaceFolders for "@ + folder@.uri + " ("@
                        + result_name(result) + ")"@,
                )
                &&& final(self)@ == old(self)@
            },
    {
        let name = match result {
            NotificationSendResult::Queued => {
                if self.is_live(key, id) {
                    if let Some(handle) = self.connections.get_mut(key) {
                        handle.workspace_folders_mut().add(folder);
                    }
                }
                return Ok(());
            },
            NotificationSendResult::QueueFull => "QueueFull",
            NotificationSendResult::ChannelClosed => "ChannelClosed",
            NotificationSendResult::SerializationFailed => "SerializationFailed",
        };
        let text = joined(
            "bridge: could not queue didChangeWorkspaceFolders for ",
            folder.uri.as_str(),
        );
        let text = joined(text.as_str(), " (");
        let text = joined(text.as_str(), name);
        let text = joined(text.as_str(), ")");
        Err(PoolError::new(result.error_kind(), text))
    }

    /// Takes over a change of the editor's folders. The first folder becomes the
    /// root. Gives back the connections that are to be told.
    pub fn apply_workspace_folder_change(
        &mut self,
        added: &Vec<WorkspaceFolder>,
        removed: &Vec<WorkspaceFolder>,
    ) -> (targets: Vec<ConnectionRef>)
        requires
            old(self).wf(),
        ensures
            final(self).wf(),
            ({
                let folders = after_change(
                    old(self)@.folders,
                    folder_views(added@),
                    folder_views(removed@),
                );
                final(self)@ == (PoolView {
                    folders,
                    root_uri: first_address(folders),
                    ..old(self)@
                })
            }),
            ref_views(targets@) == refs_of(
                old(self)@.connections,
                old(self).order().filter(picked(old(self)@.connections, hears_of_folders())),
            ),
    {
        self.workspace_folders.apply_change(added, removed);
        let first = self.workspace_folders.first_uri();
        self.root_uri = first;
        let pick = |handle: &ConnectionHandle| -> (wants: bool)
            ensures
                wants == hears_of_folders()(handle@),
            {
                matches!(handle.state(), ConnectionState::Ready)
                    && handle.supports_workspace_folder_changes()
            };
        self.refs_where(pick, Ghost(hears_of_folders()))
    }

    /// Settles telling a connection of changed folders: only where the message was
    /// queued does the connection count as told.
    pub fn folder_change_sent(
        &mut self,
        target: &ConnectionRef,
        added: &Vec<WorkspaceFolder>,
        removed: &Vec<WorkspaceFolder>,
        result: NotificationSendResult,
    )
        requires
            old(self).wf(),
        ensures
            final(self).wf(),
            final(self)@ == (if result is Queued && old(self)@.live(target@.key, target@.id) {
                old(self)@.with_handle(
                    HandleView {
                        folders: after_change(
                            old(self)@.connections[target@.key].folders,
                            folder_views(added@),
                            folder_views(removed@),
                        ),
                        ..old(self)@.connections[target@.key]
                    },
                )
            } else {
                old(self)@
            }),
    {
        if !matches!(result, NotificationSendResult::Queued) || !self.is_live(
            &target.key,
            target.id,
        ) {
            return ;
        }
        if let Some(handle) = self.connections.get_mut(&target.key) {
            handle.workspace_folders_mut().apply_change(added, removed);
        }
    }

    fn any_capable(&self, server_name: &str, method: &str) -> (capable: bool)
        requires
            self.wf(),
        ensures
            capable == some_can(self@.connections, server_name@, method@),
    {
        let mut i: usize = 0;
        while i < self.connections.len()
            invariant
                self.wf(),
                i <= self.connections.keys().len(),
                forall|j: int|
                    0 <= j < i ==> !((#[trigger] self.connections.keys()[j]).server == server_name@
                        && self@.connections[self.connections.keys()[j]].can(method@)),
            decreases self.connections.keys().len() - i,
        {
            let handle = self.connections.handle_at(i);
            if same_text(handle.key().server(), server_name) && handle.has_capability(method) {
                proof {
                    self.connections.lemma_keys();
                    assert(self@.connections.contains_key(self.connections.keys()[i as int]));
                }
                return true;
            }
            i += 1;
        }
        proof {
            self.connections.lemma_keys();
            if some_can(self@.connections, server_name@, method@) {
                let key = choose|key: KeyView| #[trigger]
                    self@.connections.contains_key(key) && key.server == server_name@
                        && self@.connections[key].can(method@);
                assert(self.connections.keys().contains(key));
                let j = choose|j: int|
                    0 <= j < self.connections.keys().len() && self.connections.keys()[j] == key;
                assert(self.connections.keys()[j].server == server_name@);
            }
        }
        false
    }

    fn any_ready(&self, server_name: &str) -> (ready: bool)
        requires
            self.wf(),
        ensures
            ready == some_ready(self@.connections, server_name@),
    {
        let mut i: usize = 0;
        while i < self.connections.len()
            invariant
                self.wf(),
                i <= self.connections.keys().len(),
                forall|j: int|
                    0 <= j < i ==> !((#[trigger] self.connections.keys()[j]).server == server_name@
                        && self@.connections[self.connections.keys()[j]].state is Ready),
            decreases self.connections.keys().len() - i,
        {
            let handle = self.connections.handle_at(i);
            if same_text(handle.key().server(), server_name) && matches!(
                handle.state(),
                ConnectionState::Ready
            ) {
                proof {
                    self.connections.lemma_keys();
                    assert(self@.connections.contains_key(self.connections.keys()[i as int]));
                }
                return true;
            }
            i += 1;
        }
        proof {
            self.connections.lemma_keys();
            if some_ready(self@.connections, server_name@) {
                let key = choose|key: KeyView| #[trigger]
                    self@.connections.contains_key(key) && key.server == server_name@
                        && self@.connections[key].state is Ready;
                assert(self.connections.keys().contains(key));
                let j = choose|j: int|
                    0 <= j < self.connections.keys().len() && self.connections.keys()[j] == key;
                assert(self.connections.keys()[j].server == server_name@);
            }
        }
        false
    }

    /// The servers among the candidates that have a connection which offers
    /// diagnostics on request, each once.
    pub fn pull_driven_servers(&self, candidates: &Vec<String>) -> (names: Vec<String>)
        requires
            self.wf(),
        ensures
            texts(names@).no_duplicates(),
            forall|name: Seq<char>| #[trigger]
                texts(names@).contains(name) <==> texts(candidates@).contains(name) && some_can(
                    self@.connections,
                    name,
                    "textDocument/diagnostic"@,
                ),
    {
        let mut names: Vec<String> = Vec::new();
        let ghost all = texts(candidates@);
        let mut i: usize = 0;
        while i < candidates.len()
            invariant
                self.wf(),
                all == texts(candidates@),
                i <= candidates@.len(),
                texts(names@).no_duplicates(),
                forall|name: Seq<char>| #[trigger]
                    texts(names@).contains(name) <==> all.take(i as int).contains(name)
                        && some_can(self@.connections, name, "textDocument/diagnostic"@),
            decreases candidates@.len() - i,
        {
            let ghost before = texts(names@);
            let name = candidates[i].as_str();
            if !holds_text(&names, name) && self.any_capable(name, "textDocument/diagnostic") {
                let found = candidates[i].clone();
                proof {
                    lemma_texts_push(names@, found);
                }
                names.push(found);
            }
            proof {
                assert(all.take(i + 1) =~= all.take(i as int).push(all[i as int]));
                assert forall|other: Seq<char>| #[trigger]
                    texts(names@).contains(other) <==> all.take(i + 1).contains(other) && some_can(
                        self@.connections,
                        other,
                        "textDocument/diagnostic"@,
                    ) by {
                    crate::seqs::lemma_push_contains(all.take(i as int), all[i as int], other);
                    crate::seqs::lemma_push_contains(before, all[i as int], other);
                    assert(before.contains(other) <==> all.take(i as int).contains(other)
                        && some_can(self@.connections, other, "textDocument/diagnostic"@));
                }
            }
            i += 1;
        }
        assert(all.take(candidates@.len() as int) =~= all);
        names
    }

    /// The servers among the candidates that are known not to answer a method:
    /// some connection is ready, and none offers the method. Of a server without
    /// a ready connection nothing is known.
    pub fn servers_known_incapable(&self, candidates: &Vec<String>, method: &str) -> (names: Vec<
        String,
    >)
        requires
            self.wf(),
        ensures
            texts(names@).no_duplicates(),
            forall|name: Seq<char>| #[trigger]
                texts(names@).contains(name) <==> texts(candidates@).contains(name)
                    && known_incapable(self@.connections, name, method@),
    {
        let mut names: Vec<String> = Vec::new();
        let ghost all = texts(candidates@);
        let mut i: usize = 0;
        while i < candidates.len()
            invariant
                self.wf(),
                all == texts(candidates@),
                i <= candidates@.len(),
                texts(names@).no_duplicates(),
                forall|name: Seq<char>| #[trigger]
                    texts(names@).contains(name) <==> all.take(i as int).contains(name)
                        && known_incapable(self@.connections, name, method@),
            decreases candidates@.len() - i,
        {
            let ghost before = texts(names@);
            let name = candidates[i].as_str();
            if !holds_text(&names, name) && self.any_ready(name) && !self.any_capable(
                name,
                method,
            ) {
                let found = candidates[i].clone();
                proof {
                    lemma_texts_push(names@, found);
                }
                names.push(found);
            }
            proof {
                assert(all.take(i + 1) =~= all.take(i as int).push(all[i as int]));
                assert forall|other: Seq<char>| #[trigger]
                    texts(names@).contains(other) <==> all.take(i + 1).contains(other)
                        && known_incapable(self@.connections, other, method@) by {
                    crate::seqs::lemma_push_contains(all.take(i as int), all[i as int], other);
                    crate::seqs::lemma_push_contains(before, all[i as int], other);
                    assert(before.contains(other) <==> all.take(i as int).contains(other)
                        && known_incapable(self@.connections, other, method@));
                }
            }
            i += 1;
        }
        assert(all.take(candidates@.len() as int) =~= all);
        names
    }
}

/// Whether a server is known not to answer a method.
pub open spec fn known_incapable(
    connections: Map<KeyView, HandleView>,
    server: Seq<char>,
    method: Seq<char>,
) -> bool {
    some_ready(connections, server) && !some_can(connections, server, method)
}

/// A ready shared connection whose server cannot be told of folders gets no
/// document of a root that it does not serve already, and keeps those of the
/// roots that it serves.
pub proof fn shared_instances_take_only_what_they_can(
    connections: Map<KeyView, HandleView>,
    server: Seq<char>,
    marker: MarkerView,
)
    requires
        connections.contains_key(shared_key(server)),
        connections[shared_key(server)].state is Ready,
        !connections[shared_key(server)].takes_folders(),
    ensures
        route(connections, server, true, Some(marker)) == (if serves(
            connections[shared_key(server)].folders,
            marker.folder.uri,
        ) {
            shared_key(server)
        } else {
            marker_key(server, marker.root)
        }),
{
}

/// A document that is diverted from a shared connection goes where it would have
/// gone had the connection been known to be unable to take its root on.
pub proof fn diverting_agrees_with_routing(
    pool: PoolView,
    server: Seq<char>,
    marker: MarkerView,
    last_takes_folders: bool,
    last_folders: Option<Seq<FolderView>>,
)
    requires
        pool.connections.contains_key(shared_key(server)),
        pool.connections[shared_key(server)].state is Ready,
    ensures
        ({
            let shared = shared_key(server);
            let id = pool.connections[shared].id;
            let diverted = is_diverted(
                takes_folders_of(pool, shared, id, last_takes_folders),
                folders_of(pool, shared, id, last_folders),
                Some(marker),
            );
            route(pool.connections, server, true, Some(marker)) == (if diverted {
                root_key(server, Some(marker))
            } else {
                shared
            })
        }),
{
}

/// A root that was announced counts as served from then on, so that it is not
/// announced again, and the roots that were served stay so.
pub proof fn announced_roots_are_served(
    folders: Option<Seq<FolderView>>,
    folder: FolderView,
    other: Seq<char>,
)
    ensures
        serves(Some(with_folder(listed(folders), folder)), folder.uri),
        serves(folders, other) ==> serves(Some(with_folder(listed(folders), folder)), other),
{
    let before = listed(folders);
    let after = with_folder(before, folder);
    if !lists_folder(before, folder.uri) {
        assert(after[before.len() as int] == folder);
    }
    if serves(folders, other) {
        let i = choose|i: int| 0 <= i < before.len() && (#[trigger] before[i]).uri == other;
        assert(after[i] == before[i]);
    }
}

/// A document without a root of its own never goes to a shared connection, nor
/// does any document of a server that is not to be shared. Where nothing is known
/// of the shared connection, documents with a root go to it.
pub proof fn sharing_is_opt_in(
    connections: Map<KeyView, HandleView>,
    server: Seq<char>,
    prefers_shared: bool,
    marker: Option<MarkerView>,
)
    ensures
        marker is None || !prefers_shared ==> route(connections, server, prefers_shared, marker)
            == root_key(server, marker),
        marker is Some && prefers_shared && !(connections.contains_key(shared_key(server))
            && connections[shared_key(server)].state is Ready) ==> route(
            connections,
            server,
            prefers_shared,
            marker,
        ) == shared_key(server),
        marker is Some && prefers_shared && connections.contains_key(shared_key(server))
            && connections[shared_key(server)].takes_folders() ==> route(
            connections,
            server,
            prefers_shared,
            marker,
        ) == shared_key(server),
{
}

/// Documents under different roots go to different connections, and servers
/// never share one.
pub proof fn roots_are_kept_apart(
    server: Seq<char>,
    other: Seq<char>,
    marker: Option<MarkerView>,
    another: Option<MarkerView>,
)
    ensures
        root_key(server, marker) == root_key(other, another) <==> server == other && (match (
            marker,
            another,
        ) {
            (Some(one), Some(two)) => one.root == two.root,
            (None, None) => true,
            _ => false,
        }),
{
}

/// A server of which nothing is known yet is not dropped from a request: it has
/// no connection, or none that is ready.
pub proof fn unknown_servers_are_kept(
    connections: Map<KeyView, HandleView>,
    server: Seq<char>,
    method: Seq<char>,
)
    requires
        forall|key: KeyView| #[trigger]
            connections.contains_key(key) && key.server == server ==> !(
            connections[key].state is Ready),
    ensures
        !known_incapable(connections, server, method),
{
}

/// The root is the address of the first folder. So it stays when folders are only
/// added, it stays as long as the first folder does, the first of the added
/// folders takes its place where none was open, and there is none where the last
/// folder goes.
pub proof fn the_first_folder_is_the_root(
    folders: Seq<FolderView>,
    added: Seq<FolderView>,
    removed: Seq<FolderView>,
)
    ensures
        folders.len() > 0 ==> first_address(Some(folders)) == Some(folders[0].uri),
        first_address(Some(Seq::empty())) is None,
        first_address(None) is None,
        folders.len() > 0 ==> first_address(after_change(Some(folders), added, Seq::empty()))
            == Some(folders[0].uri),
        folders.len() > 0 && (forall|i: int|
            0 <= i < removed.len() ==> (#[trigger] removed[i]).uri != folders[0].uri)
            ==> first_address(after_change(Some(folders), added, removed)) == Some(folders[0].uri),
        added.len() > 0 ==> first_address(after_change(None, added, removed)) == Some(added[0].uri),
        added.len() > 0 ==> first_address(after_change(Some(Seq::empty()), added, removed)) == Some(
            added[0].uri,
        ),
        first_address(after_change(Some(folders), Seq::empty(), folders)) is None,
{
    let stays = |folder: FolderView|
        forall|i: int| 0 <= i < removed.len() ==> (#[trigger] removed[i]).uri != folder.uri;
    folders_keep_their_order(folders, added, removed);
    let after = listed(after_change(Some(folders), added, Seq::empty()));
    let changed = listed(after_change(Some(folders), added, removed));
    let kept = folders.filter(stays);
    if folders.len() > 0 {
        assert(after[0] == after.take(folders.len() as int)[0]);
        if stays(folders[0]) {
            assert(folders =~= seq![folders[0]] + folders.skip(1));
            lemma_filter_first(folders, stays);
            assert(changed[0] == changed.take(kept.len() as int)[0]);
        }
    }
    if added.len() > 0 {
        lemma_first_added(added);
        reveal(Seq::filter);
        assert(Seq::<FolderView>::empty().filter(staying(removed)) =~= Seq::<FolderView>::empty());
    }
    let gone = folders.filter(staying(folders));
    crate::seqs::lemma_filter_members(folders, staying(folders));
    if gone.len() > 0 {
        assert(gone.contains(gone[0]));
        assert(folders.contains(gone[0]));
        let i = choose|i: int| 0 <= i < folders.len() && folders[i] == gone[0];
        assert(folders[i].uri == gone[0].uri);
    }
}

proof fn lemma_filter_first(folders: Seq<FolderView>, keep: spec_fn(FolderView) -> bool)
    requires
        folders.len() > 0,
        keep(folders[0]),
    ensures
        folders.filter(keep).len() > 0,
        folders.filter(keep)[0] == folders[0],
    decreases folders.len(),
{
    reveal(Seq::filter);
    if folders.len() > 1 {
        assert(folders.drop_last()[0] == folders[0]);
        lemma_filter_first(folders.drop_last(), keep);
    } else {
        assert(folders.drop_last() =~= Seq::<FolderView>::empty());
        assert(folders.drop_last().filter(keep) =~= Seq::<FolderView>::empty());
        assert(folders.last() == folders[0]);
    }
}

proof fn lemma_first_added(added: Seq<FolderView>)
    requires
        added.len() > 0,
    ensures
        with_folders(Seq::empty(), added).len() > 0,
        with_folders(Seq::empty(), added)[0] == added[0],
    decreases added.len(),
{
    if added.len() > 1 {
        assert(added.drop_last()[0] == added[0]);
        lemma_first_added(added.drop_last());
    } else {
        assert(added.drop_last() =~= Seq::<FolderView>::empty());
        assert(with_folders(Seq::empty(), added.drop_last()) =~= Seq::<FolderView>::empty());
        assert(!lists_folder(Seq::empty(), added.last().uri));
        assert(added.last() == added[0]);
    }
}

/// The connections that are told of changed folders are exactly those that are
/// ready and whose server announced that it wants to hear of them.
pub proof fn folder_changes_reach_those_who_hear(
    connections: Map<KeyView, HandleView>,
    order: Seq<KeyView>,
    key: KeyView,
)
    ensures
        refs_of(connections, order.filter(picked(connections, hears_of_folders()))).contains(
            RefView { key, id: connections[key].id },
        ) <==> order.contains(key) && connections[key].state is Ready
            && connections[key].capabilities is Some
            && connections[key].capabilities->0.workspace_folders is Some
            && connections[key].capabilities->0.workspace_folders->0.supported == Some(true) && (
        connections[key].capabilities->0.workspace_folders->0.change_notifications == Some(
            ChangeNotifications::Flag(true),
        ) || connections[key].capabilities->0.workspace_folders->0.change_notifications == Some(
            ChangeNotifications::Registered,
        )),
{
    crate::connection_ref::targets_are_the_picked(connections, order, hears_of_folders(), key);
}

/// A server is known not to answer a method exactly where one of its connections
/// is ready and none of them offers the method. What other servers do plays no
/// part.
pub proof fn incapability_is_known_from_own_connections(
    one: Map<KeyView, HandleView>,
    two: Map<KeyView, HandleView>,
    server: Seq<char>,
    method: Seq<char>,
    key: KeyView,
)
    requires
        forall|k: KeyView|
            k.server == server ==> (#[trigger] one.contains_key(k) <==> two.contains_key(k)) && (
            one.contains_key(k) ==> one[k] == two[k]),
    ensures
        known_incapable(one, server, method) == known_incapable(two, server, method),
        some_can(one, server, method) == some_can(two, server, method),
        one.contains_key(key) && key.server == server && one[key].can(method) ==> !known_incapable(
            one,
            server,
            method,
        ) && some_can(one, server, method),
        one.contains_key(key) && key.server == server && one[key].state is Ready && (forall|
            k: KeyView,
        | #[trigger]
            one.contains_key(k) && k.server == server ==> !one[k].can(method)) ==> known_incapable(
            one,
            server,
            method,
        ),
{
    if some_can(one, server, method) {
        let k = choose|k: KeyView| #[trigger]
            one.contains_key(k) && k.server == server && one[k].can(method);
        assert(two.contains_key(k));
    }
    if some_can(two, server, method) {
        let k = choose|k: KeyView| #[trigger]
            two.contains_key(k) && k.server == server && two[k].can(method);
        assert(one.contains_key(k));
    }
    if some_ready(one, server) {
        let k = choose|k: KeyView| #[trigger]
            one.contains_key(k) && k.server == server && one[k].state is Ready;
        assert(two.contains_key(k));
    }
    if some_ready(two, server) {
        let k = choose|k: KeyView| #[trigger]
            two.contains_key(k) && k.server == server && two[k].state is Ready;
        assert(one.contains_key(k));
    }
}

/// What is known of a connection comes from the pool while the pool holds it, and
/// from what was last seen otherwise.
pub proof fn the_pool_knows_its_own_connections(
    pool: PoolView,
    key: KeyView,
    id: u64,
    last_takes_folders: bool,
    last_folders: Option<Seq<FolderView>>,
)
    ensures
        pool.connections.contains_key(key) && pool.connections[key].id == id ==> folders_of(
            pool,
            key,
            id,
            last_folders,
        ) == pool.connections[key].folders && takes_folders_of(pool, key, id, last_takes_folders)
            == pool.connections[key].takes_folders(),
        !(pool.connections.contains_key(key) && pool.connections[key].id == id) ==> folders_of(
            pool,
            key,
            id,
            last_folders,
        ) == last_folders && takes_folders_of(pool, key, id, last_takes_folders)
            == last_takes_folders,
{
}

/// A document leaves a shared connection only where the server cannot be told of
/// folders and the document's root is not among those that it serves.
pub proof fn only_unserved_roots_are_diverted(
    folders: Option<Seq<FolderView>>,
    marker: MarkerView,
)
    ensures
        !is_diverted(true, folders, Some(marker)) && !is_diverted(true, folders, None),
        is_diverted(false, folders, None),
        is_diverted(false, folders, Some(marker)) <==> !listed(folders).map_values(
            |folder: FolderView| folder.uri,
        ).contains(marker.folder.uri),
{
    folders_are_found_by_address(listed(folders), marker.folder.uri);
    assert(Seq::<FolderView>::empty().map_values(|folder: FolderView| folder.uri)
        =~= Seq::<Seq<char>>::empty());
}

/// A marker root is its root and its folder.
pub proof fn marker_roots_say_every_part(one: MarkerRoot, two: MarkerRoot)
    ensures
        one@ == two@ <==> one.root@ == two.root@ && one.folder@ == two.folder@,
        one@.root == one.root@ && one@.folder == one.folder@,
        optional_marker(Some(&one)) == Some(one@),
        optional_marker(None) is None,
{
}

} // verus!
