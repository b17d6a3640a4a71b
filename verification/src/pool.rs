//! The pool: all connections to downstream servers, and what is open on them.

use crate::cancel_metrics::{CancelForwardingMetrics, MetricsView};
use crate::command_origin_registry::CommandOriginRegistry;
use crate::connection_handle::{ConnectionHandle, HandleView};
use crate::connection_key::{ConnectionKey, KeyView};
use crate::connection_ref::{lemma_refs_push, picked, ref_views, refs_of, ConnectionRef};
use crate::connection_state::ConnectionState;
use crate::connections::Connections;
use crate::host_contents::LatestVirtualContents;
use crate::host_documents::HostDocuments;
use crate::opening::{OpenDocuments, OpeningView};
use crate::pool_state::{taken_out, ClientCapabilities, PoolView};
use crate::table::Table;
use crate::upstream::{
    request_added, request_count, request_taken, UpstreamId, UpstreamRequestRegistry,
};
use crate::workspace_folders::{optional_folder_views, WorkspaceFolder, WorkspaceFolderSet};
use vstd::prelude::*;

pub mod acquire;
pub mod cancel;
pub mod documents;
pub mod execute;
pub mod routing;
pub mod settings_push;
pub mod shutdown;

verus! {

/// How long the handshake with a server may take, in seconds.
pub const INIT_TIMEOUT_SECS: u64 = 30;

/// All connections to downstream servers, and what is open on them.
pub struct LanguageServerPool {
    connections: Connections,
    shutting_down: bool,
    documents: OpenDocuments,
    contents: LatestVirtualContents,
    host_documents: HostDocuments,
    requests: UpstreamRequestRegistry,
    cancel_metrics: CancelForwardingMetrics,
    consecutive_panic_counts: Table<ConnectionKey, u32>,
    root_uri: Option<String>,
    workspace_folders: WorkspaceFolderSet,
    command_origins: CommandOriginRegistry,
    client_capabilities: Option<ClientCapabilities>,
}

/// The content of an optional text.
pub open spec fn optional_text(text: Option<String>) -> Option<Seq<char>> {
    match text {
        Some(text) => Some(text@),
        None => None,
    }
}

impl View for LanguageServerPool {
    type V = PoolView;

    closed spec fn view(&self) -> PoolView {
        PoolView {
            connections: self.connections@,
            next_handle: self.connections.next_id(),
            shutting_down: self.shutting_down,
            documents: self.documents@,
            contents: self.contents@,
            host_documents: self.host_documents@,
            requests: self.requests@,
            metrics: self.cancel_metrics@,
            panics: self.consecutive_panic_counts@,
            root_uri: optional_text(self.root_uri),
            folders: self.workspace_folders@,
            commands: self.command_origins@,
            client: self.client_capabilities,
        }
    }
}

/// A pool that knows nothing.
pub open spec fn empty_pool() -> PoolView {
    PoolView {
        connections: Map::empty(),
        next_handle: 0,
        shutting_down: false,
        documents: OpeningView {
            tracker: crate::document_tracking::nothing_open(),
            claims: Map::empty(),
            sent: Map::empty(),
            next: 0,
            generations: Map::empty(),
        },
        contents: Map::empty(),
        host_documents: Map::empty(),
        requests: Map::empty(),
        metrics: MetricsView {
            successful: 0,
            no_connection: 0,
            not_ready: 0,
            unknown_id: 0,
            not_in_registry: 0,
        },
        panics: Map::empty(),
        root_uri: None,
        folders: None,
        commands: Map::empty(),
        client: None,
    }
}

impl Default for LanguageServerPool {
    fn default() -> (pool: Self)
        ensures
            pool.wf(),
            pool@ == empty_pool(),
    {
        LanguageServerPool::new()
    }
}

impl LanguageServerPool {
    /// All parts of the pool are in order.
    pub closed spec fn wf(self) -> bool {
        &&& self.connections.wf()
        &&& self.documents.wf()
        &&& self.contents.wf()
        &&& self.host_documents.wf()
        &&& self.requests.wf()
        &&& self.consecutive_panic_counts.wf()
        &&& self.command_origins.wf()
    }

    /// The keys of the connections in the order in which they came in.
    pub closed spec fn order(self) -> Seq<KeyView> {
        self.connections.keys()
    }

    /// The known command names in the order in which they are walked.
    pub closed spec fn command_order(self) -> Seq<Seq<char>> {
        self.command_origins.names()
    }

    /// What always holds of a pool: the ordered keys are those of the connections,
    /// each once, every connection is held under its own key, the tracked
    /// documents are consistent and claims are backed, no finished request is
    /// listed, and what is known of commands is sound, with each name walked once.
    pub proof fn lemma_invariant(self)
        requires
            self.wf(),
        ensures
            self.order().no_duplicates(),
            forall|key: KeyView|
                self@.connections.contains_key(key) <==> #[trigger] self.order().contains(key),
            forall|i: int|
                0 <= i < self.order().len() ==> self@.connections.contains_key(
                    #[trigger] self.order()[i],
                ),
            crate::connections::keys_agree(self@.connections),
            crate::opening::claims_are_backed(self@.documents),
            crate::document_tracking::tracking_is_consistent(self@.documents.tracker),
            crate::upstream::requests_are_live(self@.requests),
            crate::command_origins::origins_are_sound(self@.commands),
            self.command_order().no_duplicates(),
            forall|name: Seq<char>|
                self@.commands.contains_key(name) <==> #[trigger] self.command_order().contains(
                    name,
                ),
    {
        self.connections.lemma_keys();
        self.documents.lemma_consistent();
        self.requests.lemma_live();
        self.command_origins.lemma_sound();
        self.command_origins.lemma_names();
    }

    /// A pool without connections.
    pub fn new() -> (pool: Self)
        ensures
            pool.wf(),
            pool@ == empty_pool(),
    {
        let pool = LanguageServerPool {
            connections: Connections::new(),
            shutting_down: false,
            documents: OpenDocuments::new(),
            contents: LatestVirtualContents::new(),
            host_documents: HostDocuments::new(),
            requests: UpstreamRequestRegistry::new(),
            cancel_metrics: CancelForwardingMetrics::default(),
            consecutive_panic_counts: Table::new(),
            root_uri: None,
            workspace_folders: WorkspaceFolderSet::new(None),
            command_origins: CommandOriginRegistry::default(),
            client_capabilities: None,
        };
        assert(pool@ =~= empty_pool());
        pool
    }

    /// The connection of a key, whatever its state.
    pub fn connection(&self, key: &ConnectionKey) -> (found: Option<&ConnectionHandle>)
        requires
            self.wf(),
        ensures
            match found {
                Some(handle) => self@.connections.contains_key(key@) && handle.wf() && handle@
                    == self@.connections[key@],
                None => !self@.connections.contains_key(key@),
            },
    {
        self.connections.get(key)
    }

    /// The connection of a key, if it is ready.
    pub fn ready_connection_by_key(&self, key: &ConnectionKey) -> (found: Option<&ConnectionHandle>)
        requires
            self.wf(),
        ensures
            match found {
                Some(handle) => self@.connections.contains_key(key@) && handle.wf() && handle@
                    == self@.connections[key@] && handle@.state is Ready,
                None => !(self@.connections.contains_key(key@)
                    && self@.connections[key@].state is Ready),
            },
    {
        match self.connections.get(key) {
            Some(handle) => match handle.state() {
                ConnectionState::Ready => Some(handle),
                _ => None,
            },
            None => None,
        }
    }

    /// The connection of a key, to be changed in place.
    pub fn connection_mut(&mut self, key: &ConnectionKey) -> (found: Option<&mut ConnectionHandle>)
        requires
            old(self).wf(),
        ensures
            match found {
                Some(handle) => old(self)@.connections.contains_key(key@) && handle.wf() && handle@
                    == old(self)@.connections[key@] && handle@.key == key@ && final(self)@ == (
                PoolView {
                    connections: old(self)@.connections.insert(key@, final(handle)@),
                    ..old(self)@
                }) && (final(handle).wf() && final(handle)@.key == key@ ==> final(self).wf()),
                None => !old(self)@.connections.contains_key(key@) && final(self)@ == old(self)@
                    && final(self).wf(),
            },
    {
        self.connections.get_mut(key)
    }

    /// Puts a connection under its key.
    pub fn insert_connection(&mut self, handle: ConnectionHandle)
        requires
            old(self).wf(),
            handle.wf(),
        ensures
            final(self).wf(),
            final(self)@ == old(self)@.with_handle(handle@),
    {
        self.connections.insert(handle);
    }

    /// Whether the connection with the number is the one that the pool holds
    /// under a key.
    pub fn is_live(&self, key: &ConnectionKey, id: u64) -> (live: bool)
        requires
            self.wf(),
        ensures
            live == self@.live(key@, id),
    {
        match self.connections.get(key) {
            Some(handle) => handle.id() == id,
            None => false,
        }
    }

    /// Moves a connection to a state, if it is the one that the pool holds.
    pub fn set_state(&mut self, key: &ConnectionKey, id: u64, state: ConnectionState)
        requires
            old(self).wf(),
        ensures
            final(self).wf(),
            final(self)@ == old(self)@.with_state_if_live(key@, id, state),
    {
        if !self.is_live(key, id) {
            return ;
        }
        if let Some(handle) = self.connections.get_mut(key) {
            handle.set_state(state);
        }
        assert(self@ =~= old(self)@.with_state(key@, state));
    }

    /// Takes a connection out, with everything that was open on it.
    fn take_out(&mut self, key: &ConnectionKey) -> (removed: Option<ConnectionHandle>)
        requires
            old(self).wf(),
        ensures
            final(self).wf(),
            final(self)@ == taken_out(old(self)@, key@),
            match removed {
                Some(handle) => old(self)@.connections.contains_key(key@) && handle.wf() && handle@
                    == old(self)@.connections[key@],
                None => !old(self)@.connections.contains_key(key@),
            },
            final(self).order() == old(self).order().filter(|k: KeyView| k != key@),
    {
        self.host_documents.purge_connection(key);
        self.documents.purge_connection(key);
        self.connections.remove(key)
    }

    /// The connections that are picked, in the order in which they came in.
    fn refs_where<F: Fn(&ConnectionHandle) -> bool>(
        &self,
        pick: F,
        Ghost(wanted): Ghost<spec_fn(HandleView) -> bool>,
    ) -> (list: Vec<ConnectionRef>)
        requires
            self.wf(),
            forall|handle: &ConnectionHandle|
                handle.wf() ==> #[trigger] call_requires(pick, (handle,)),
            forall|handle: &ConnectionHandle, wants: bool| #[trigger]
                call_ensures(pick, (handle,), wants) ==> wants == wanted(handle@),
        ensures
            ref_views(list@) == refs_of(
                self@.connections,
                self.order().filter(picked(self@.connections, wanted)),
            ),
    {
        let ghost connections = self@.connections;
        let ghost order = self.order();
        let ghost keep = picked(connections, wanted);
        let mut list: Vec<ConnectionRef> = Vec::new();
        let mut i: usize = 0;
        proof {
            reveal(Seq::filter);
            assert(ref_views(list@) =~= refs_of(connections, order.take(0).filter(keep)));
        }
        while i < self.connections.len()
            invariant
                self.wf(),
                connections == self.connections@,
                order == self.connections.keys(),
                keep == picked(connections, wanted),
                i <= order.len(),
                forall|handle: &ConnectionHandle|
                    handle.wf() ==> #[trigger] call_requires(pick, (handle,)),
                forall|handle: &ConnectionHandle, wants: bool| #[trigger]
                    call_ensures(pick, (handle,), wants) ==> wants == wanted(handle@),
                ref_views(list@) == refs_of(connections, order.take(i as int).filter(keep)),
            decreases order.len() - i,
        {
            let handle = self.connections.handle_at(i);
            proof {
                assert(order.take(i + 1) =~= order.take(i as int).push(order[i as int]));
                order.take(i as int).lemma_filter_push(order[i as int], keep);
            }
            if pick(handle) {
                let found = ConnectionRef { key: handle.key().clone(), id: handle.id() };
                proof {
                    lemma_refs_push(
                        connections,
                        order.take(i as int).filter(keep),
                        list@,
                        order[i as int],
                        found,
                    );
                }
                list.push(found);
            }
            i += 1;
        }
        assert(order.take(order.len() as int) =~= order);
        list
    }

    /// The commands that servers announced.
    pub fn command_origins(&self) -> (registry: &CommandOriginRegistry)
        requires
            self.wf(),
        ensures
            registry.wf(),
            registry@ == self@.commands,
            registry.names() == self.command_order(),
    {
        &self.command_origins
    }

    /// The commands that servers announced, to be changed in place.
    pub fn command_origins_mut(&mut self) -> (registry: &mut CommandOriginRegistry)
        requires
            old(self).wf(),
        ensures
            registry.wf(),
            registry@ == old(self)@.commands,
            registry.names() == old(self).command_order(),
            final(self)@ == (PoolView { commands: final(registry)@, ..old(self)@ }),
            final(registry).wf() ==> final(self).wf(),
    {
        &mut self.command_origins
    }

    /// How forwarding cancellations went.
    pub fn cancel_metrics(&self) -> (metrics: &CancelForwardingMetrics)
        ensures
            metrics@ == self@.metrics,
    {
        &self.cancel_metrics
    }

    /// The documents that are open on connections.
    pub fn documents(&self) -> (documents: &OpenDocuments)
        requires
            self.wf(),
        ensures
            documents.wf(),
            documents@ == self@.documents,
    {
        &self.documents
    }

    /// The host documents that servers are kept in step with.
    pub fn host_documents(&self) -> (documents: &HostDocuments)
        requires
            self.wf(),
        ensures
            documents.wf(),
            documents@ == self@.host_documents,
    {
        &self.host_documents
    }

    /// The latest contents of the regions of host documents.
    pub fn contents(&self) -> (contents: &LatestVirtualContents)
        requires
            self.wf(),
        ensures
            contents.wf(),
            contents@ == self@.contents,
    {
        &self.contents
    }

    /// Notes that a connection works on a request of the editor.
    pub fn register_upstream_request(&mut self, id: UpstreamId, key: &ConnectionKey)
        requires
            old(self).wf(),
        ensures
            final(self).wf(),
            final(self)@ == (PoolView {
                requests: request_added(old(self)@.requests, id@, key@),
                ..old(self)@
            }),
    {
        self.requests.register_upstream_request(id, key);
    }

    /// Notes that a connection is done with a request of the editor.
    pub fn unregister_upstream_request(&mut self, id: &UpstreamId, key: &ConnectionKey)
        requires
            old(self).wf(),
        ensures
            final(self).wf(),
            final(self)@ == (PoolView {
                requests: request_taken(old(self)@.requests, id@, key@),
                ..old(self)@
            }),
    {
        self.requests.unregister_upstream_request(id, key);
    }

    /// Forgets a request of the editor on all connections.
    pub fn unregister_all_for_upstream_id(&mut self, id: Option<&UpstreamId>)
        requires
            old(self).wf(),
        ensures
            final(self).wf(),
            final(self)@ == (PoolView {
                requests: match id {
                    Some(id) => old(self)@.requests.remove(id@),
                    None => old(self)@.requests,
                },
                ..old(self)@
            }),
    {
        self.requests.unregister_all_for_upstream_id(id);
    }

    /// How many requests of a name are under way on a connection.
    pub fn upstream_request_count(&self, id: &UpstreamId, key: &ConnectionKey) -> (count: usize)
        requires
            self.wf(),
        ensures
            count == request_count(self@.requests, id@, key@),
    {
        self.requests.count(id, key)
    }

    /// Sets the root that the editor announced.
    pub fn set_root_uri(&mut self, uri: Option<String>)
        requires
            old(self).wf(),
        ensures
            final(self).wf(),
            final(self)@ == (PoolView { root_uri: optional_text(uri), ..old(self)@ }),
    {
        self.root_uri = uri;
    }

    /// The root that the editor announced.
    pub fn root_uri(&self) -> (uri: Option<String>)
        ensures
            optional_text(uri) == self@.root_uri,
    {
        match &self.root_uri {
            Some(uri) => Some(uri.clone()),
            None => None,
        }
    }

    /// Sets the folders that the editor has open.
    pub fn set_workspace_folders(&mut self, folders: Option<Vec<WorkspaceFolder>>)
        requires
            old(self).wf(),
        ensures
            final(self).wf(),
            final(self)@ == (PoolView { folders: optional_folder_views(folders), ..old(self)@ }),
    {
        self.workspace_folders.replace(folders);
    }

    /// The folders that the editor has open.
    pub fn workspace_folders(&self) -> (folders: Option<Vec<WorkspaceFolder>>)
        ensures
            optional_folder_views(folders) == self@.folders,
    {
        self.workspace_folders.snapshot()
    }

    /// Keeps what the editor says of itself. Only the first word counts.
    pub fn set_client_capabilities(&mut self, capabilities: ClientCapabilities)
        requires
            old(self).wf(),
        ensures
            final(self).wf(),
            final(self)@ == (PoolView {
                client: if old(self)@.client is Some {
                    old(self)@.client
                } else {
                    Some(capabilities)
                },
                ..old(self)@
            }),
    {
        if self.client_capabilities.is_none() {
            self.client_capabilities = Some(capabilities);
        }
    }

    /// What the editor says of itself.
    pub fn client_capabilities(&self) -> (capabilities: Option<ClientCapabilities>)
        ensures
            capabilities == self@.client,
    {
        self.client_capabilities
    }
}

/// A text that may be missing says what it holds, and a new pool knows of nothing and
/// is not being taken down.
pub proof fn pools_start_empty(text: String, key: KeyView, uri: Seq<char>)
    ensures
        optional_text(Some(text)) == Some(text@),
        optional_text(None) is None,
        !empty_pool().connections.contains_key(key),
        !empty_pool().shutting_down,
        !crate::opening::is_open(empty_pool().documents, uri, key),
        !empty_pool().contents.contains_key(uri),
        !empty_pool().commands.contains_key(uri),
        empty_pool().root_uri is None && empty_pool().folders is None,
        empty_pool().client is None,
        empty_pool().panic_count(key) == 0,
{
}

} // verus!
