//! The mathematical content of a pool, and how its parts change together.

use crate::cancel_metrics::MetricsView;
use crate::command_origins::OriginsView;
use crate::connection_action::{action_for, ConnectionAction};
use crate::connection_handle::{fresh_handle, HandleView};
use crate::connection_key::KeyView;
use crate::connection_state::ConnectionState;
use crate::connections::{handle_after, is_live};
use crate::document_place::{off_connection, PlaceView};
use crate::host_contents::HostView;
use crate::host_documents::HostDocSyncState;
use crate::opening::{connection_purged, OpeningView};
use crate::settings::{launches_agree_in_every_part, BridgeServerConfig, LaunchView};
use crate::text::texts;
use crate::upstream::UpstreamView;
use crate::workspace_folders::FolderView;
use vstd::prelude::*;

verus! {

/// What the editor says of itself, as far as the pool asks.
#[derive(Clone, Copy, Debug, PartialEq, Eq, Structural)]
pub struct ClientCapabilities {
    /// Whether commands may be announced while the editor runs.
    pub execute_command_dynamic_registration: Option<bool>,
}

/// Everything that a pool knows.
#[verifier::ext_equal]
pub struct PoolView {
    pub connections: Map<KeyView, HandleView>,
    /// The number that the next connection gets.
    pub next_handle: u64,
    pub shutting_down: bool,
    pub documents: OpeningView,
    /// The latest contents by host document.
    pub contents: Map<Seq<char>, HostView>,
    pub host_documents: Map<PlaceView, HostDocSyncState>,
    /// On which connections the editor's requests are being worked on.
    pub requests: Map<UpstreamView, Map<KeyView, usize>>,
    pub metrics: MetricsView,
    /// How often in a row the handshake of a connection crashed.
    pub panics: Map<KeyView, u32>,
    pub root_uri: Option<Seq<char>>,
    pub folders: Option<Seq<FolderView>>,
    pub commands: Map<Seq<char>, OriginsView>,
    pub client: Option<ClientCapabilities>,
}

impl PoolView {
    /// Whether the connection with the number is the one that the pool holds
    /// under a key.
    pub open spec fn live(self, key: KeyView, id: u64) -> bool {
        is_live(self.connections, key, id)
    }

    /// How often in a row the handshake of a connection crashed.
    pub open spec fn panic_count(self, key: KeyView) -> u32 {
        if self.panics.contains_key(key) {
            self.panics[key]
        } else {
            0
        }
    }

    /// The pool with one connection changed.
    pub open spec fn with_handle(self, handle: HandleView) -> PoolView {
        PoolView { connections: self.connections.insert(handle.key, handle), ..self }
    }

    /// The pool with one connection in another state.
    pub open spec fn with_state(self, key: KeyView, state: ConnectionState) -> PoolView {
        PoolView {
            connections: self.connections.insert(key, self.connections[key].in_state(state)),
            ..self
        }
    }

    /// The pool with a connection in another state, if it is the one that the
    /// pool holds.
    pub open spec fn with_state_if_live(
        self,
        key: KeyView,
        id: u64,
        state: ConnectionState,
    ) -> PoolView {
        if self.live(key, id) {
            self.with_state(key, state)
        } else {
            self
        }
    }
}

/// A connection is taken out, with everything that was open on it.
pub open spec fn taken_out(pool: PoolView, key: KeyView) -> PoolView {
    PoolView {
        connections: pool.connections.remove(key),
        host_documents: off_connection(pool.host_documents, key),
        documents: connection_purged(pool.documents, key),
        ..pool
    }
}

/// Several connections are taken out, one after the other.
pub open spec fn all_taken_out(pool: PoolView, keys: Seq<KeyView>) -> PoolView
    decreases keys.len(),
{
    if keys.len() == 0 {
        pool
    } else {
        taken_out(all_taken_out(pool, keys.drop_last()), keys.last())
    }
}

/// Whether the connection that is there was started with another configuration
/// than the one asked for now.
pub open spec fn needs_relaunch(pool: PoolView, key: KeyView, launch: LaunchView) -> bool {
    pool.connections.contains_key(key) && pool.connections[key].launch is Some
        && pool.connections[key].launch != Some(launch)
}

/// The state that decides about the connection that is there. One that was
/// started with another configuration counts as failed.
pub open spec fn deciding_state(pool: PoolView, key: KeyView, launch: LaunchView) -> Option<
    ConnectionState,
> {
    if !pool.connections.contains_key(key) {
        None
    } else if needs_relaunch(pool, key, launch) {
        Some(ConnectionState::Failed)
    } else {
        Some(pool.connections[key].state)
    }
}

/// What is to be done about a connection that is asked for.
pub open spec fn acquire_action(pool: PoolView, key: KeyView, launch: LaunchView) -> ConnectionAction {
    action_for(deciding_state(pool, key, launch), pool.panic_count(key))
}

/// A server was started for a key: its connection is initializing.
pub open spec fn spawned(
    pool: PoolView,
    key: KeyView,
    launch: LaunchView,
    settings: Option<serde_json::Value>,
    folders: Option<Seq<FolderView>>,
) -> PoolView {
    PoolView {
        connections: pool.connections.insert(
            key,
            HandleView {
                launch: Some(launch),
                ..fresh_handle(
                    key,
                    pool.next_handle,
                    ConnectionState::Initializing,
                    settings,
                    folders,
                )
            },
        ),
        next_handle: handle_after(pool.next_handle),
        ..pool
    }
}

/// One more crash, as far as one can count.
pub open spec fn one_more_panic(count: u32) -> u32 {
    if count < u32::MAX {
        (count + 1) as u32
    } else {
        count
    }
}

/// Taking a connection out leaves the other connections, and what is open on
/// them, as they were.
pub proof fn taking_out_spares_other_connections(pool: PoolView, key: KeyView, other: KeyView)
    requires
        key != other,
    ensures
        taken_out(pool, key).connections.contains_key(other) == pool.connections.contains_key(
            other,
        ),
        pool.connections.contains_key(other) ==> taken_out(pool, key).connections[other]
            == pool.connections[other],
        forall|uri: Seq<char>|
            taken_out(pool, key).host_documents.contains_key(PlaceView { uri, key: other })
                == #[trigger] pool.host_documents.contains_key(PlaceView { uri, key: other }),
        forall|uri: Seq<char>|
            crate::opening::is_open(taken_out(pool, key).documents, uri, other)
                == #[trigger] crate::opening::is_open(pool.documents, uri, other),
{
}

/// A connection that was taken out holds nothing, and nothing of it is open.
pub proof fn taking_out_leaves_nothing(pool: PoolView, key: KeyView, uri: Seq<char>)
    ensures
        !taken_out(pool, key).connections.contains_key(key),
        !taken_out(pool, key).host_documents.contains_key(PlaceView { uri, key }),
        !crate::opening::is_open(taken_out(pool, key).documents, uri, key),
{
}

/// A connection that is asked for again under the configuration that it was
/// started with is not started again while it can be used or may still become
/// usable.
pub proof fn working_connections_are_kept(pool: PoolView, key: KeyView, launch: LaunchView)
    requires
        pool.connections.contains_key(key),
        !needs_relaunch(pool, key, launch),
    ensures
        pool.connections[key].state is Ready ==> acquire_action(pool, key, launch) is ReturnExisting,
        pool.connections[key].state is Initializing ==> acquire_action(
            pool,
            key,
            launch,
        ) is FailFast,
{
}

/// A changed configuration replaces the connection, whatever its state, unless
/// its handshake crashed too often.
pub proof fn changed_configurations_restart(pool: PoolView, key: KeyView, launch: LaunchView)
    requires
        needs_relaunch(pool, key, launch),
        pool.panic_count(key) < crate::connection_action::MAX_CONSECUTIVE_PANICS,
    ensures
        acquire_action(pool, key, launch) is SpawnNew,
{
}

/// A connection that was just started is live, and the one that it replaces is
/// not any more, as long as numbers do not repeat.
pub proof fn replacements_are_told_apart(
    pool: PoolView,
    key: KeyView,
    launch: LaunchView,
    settings: Option<serde_json::Value>,
    folders: Option<Seq<FolderView>>,
    older: u64,
)
    requires
        older != pool.next_handle,
    ensures
        spawned(pool, key, launch, settings, folders).live(key, pool.next_handle),
        !spawned(pool, key, launch, settings, folders).live(key, older),
{
}

/// A ready connection is used again only under the very configuration that it was
/// started with. A change to any part of it brings a new process, as long as the
/// handshake did not crash too often.
pub proof fn connections_are_reused_only_unchanged(
    pool: PoolView,
    key: KeyView,
    old_config: BridgeServerConfig,
    new_config: BridgeServerConfig,
)
    requires
        pool.connections.contains_key(key),
        pool.connections[key].launch == Some(old_config.launch()),
        pool.connections[key].state is Ready,
    ensures
        ({
            let unchanged = {
                &&& texts(old_config.cmd@) == texts(new_config.cmd@)
                &&& texts(old_config.languages@) == texts(new_config.languages@)
                &&& old_config.initialization_options == new_config.initialization_options
                &&& (match (old_config.workspace_markers, new_config.workspace_markers) {
                    (Some(mine), Some(theirs)) => texts(mine@) == texts(theirs@),
                    (None, None) => true,
                    _ => false,
                })
                &&& (match (
                    old_config.on_type_formatting_triggers,
                    new_config.on_type_formatting_triggers,
                ) {
                    (Some(mine), Some(theirs)) => texts(mine@) == texts(theirs@),
                    (None, None) => true,
                    _ => false,
                })
                &&& (old_config.prefer_shared_instance == Some(true)) == (
                new_config.prefer_shared_instance == Some(true))
                &&& (old_config.enabled == Some(false)) == (new_config.enabled == Some(false))
            };
            &&& acquire_action(pool, key, new_config.launch()) is ReturnExisting <==> unchanged
            &&& !unchanged && pool.panic_count(key) < 3 ==> acquire_action(
                pool,
                key,
                new_config.launch(),
            ) is SpawnNew
            &&& needs_relaunch(pool, key, new_config.launch()) <==> !unchanged
        }),
{
    launches_agree_in_every_part(old_config, new_config);
}

/// Moving a connection to a state changes that state and nothing else, and only
/// where the pool holds the very connection.
pub proof fn only_the_state_moves(
    pool: PoolView,
    key: KeyView,
    id: u64,
    state: ConnectionState,
    other: KeyView,
)
    ensures
        ({
            let after = pool.with_state_if_live(key, id, state);
            let held = pool.connections.contains_key(key) && pool.connections[key].id == id;
            &&& held ==> after.connections.contains_key(key) && after.connections[key] == (
            HandleView { state, ..pool.connections[key] })
            &&& held <==> pool.live(key, id)
            &&& !held ==> after == pool
            &&& other != key ==> after.connections.contains_key(other)
                == pool.connections.contains_key(other) && after.connections[other]
                == pool.connections[other]
            &&& after == (PoolView { connections: after.connections, ..pool })
        }),
{
}

/// A server that was just started has a connection that is initializing, under its
/// key and a number of its own, with the configuration, settings and folders that
/// it was started with and nothing announced. All else stays as it was.
pub proof fn new_connections_start_as_configured(
    pool: PoolView,
    key: KeyView,
    launch: LaunchView,
    settings: Option<serde_json::Value>,
    folders: Option<Seq<FolderView>>,
    other: KeyView,
)
    ensures
        ({
            let after = spawned(pool, key, launch, settings, folders);
            let handle = after.connections[key];
            &&& after.connections.contains_key(key)
            &&& handle.key == key && handle.id == pool.next_handle
            &&& handle.state is Initializing
            &&& handle.settings == settings && handle.launch == Some(launch)
            &&& handle.folders == folders && handle.capabilities is None
            &&& handle.dynamic.registrations == Map::<
                Seq<char>,
                crate::dynamic_capability_registry::RegistrationView,
            >::empty()
            &&& handle.next_request_id == 2
            &&& pool.next_handle < u64::MAX ==> after.next_handle == pool.next_handle + 1
            &&& other != key ==> after.connections.contains_key(other)
                == pool.connections.contains_key(other) && after.connections[other]
                == pool.connections[other]
            &&& after == (PoolView {
                connections: after.connections,
                next_handle: after.next_handle,
                ..pool
            })
        }),
{
}

/// Taking a connection out leaves alone all that is not about connections: the
/// latest contents, the editor's requests and folders, the commands, the counts.
/// What was sent and claimed on other connections stays too.
pub proof fn taking_out_forgets_nothing_else(
    pool: PoolView,
    key: KeyView,
    other: KeyView,
    uri: Seq<char>,
)
    ensures
        ({
            let after = taken_out(pool, key);
            let place = PlaceView { uri, key: other };
            &&& after == (PoolView {
                connections: after.connections,
                host_documents: after.host_documents,
                documents: after.documents,
                ..pool
            })
            &&& other != key ==> {
                &&& after.documents.sent.contains_key(place)
                    == pool.documents.sent.contains_key(place)
                &&& pool.documents.sent.contains_key(place) ==> after.documents.sent[place]
                    == pool.documents.sent[place]
                &&& after.documents.claims.contains_key(place)
                    == pool.documents.claims.contains_key(place)
                &&& pool.documents.claims.contains_key(place) ==> after.documents.claims[place]
                    == pool.documents.claims[place]
                &&& pool.host_documents.contains_key(place) ==> after.host_documents[place]
                    == pool.host_documents[place]
            }
            &&& !after.documents.sent.contains_key(PlaceView { uri, key })
            &&& !after.documents.claims.contains_key(PlaceView { uri, key })
        }),
{
}

/// Crashes of a handshake add up one by one, for each connection apart.
pub proof fn crashes_add_up(pool: PoolView, key: KeyView, other: KeyView)
    requires
        pool.panic_count(key) < u32::MAX,
    ensures
        ({
            let after = PoolView {
                panics: pool.panics.insert(key, one_more_panic(pool.panic_count(key))),
                ..pool
            };
            &&& after.panic_count(key) == pool.panic_count(key) + 1
            &&& other != key ==> after.panic_count(other) == pool.panic_count(other)
            &&& (PoolView { panics: Map::empty(), ..pool }).panic_count(key) == 0
        }),
{
}

/// Taking several connections out takes these out and leaves the others, with what
/// is open on them, and all that is not about connections.
pub proof fn taking_several_out_spares_the_rest(
    pool: PoolView,
    keys: Seq<KeyView>,
    key: KeyView,
    uri: Seq<char>,
)
    ensures
        ({
            let after = all_taken_out(pool, keys);
            &&& after.connections.contains_key(key) <==> pool.connections.contains_key(key)
                && !keys.contains(key)
            &&& !keys.contains(key) ==> {
                &&& after.connections[key] == pool.connections[key]
                &&& crate::opening::is_open(after.documents, uri, key) == crate::opening::is_open(
                    pool.documents,
                    uri,
                    key,
                )
                &&& after.host_documents.contains_key(PlaceView { uri, key })
                    == pool.host_documents.contains_key(PlaceView { uri, key })
            }
            &&& keys.contains(key) ==> !crate::opening::is_open(after.documents, uri, key)
            &&& after == (PoolView {
                connections: after.connections,
                host_documents: after.host_documents,
                documents: after.documents,
                ..pool
            })
        }),
    decreases keys.len(),
{
    if keys.len() > 0 {
        taking_several_out_spares_the_rest(pool, keys.drop_last(), key, uri);
        assert(keys =~= keys.drop_last().push(keys.last()));
        crate::seqs::lemma_push_contains(keys.drop_last(), keys.last(), key);
    }
}

} // verus!
