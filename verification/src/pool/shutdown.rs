//! Taking the pool down.

use crate::connection_handle::{step_after, ConnectionHandle, HandleView, ShutdownStep};
use crate::connection_key::KeyView;
use crate::connection_ref::{picked, ref_views, refs_of, ConnectionRef};
use crate::connection_state::{can_say_goodbye, ConnectionState};
use crate::pool::LanguageServerPool;
use crate::pool::settings_push::{settings_stored, AnswerView};
use crate::pool_state::{spawned, taken_out, PoolView};
use crate::settings::LaunchView;
use crate::workspace_folders::FolderView;
use vstd::prelude::*;

verus! {

/// How long a connection gets that is killed when the time for an orderly
/// shutdown has passed, in seconds.
pub const FORCE_KILL_TIMEOUT_SECS: u64 = 3;

/// How long a connection gets that was taken out because its configuration
/// changed, in seconds.
pub const RELOAD_SHUTDOWN_TIMEOUT_SECS: u64 = 3;

/// Holds of the connections that are shut down with a handshake.
pub open spec fn says_goodbye() -> spec_fn(HandleView) -> bool {
    |handle: HandleView| can_say_goodbye(handle.state)
}

/// Holds of the connections that are not closed.
pub open spec fn lingers() -> spec_fn(HandleView) -> bool {
    |handle: HandleView| !(handle.state is Closed)
}

/// A failed connection is closed at once: there is nobody to talk to.
pub open spec fn closed_if_failed(handle: HandleView) -> HandleView {
    if handle.state is Failed {
        handle.in_state(ConnectionState::Closed)
    } else {
        handle
    }
}

/// The pool does not start servers any more, and failed connections are closed.
pub open spec fn shutdown_begun(pool: PoolView) -> PoolView {
    PoolView {
        shutting_down: true,
        connections: pool.connections.map_values(|handle: HandleView| closed_if_failed(handle)),
        ..pool
    }
}

spec fn partly_closed(connections: Map<KeyView, HandleView>, done: Seq<KeyView>) -> Map<
    KeyView,
    HandleView,
> {
    Map::new(
        |key: KeyView| connections.contains_key(key),
        |key: KeyView|
            if done.contains(key) {
                closed_if_failed(connections[key])
            } else {
                connections[key]
            },
    )
}

/// What became of shutting down a connection that was taken out.
#[derive(Clone, Copy, Debug, PartialEq, Eq, Structural)]
pub enum ShutdownEnd {
    /// The shutdown ran to its end.
    Completed,
    /// The task that ran it crashed.
    Crashed,
    /// The time allowed has passed.
    TimedOut,
}

impl LanguageServerPool {
    /// Begins to take the pool down. Gives back the connections that are to be
    /// shut down with a handshake, all at the same time.
    pub fn begin_shutdown_all(&mut self) -> (targets: Vec<ConnectionRef>)
        requires
            old(self).wf(),
        ensures
            final(self).wf(),
            final(self)@ == shutdown_begun(old(self)@),
            final(self).order() == old(self).order(),
            ref_views(targets@) == refs_of(
                old(self)@.connections,
                old(self).order().filter(picked(old(self)@.connections, says_goodbye())),
            ),
    {
        self.shutting_down = true;
        let pick = |handle: &ConnectionHandle| -> (wants: bool)
            ensures
                wants == says_goodbye()(handle@),
            { matches!(handle.state(), ConnectionState::Ready | ConnectionState::Initializing) };
        let targets = self.refs_where(pick, Ghost(says_goodbye()));
        let ghost start = self.connections@;
        let ghost order = self.connections.keys();
        let ghost next = self.connections.next_id();
        let ghost rest = *self;
        let mut i: usize = 0;
        proof {
            self.connections.lemma_keys();
            assert(self.connections@ =~= partly_closed(start, order.take(0)));
        }
        while i < self.connections.len()
            invariant
                self.wf(),
                order == self.connections.keys(),
                order.no_duplicates(),
                forall|key: KeyView| start.contains_key(key) <==> #[trigger] order.contains(key),
                i <= order.len(),
                self.connections@ == partly_closed(start, order.take(i as int)),
                self.connections.next_id() == next,
                self@ == (PoolView { connections: self.connections@, ..rest@ }),
                rest@.connections == start,
                rest@.next_handle == next,
            decreases order.len() - i,
        {
            let ghost key = order[i as int];
            let ghost done = order.take(i as int);
            proof {
                assert(order.contains(key));
                assert(!done.contains(key)) by {
                    if done.contains(key) {
                        let j = choose|j: int| 0 <= j < done.len() && done[j] == key;
                        assert(order[j] == order[i as int]);
                    }
                }
                assert(order.take(i + 1) =~= done.push(key));
                assert forall|other: KeyView| #[trigger]
                    order.take(i + 1).contains(other) == (done.contains(other) || other == key) by {
                    crate::seqs::lemma_push_contains(done, key, other);
                }
            }
            let handle = self.connections.handle_at_mut(i);
            if matches!(handle.state(), ConnectionState::Failed) {
                handle.complete_shutdown();
            }
            assert(self.connections@ =~= partly_closed(start, order.take(i + 1)));
            i += 1;
        }
        proof {
            assert(order.take(order.len() as int) =~= order);
            assert(self.connections@ =~= start.map_values(
                |handle: HandleView| closed_if_failed(handle),
            ));
            assert(self@ =~= shutdown_begun(old(self)@));
        }
        targets
    }

    /// Begins the orderly shutdown of one connection and says what is to be done
    /// first. The shutdown runs also where the pool does not hold the connection
    /// any more: its process is still there.
    pub fn graceful_shutdown(&mut self, target: &ConnectionRef) -> (step: ShutdownStep)
        requires
            old(self).wf(),
        ensures
            final(self).wf(),
            final(self)@ == old(self)@.with_state_if_live(
                target@.key,
                target@.id,
                ConnectionState::Closing,
            ),
            step is StopWriter,
    {
        self.set_state(&target.key, target.id, ConnectionState::Closing);
        ShutdownStep::StopWriter
    }

    /// Goes on with the orderly shutdown of one connection. When nothing is left
    /// to do the connection is closed, however the steps went.
    pub fn shutdown_went(&mut self, target: &ConnectionRef, step: ShutdownStep, went_well: bool) -> (next:
        ShutdownStep)
        requires
            old(self).wf(),
        ensures
            final(self).wf(),
            next == step_after(step, went_well),
            final(self)@ == (if next is Done {
                old(self)@.with_state_if_live(target@.key, target@.id, ConnectionState::Closed)
            } else {
                old(self)@
            }),
    {
        let next = step.after(went_well);
        if matches!(next, ShutdownStep::Done) {
            self.set_state(&target.key, target.id, ConnectionState::Closed);
        }
        next
    }

    /// The connections that are to be killed when the time for an orderly
    /// shutdown has passed: all that are not closed.
    pub fn force_kill_all(&self) -> (targets: Vec<ConnectionRef>)
        requires
            self.wf(),
        ensures
            ref_views(targets@) == refs_of(
                self@.connections,
                self.order().filter(picked(self@.connections, lingers())),
            ),
    {
        let pick = |handle: &ConnectionHandle| -> (wants: bool)
            ensures
                wants == lingers()(handle@),
            { !matches!(handle.state(), ConnectionState::Closed) };
        self.refs_where(pick, Ghost(lingers()))
    }

    /// Settles killing a connection: it is closed, whether the shutdown ran to its
    /// end, crashed or took too long.
    pub fn force_killed(&mut self, target: &ConnectionRef, end: ShutdownEnd)
        requires
            old(self).wf(),
        ensures
            final(self).wf(),
            final(self)@ == (if end is Completed {
                old(self)@
            } else {
                old(self)@.with_state_if_live(target@.key, target@.id, ConnectionState::Closed)
            }),
    {
        if !matches!(end, ShutdownEnd::Completed) {
            self.set_state(&target.key, target.id, ConnectionState::Closed);
        }
    }
}

/// Settles shutting down a connection that was taken out because its
/// configuration changed: it is closed in any case.
pub fn shutdown_invalidated_connection(handle: &mut ConnectionHandle, end: ShutdownEnd)
    ensures
        final(handle)@ == (if end is Completed {
            old(handle)@
        } else {
            old(handle)@.in_state(ConnectionState::Closed)
        }),
        old(handle).wf() ==> final(handle).wf(),
{
    if !matches!(end, ShutdownEnd::Completed) {
        handle.complete_shutdown();
    }
}

/// Taking the pool down leaves no connection behind: each one is closed, on its
/// way there, or among those that are shut down with a handshake.
pub proof fn shutdown_reaches_all(pool: PoolView, order: Seq<KeyView>, key: KeyView)
    requires
        pool.connections.contains_key(key),
        order.contains(key),
    ensures
        ({
            let after = shutdown_begun(pool).connections[key];
            ||| after.state is Closed
            ||| after.state is Closing
            ||| order.filter(picked(pool.connections, says_goodbye())).contains(key)
                && after == pool.connections[key]
        }),
        order.filter(picked(pool.connections, lingers())).contains(key)
            || pool.connections[key].state is Closed,
{
    crate::seqs::lemma_filter_members(order, picked(pool.connections, says_goodbye()));
    crate::seqs::lemma_filter_members(order, picked(pool.connections, lingers()));
}

/// A server that is started just before the pool is taken down does not escape:
/// its connection is among those that are shut down with a handshake.
pub proof fn starting_servers_do_not_escape(
    pool: PoolView,
    order: Seq<KeyView>,
    key: KeyView,
    launch: LaunchView,
    settings: Option<serde_json::Value>,
    folders: Option<Seq<FolderView>>,
)
    requires
        order.contains(key),
    ensures
        order.filter(
            picked(
                spawned(pool, key, launch, settings, folders).connections,
                says_goodbye(),
            ),
        ).contains(key),
{
    crate::seqs::lemma_filter_members(
        order,
        picked(spawned(pool, key, launch, settings, folders).connections, says_goodbye()),
    );
}

/// Whether a connection serves requests, or may do so once its handshake is
/// complete.
pub open spec fn can_serve(pool: PoolView, key: KeyView, id: u64) -> bool {
    pool.live(key, id) && can_say_goodbye(pool.connections[key].state)
}

/// A connection that failed, is being shut down, is closed or was taken out never
/// serves again, whatever happens in the pool: a handshake makes only those ready
/// that are still initializing, everything else leads away from that, and a new
/// connection has a new number.
pub proof fn connections_do_not_come_back(
    pool: PoolView,
    key: KeyView,
    id: u64,
    other: KeyView,
    other_id: u64,
    state: ConnectionState,
    launch: LaunchView,
    settings: Option<serde_json::Value>,
    folders: Option<Seq<FolderView>>,
    answers: Map<KeyView, Option<AnswerView>>,
)
    requires
        !can_serve(pool, key, id),
        id != pool.next_handle,
    ensures
        pool.live(other, other_id) && pool.connections[other].state is Initializing ==> !can_serve(
            pool.with_state(other, ConnectionState::Ready),
            key,
            id,
        ),
        !can_say_goodbye(state) ==> !can_serve(
            pool.with_state_if_live(other, other_id, state),
            key,
            id,
        ),
        !can_serve(taken_out(pool, other), key, id),
        !can_serve(spawned(pool, other, launch, settings, folders), key, id),
        !can_serve(settings_stored(pool, answers), key, id),
        !can_serve(shutdown_begun(pool), key, id),
{
}

/// Beginning to take the pool down a second time does nothing more.
pub proof fn shutdown_begins_once(pool: PoolView)
    ensures
        shutdown_begun(shutdown_begun(pool)) == shutdown_begun(pool),
{
    assert(shutdown_begun(shutdown_begun(pool)) =~= shutdown_begun(pool));
}

/// No server is started once taking the pool down has begun, and no step of the
/// shutdown takes that back.
pub proof fn nothing_starts_after_shutdown(
    pool: PoolView,
    key: KeyView,
    id: u64,
    state: ConnectionState,
)
    ensures
        shutdown_begun(pool).shutting_down,
        shutdown_begun(pool).with_state_if_live(key, id, state).shutting_down,
{
}

/// Beginning to take the pool down closes the failed connections and leaves every
/// other one, and all else that the pool knows, as it is.
pub proof fn only_failed_connections_close_at_once(pool: PoolView, key: KeyView)
    ensures
        ({
            let after = shutdown_begun(pool);
            &&& after.connections.contains_key(key) == pool.connections.contains_key(key)
            &&& pool.connections.contains_key(key) && pool.connections[key].state is Failed
                ==> after.connections[key] == (HandleView {
                state: ConnectionState::Closed,
                ..pool.connections[key]
            })
            &&& pool.connections.contains_key(key) && !(pool.connections[key].state is Failed)
                ==> after.connections[key] == pool.connections[key]
            &&& after.shutting_down
            &&& after == (PoolView {
                connections: after.connections,
                shutting_down: true,
                ..pool
            })
        }),
{
}

/// Exactly the connections that are ready or may still become so are shut down with a
/// handshake, and exactly those that are not closed are killed when the time has
/// passed.
pub proof fn goodbyes_are_said_to_those_who_listen(
    connections: Map<KeyView, HandleView>,
    order: Seq<KeyView>,
    key: KeyView,
)
    ensures
        refs_of(connections, order.filter(picked(connections, says_goodbye()))).contains(
            crate::connection_ref::RefView { key, id: connections[key].id },
        ) <==> order.contains(key) && (connections[key].state is Ready || connections[key].state
            is Initializing),
        refs_of(connections, order.filter(picked(connections, lingers()))).contains(
            crate::connection_ref::RefView { key, id: connections[key].id },
        ) <==> order.contains(key) && !(connections[key].state is Closed),
{
    crate::connection_ref::targets_are_the_picked(connections, order, says_goodbye(), key);
    crate::connection_ref::targets_are_the_picked(connections, order, lingers(), key);
}

} // verus!
