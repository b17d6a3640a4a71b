//! Getting hold of a connection: using the one that is there, or starting a
//! server and seeing its handshake through.

use crate::command_origin_registry::RegistrationOutcome;
use crate::command_origins::{orphaned_names, registered_with, retired_routes};
use crate::connection_action::{
    bridge_text, decide_connection_action, BridgeError, ConnectionAction,
};
use crate::connection_handle::{ConnectionHandle, HandleView, NotificationSendResult};
use crate::connection_key::{ConnectionKey, KeyView};
use crate::connection_state::ConnectionState;
use crate::error::{ErrorKind, PoolError};
use crate::pool::LanguageServerPool;
use crate::pool_state::{
    acquire_action, deciding_state, needs_relaunch, one_more_panic, spawned, taken_out,
    ClientCapabilities, PoolView,
};
use crate::server_capabilities::ServerCapabilities;
use crate::settings::{copy_json, same_launch_config, BridgeServerConfig};
use crate::text::{joined, texts};
use crate::workspace_folders::{optional_folder_views, WorkspaceFolder, WorkspaceFolderSet};
use vstd::prelude::*;

verus! {

/// What is to be done to get hold of a connection.
pub enum AcquireStep {
    /// Nothing can be done: the pool is being taken down.
    Reject(PoolError),
    /// Nothing can be done right now.
    FailFast(BridgeError),
    /// Use the connection with the number.
    UseExisting(u64),
    /// Start a server. A connection that was running under another configuration
    /// is handed over to be shut down.
    Spawn(Option<ConnectionHandle>),
}

/// What became of the task that saw a handshake through.
pub enum HandshakeEnd {
    /// The connection is ready.
    Ready,
    /// The handshake failed.
    Failed(PoolError),
    /// The task crashed, with a text about it.
    Panicked(String),
    /// The task was called off.
    Cancelled,
}

/// Whether announcing commands makes sense to the editor.
pub open spec fn takes_command_registrations(client: Option<ClientCapabilities>) -> bool {
    client matches Some(client) && client.execute_command_dynamic_registration == Some(true)
}

/// The settings that a server is told of right after its handshake, if it is told
/// of any: those that it was promised, even where they are gone by now, and
/// those that came up in between.
pub open spec fn first_settings(settings: Option<serde_json::Value>, promised: bool) -> Option<
    Option<serde_json::Value>,
> {
    if promised || settings is Some {
        Some(settings)
    } else {
        None
    }
}

/// The commands that a server announced. A server that announced no list has no
/// commands.
pub open spec fn announced_commands(list: Option<Vec<String>>) -> Seq<Seq<char>> {
    match list {
        Some(list) => texts(list@),
        None => Seq::empty(),
    }
}

impl LanguageServerPool {
    /// Decides what is to be done about a connection that is asked for under a
    /// configuration. Where a server is to be started, the connection that is
    /// there is taken out with everything that was open on it.
    pub fn begin_acquire(&mut self, key: &ConnectionKey, config: &BridgeServerConfig) -> (step:
        AcquireStep)
        requires
            old(self).wf(),
        ensures
            final(self).wf(),
            old(self)@.shutting_down ==> (step matches AcquireStep::Reject(error) && error.says(
                ErrorKind::Interrupted,
                "bridge pool is shutting down; rejecting new connection spawn"@,
            )) && final(self)@ == old(self)@,
            !old(self)@.shutting_down ==> (match acquire_action(
                old(self)@,
                key@,
                config.launch(),
            ) {
                ConnectionAction::ReturnExisting => step == AcquireStep::UseExisting(
                    old(self)@.connections[key@].id,
                ) && final(self)@ == old(self)@,
                ConnectionAction::FailFast(error) => step == AcquireStep::FailFast(error) && final(
                    self)@ == old(self)@,
                ConnectionAction::SpawnNew => (step matches AcquireStep::Spawn(stale) && (
                match stale {
                    Some(handle) => needs_relaunch(old(self)@, key@, config.launch())
                        && handle.wf() && handle@ == old(self)@.connections[key@].in_state(ConnectionState::Closing),
                    None => !needs_relaunch(old(self)@, key@, config.launch()),
                })) && final(self)@ == (if old(self)@.connections.contains_key(key@) {
                    taken_out(old(self)@, key@)
                } else {
                    old(self)@
                }),
            }),
    {
        if self.shutting_down {
            return AcquireStep::Reject(
                PoolError::of(
                    ErrorKind::Interrupted,
                    "bridge pool is shutting down; rejecting new connection spawn",
                ),
            );
        }
        let panics: u32 = match self.consecutive_panic_counts.get(key) {
            Some(count) => *count,
            None => 0,
        };
        let (state, relaunch, id) = match self.connections.get(key) {
            Some(handle) => {
                let relaunch = match handle.launch_config() {
                    Some(old_config) => !same_launch_config(old_config, config),
                    None => false,
                };
                let state = if relaunch {
                    ConnectionState::Failed
                } else {
                    handle.state()
                };
                (Some(state), relaunch, handle.id())
            },
            None => (None, false, 0),
        };
        assert(state == deciding_state(self@, key@, config.launch()));
        assert(relaunch == needs_relaunch(self@, key@, config.launch()));
        match decide_connection_action(state, panics) {
            ConnectionAction::ReturnExisting => AcquireStep::UseExisting(id),
            ConnectionAction::FailFast(error) => AcquireStep::FailFast(error),
            ConnectionAction::SpawnNew => {
                if state.is_none() {
                    return AcquireStep::Spawn(None);
                }
                let removed = self.take_out(key);
                let stale = match removed {
                    Some(handle) => {
                        let mut handle = handle;
                        if relaunch {
                            handle.begin_shutdown();
                            Some(handle)
                        } else {
                            None
                        }
                    },
                    None => None,
                };
                AcquireStep::Spawn(stale)
            },
        }
    }

    /// Puts the connection to a server that was just started into the pool. Gives
    /// back its number.
    pub fn store_spawned(
        &mut self,
        key: ConnectionKey,
        config: &BridgeServerConfig,
        folders: Option<Vec<WorkspaceFolder>>,
    ) -> (id: u64)
        requires
            old(self).wf(),
        ensures
            final(self).wf(),
            id == old(self)@.next_handle,
            final(self)@ == spawned(
                old(self)@,
                key@,
                config.launch(),
                config.settings,
                optional_folder_views(folders),
            ),
    {
        let id: u64 = self.connections.fresh_id();
        let mut handle = ConnectionHandle::with_state(
            key,
            id,
            ConnectionState::Initializing,
            copy_json(&config.settings),
            WorkspaceFolderSet::new(folders),
        );
        handle.record_launch_config(config);
        self.connections.insert(handle);
        id
    }

    /// Keeps what a server announced in its handshake. Gives back the settings
    /// that the server is to be told of before anything else, if it is to be told
    /// of any.
    ///
    /// `last_settings` are the settings that the connection served when it was
    /// last seen. They count where the pool does not hold it any more.
    pub fn handshake_answered(
        &mut self,
        key: &ConnectionKey,
        id: u64,
        capabilities: ServerCapabilities,
        promised_settings: bool,
        last_settings: &Option<serde_json::Value>,
    ) -> (push: Option<Option<serde_json::Value>>)
        requires
            old(self).wf(),
        ensures
            final(self).wf(),
            if old(self)@.live(key@, id) {
                &&& push == first_settings(
                    old(self)@.connections[key@].settings,
                    promised_settings,
                )
                &&& final(self)@ == old(self)@.with_handle(
                    HandleView {
                        capabilities: if old(self)@.connections[key@].capabilities is Some {
                            old(self)@.connections[key@].capabilities
                        } else {
                            Some(capabilities)
                        },
                        ..old(self)@.connections[key@]
                    },
                )
            } else {
                push == first_settings(*last_settings, promised_settings) && final(self)@ == old(
                    self,
                )@
            },
    {
        let settings = if self.is_live(key, id) {
            match self.connections.get_mut(key) {
                Some(handle) => {
                    handle.set_server_capabilities(capabilities);
                    copy_json(handle.current_settings())
                },
                None => None,
            }
        } else {
            copy_json(last_settings)
        };
        if promised_settings || settings.is_some() {
            Some(settings)
        } else {
            None
        }
    }

    /// Makes a connection ready whose handshake is complete, and records the
    /// commands that its server announced. A server that announced no list has
    /// stopped offering what it offered before. Says what changed about commands,
    /// where a list came or a name is withdrawn, and whether the editor is to be
    /// told of new names. A connection that was invalidated in the meantime does
    /// not become ready.
    pub fn publish_ready(
        &mut self,
        key: &ConnectionKey,
        id: u64,
        palette_commands: Option<Vec<String>>,
    ) -> (published: Result<(Option<RegistrationOutcome>, bool), PoolError>)
        requires
            old(self).wf(),
        ensures
            final(self).wf(),
            if old(self)@.live(key@, id) && old(self)@.connections[key@].state is Initializing {
                let said = announced_commands(palette_commands);
                let record = registered_with(old(self)@.commands, key@, said);
                let names = old(self).command_order();
                let orphaned = orphaned_names(names, old(self)@.commands, key@, said);
                let retired = retired_routes(names, old(self)@.commands, key@, said);
                &&& published matches Ok(done)
                &&& final(self)@ == (PoolView {
                    commands: record.origins,
                    ..old(self)@.with_state(key@, ConnectionState::Ready)
                })
                &&& done.0 is Some <==> palette_commands is Some || orphaned.len() > 0
                    || retired.len() > 0
                &&& done.0 matches Some(outcome) ==> {
                    &&& texts(outcome.newly_advertised@) == record.newly_advertised
                    &&& texts(outcome.newly_encoded@) == record.newly_encoded
                    &&& texts(outcome.orphaned@) == orphaned
                    &&& texts(outcome.retired_encoded@) == retired
                }
                &&& done.1 == (takes_command_registrations(old(self)@.client) && (
                record.newly_advertised.len() > 0 || record.newly_encoded.len() > 0))
            } else {
                &&& published is Err
                &&& published->Err_0.says(
                    ErrorKind::Interrupted,
                    "bridge: connection was invalidated during initialization"@,
                )
                &&& final(self)@ == old(self)@
            },
    {
        let mut became_ready = false;
        if self.is_live(key, id) {
            if let Some(handle) = self.connections.get_mut(key) {
                became_ready = handle.transition_initializing_to_ready();
            }
        }
        if !became_ready {
            assert(self@ =~= old(self)@);
            return Err(
                PoolError::of(
                    ErrorKind::Interrupted,
                    "bridge: connection was invalidated during initialization",
                ),
            );
        }
        assert(self@ =~= old(self)@.with_state(key@, ConnectionState::Ready));
        let ghost said = announced_commands(palette_commands);
        let (commands, listed) = match palette_commands {
            Some(commands) => (commands, true),
            None => (Vec::new(), false),
        };
        assert(texts(commands@) =~= said);
        let outcome = self.command_origins.register(key, commands);
        let wanted = match self.client_capabilities {
            Some(client) => matches!(client.execute_command_dynamic_registration, Some(true)),
            None => false,
        };
        assert(texts(outcome.newly_advertised@).len() == outcome.newly_advertised@.len());
        assert(texts(outcome.newly_encoded@).len() == outcome.newly_encoded@.len());
        assert(texts(outcome.orphaned@).len() == outcome.orphaned@.len());
        assert(texts(outcome.retired_encoded@).len() == outcome.retired_encoded@.len());
        let news = outcome.newly_advertised.len() > 0 || outcome.newly_encoded.len() > 0;
        let withdrawn = outcome.orphaned.len() > 0 || outcome.retired_encoded.len() > 0;
        if listed || withdrawn {
            Ok((Some(outcome), wanted && news))
        } else {
            Ok((None, wanted && news))
        }
    }

    /// Ends a handshake that failed. A connection that is being shut down stays
    /// so, and its error is handed on as it is.
    ///
    /// `last_state` is the state in which the connection was last seen. It counts
    /// where the pool does not hold the connection any more.
    pub fn handshake_failed(
        &mut self,
        key: &ConnectionKey,
        id: u64,
        last_state: ConnectionState,
        error: PoolError,
    ) -> (reported: PoolError)
        requires
            old(self).wf(),
        ensures
            final(self).wf(),
            ({
                let state = if old(self)@.live(key@, id) {
                    old(self)@.connections[key@].state
                } else {
                    last_state
                };
                if state is Closing || state is Closed {
                    reported == error && final(self)@ == old(self)@
                } else {
                    &&& final(self)@ == old(self)@.with_state_if_live(
                        key@,
                        id,
                        ConnectionState::Failed,
                    )
                    &&& reported.says(
                        error.spec_kind(),
                        "bridge: handshake failed: "@ + error.spec_message(),
                    )
                }
            }),
    {
        let state = match self.connections.get(key) {
            Some(handle) => if handle.id() == id {
                handle.state()
            } else {
                last_state
            },
            None => last_state,
        };
        if matches!(state, ConnectionState::Closing | ConnectionState::Closed) {
            return error;
        }
        self.set_state(key, id, ConnectionState::Failed);
        PoolError::new(
            error.kind(),
            joined("bridge: handshake failed: ", error.to_string().as_str()),
        )
    }

    /// Ends a handshake that took too long.
    pub fn handshake_timed_out(&mut self, key: &ConnectionKey, id: u64) -> (reported: PoolError)
        requires
            old(self).wf(),
        ensures
            final(self).wf(),
            final(self)@ == old(self)@.with_state_if_live(key@, id, ConnectionState::Failed),
            reported.says(ErrorKind::TimedOut, "bridge: initialize timeout"@),
    {
        self.set_state(key, id, ConnectionState::Failed);
        PoolError::of(ErrorKind::TimedOut, "bridge: initialize timeout")
    }

    /// Ends getting hold of a connection that was started for this. Only crashes
    /// count against the connection, and a success clears the count.
    pub fn finish_acquire(&mut self, key: &ConnectionKey, id: u64, end: HandshakeEnd) -> (acquired:
        Result<u64, PoolError>)
        requires
            old(self).wf(),
        ensures
            final(self).wf(),
            match end {
                HandshakeEnd::Ready => acquired == Ok::<u64, PoolError>(id) && final(self)@ == (
                PoolView { panics: old(self)@.panics.remove(key@), ..old(self)@ }),
                HandshakeEnd::Failed(error) => acquired == Err::<u64, PoolError>(error) && final(
                    self)@ == old(self)@,
                HandshakeEnd::Panicked(text) => acquired is Err && acquired->Err_0.says(
                    ErrorKind::Other,
                    "bridge: handshake task panicked: "@ + text@,
                ) && final(self)@ == (PoolView {
                    panics: old(self)@.panics.insert(
                        key@,
                        one_more_panic(old(self)@.panic_count(key@)),
                    ),
                    ..old(self)@.with_state_if_live(key@, id, ConnectionState::Failed)
                }),
                HandshakeEnd::Cancelled => acquired is Err && acquired->Err_0.says(
                    ErrorKind::Interrupted,
                    "bridge: handshake task cancelled"@,
                ) && final(self)@ == old(self)@.with_state_if_live(
                    key@,
                    id,
                    ConnectionState::Failed,
                ),
            },
    {
        match end {
            HandshakeEnd::Ready => {
                self.consecutive_panic_counts.remove(key);
                Ok(id)
            },
            HandshakeEnd::Failed(error) => Err(error),
            HandshakeEnd::Panicked(text) => {
                self.set_state(key, id, ConnectionState::Failed);
                let count: u32 = match self.consecutive_panic_counts.get(key) {
                    Some(count) => *count,
                    None => 0,
                };
                let count: u32 = if count < u32::MAX {
                    count + 1
                } else {
                    count
                };
                self.consecutive_panic_counts.insert(key.clone(), count);
                Err(
                    PoolError::new(
                        ErrorKind::Other,
                        joined("bridge: handshake task panicked: ", text.as_str()),
                    ),
                )
            },
            HandshakeEnd::Cancelled => {
                self.set_state(key, id, ConnectionState::Failed);
                Err(PoolError::of(ErrorKind::Interrupted, "bridge: handshake task cancelled"))
            },
        }
    }

    /// Which connection a caller is to wait for that was refused: one that
    /// somebody else is starting right now. Any other refusal stands.
    pub fn wait_target(&self, key: &ConnectionKey, refusal: BridgeError) -> (target: Result<
        u64,
        PoolError,
    >)
        requires
            self.wf(),
        ensures
            if !(refusal is Initializing) {
                target is Err && target->Err_0.says(ErrorKind::Other, bridge_text(refusal))
            } else if self@.connections.contains_key(key@) {
                target == Ok::<u64, PoolError>(self@.connections[key@].id)
            } else {
                target is Err && target->Err_0.says(
                    ErrorKind::Other,
                    "bridge: connection disappeared during wait"@,
                )
            },
    {
        if !refusal.is_initializing() {
            return Err(refusal.into_error());
        }
        match self.connections.get(key) {
            Some(handle) => Ok(handle.id()),
            None => Err(
                PoolError::of(ErrorKind::Other, "bridge: connection disappeared during wait"),
            ),
        }
    }
}

/// The error that an `initialized` notification which was not queued stands for.
pub open spec fn initialized_error(result: NotificationSendResult) -> Option<
    (ErrorKind, Seq<char>),
> {
    match result {
        NotificationSendResult::Queued => None,
        NotificationSendResult::QueueFull => Some(
            (ErrorKind::WouldBlock, "bridge: initialized notification queue full"@),
        ),
        NotificationSendResult::ChannelClosed => Some(
            (ErrorKind::BrokenPipe, "bridge: initialized notification channel closed"@),
        ),
        NotificationSendResult::SerializationFailed => Some(
            (ErrorKind::InvalidData, "bridge: failed to serialize initialized notification"@),
        ),
    }
}

/// Where a handshake stands: what is to be done next, or what came of it.
#[derive(Debug)]
pub enum HandshakeStep {
    /// Queue the `initialize` request.
    AskInitialize,
    /// Wait for the server's answer.
    AwaitAnswer,
    /// Queue the `initialized` notification.
    SayInitialized(ServerCapabilities),
    /// The handshake is complete.
    Done(ServerCapabilities),
    /// The handshake failed.
    Failed(PoolError),
}

/// What happened in a handshake.
#[derive(Debug)]
pub enum HandshakeEvent {
    /// A message was queued, or not.
    Sent(NotificationSendResult),
    /// The server's answer came and was read, or could not be read.
    Answered(Result<ServerCapabilities, PoolError>),
    /// The server's answer will not come.
    NoAnswer,
}

/// Goes on with a handshake: ask, wait for the answer, confirm. Whatever goes
/// wrong on the way ends it, and what does not belong to a step leaves it as it
/// is.
pub fn perform_lsp_handshake(step: HandshakeStep, event: HandshakeEvent) -> (next: HandshakeStep)
    ensures
        match (step, event) {
            (HandshakeStep::AskInitialize, HandshakeEvent::Sent(result)) => match crate::connection_handle::send_error(
                result,
            ) {
                Some(error) => next matches HandshakeStep::Failed(reported) && reported.says(
                    ErrorKind::Other,
                    bridge_text(error),
                ),
                None => next is AwaitAnswer,
            },
            (HandshakeStep::AwaitAnswer, HandshakeEvent::Answered(answer)) => match answer {
                Ok(capabilities) => next == HandshakeStep::SayInitialized(capabilities),
                Err(error) => next == HandshakeStep::Failed(error),
            },
            (HandshakeStep::AwaitAnswer, HandshakeEvent::NoAnswer) => next matches HandshakeStep::Failed(
                reported,
            ) && reported.says(ErrorKind::Other, "bridge: initialize response channel closed"@),
            (
                HandshakeStep::SayInitialized(capabilities),
                HandshakeEvent::Sent(result),
            ) => match initialized_error(result) {
                Some(error) => next matches HandshakeStep::Failed(reported) && reported.says(
                    error.0,
                    error.1,
                ),
                None => next == HandshakeStep::Done(capabilities),
            },
            _ => next == step,
        },
{
    match (step, event) {
        (HandshakeStep::AskInitialize, HandshakeEvent::Sent(result)) => match result.send_request() {
            Ok(_) => HandshakeStep::AwaitAnswer,
            Err(error) => HandshakeStep::Failed(error.into_error()),
        },
        (HandshakeStep::AwaitAnswer, HandshakeEvent::Answered(answer)) => match answer {
            Ok(capabilities) => HandshakeStep::SayInitialized(capabilities),
            Err(error) => HandshakeStep::Failed(error),
        },
        (HandshakeStep::AwaitAnswer, HandshakeEvent::NoAnswer) => HandshakeStep::Failed(
            PoolError::of(ErrorKind::Other, "bridge: initialize response channel closed"),
        ),
        (HandshakeStep::SayInitialized(capabilities), HandshakeEvent::Sent(result)) => match result {
            NotificationSendResult::Queued => HandshakeStep::Done(capabilities),
            NotificationSendResult::QueueFull => HandshakeStep::Failed(
                PoolError::of(ErrorKind::WouldBlock, "bridge: initialized notification queue full"),
            ),
            NotificationSendResult::ChannelClosed => HandshakeStep::Failed(
                PoolError::of(
                    ErrorKind::BrokenPipe,
                    "bridge: initialized notification channel closed",
                ),
            ),
            NotificationSendResult::SerializationFailed => HandshakeStep::Failed(
                PoolError::of(
                    ErrorKind::InvalidData,
                    "bridge: failed to serialize initialized notification",
                ),
            ),
        },
        (step, _) => step,
    }
}

/// A handshake that succeeds after crashes starts the count anew, and one that
/// crashes every time is not started any more.
pub proof fn crashes_in_a_row_disable(pool: PoolView, key: KeyView, launch: crate::settings::LaunchView)
    requires
        pool.panic_count(key) >= crate::connection_action::MAX_CONSECUTIVE_PANICS,
    ensures
        !(acquire_action(pool, key, launch) is SpawnNew),
        (PoolView { panics: pool.panics.remove(key), ..pool }).panic_count(key) == 0,
        (PoolView {
            panics: pool.panics.insert(key, one_more_panic(pool.panic_count(key))),
            ..pool
        }).panic_count(key) >= crate::connection_action::MAX_CONSECUTIVE_PANICS,
{
}

/// A server hears of its settings after the handshake exactly where it was promised
/// some or has some, and it hears of those that it has.
pub proof fn promised_settings_are_served(settings: Option<serde_json::Value>, promised: bool)
    ensures
        first_settings(settings, promised) is Some <==> promised || settings is Some,
        first_settings(settings, promised) matches Some(told) ==> told == settings,
{
}

/// Commands are announced to an editor that said that it takes them, and to no
/// other one.
pub proof fn announcing_is_asked_for(client: Option<ClientCapabilities>)
    ensures
        takes_command_registrations(client) <==> client is Some
            && client->0.execute_command_dynamic_registration == Some(true),
{
}

/// A server that announced no list has no commands; one that did has those that it
/// listed, in their order.
pub proof fn commands_are_as_listed(list: Vec<String>, i: int)
    ensures
        announced_commands(Some(list)).len() == list@.len(),
        0 <= i < list@.len() ==> announced_commands(Some(list))[i] == list@[i]@,
        announced_commands(None).len() == 0,
{
}

/// A handshake is confirmed exactly where its last message was queued. Only a full
/// queue is worth another try.
pub proof fn only_queued_confirmations_count(result: NotificationSendResult)
    ensures
        initialized_error(result) is None <==> result is Queued,
        initialized_error(result) matches Some(error) ==> (error.0 is WouldBlock <==> result
            is QueueFull) && (error.0 is BrokenPipe <==> result is ChannelClosed) && (
        error.0 is InvalidData <==> result is SerializationFailed),
{
}

} // verus!
