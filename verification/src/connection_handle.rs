//! One connection to a downstream server: its state, the numbers of its
//! requests and what the server can do.

use crate::connection_action::BridgeError;
use crate::connection_key::{ConnectionKey, KeyView};
use crate::connection_state::ConnectionState;
use crate::dynamic_capability_registry::{
    has_method, CapabilitiesView, DynamicCapabilityRegistry, LifecycleView, LogMessageLevel,
    PullView,
};
use crate::error::{ErrorKind, PoolError};
use crate::server_capabilities::{covers, takes_folder_changes, ServerCapabilities};
use crate::settings::{BridgeServerConfig, LaunchView};
use crate::workspace_folders::{FolderView, WorkspaceFolderSet};
use vstd::prelude::*;

verus! {

/// How long a request may go unanswered, in seconds.
pub const REQUEST_TIMEOUT_SECS: u64 = 30;

/// How an attempt to queue a message went.
#[derive(Clone, Copy, Debug, PartialEq, Eq, Structural)]
pub enum NotificationSendResult {
    /// The message is in the queue.
    Queued,
    /// The queue is full for now.
    QueueFull,
    /// The queue is gone.
    ChannelClosed,
    /// The message could not be written.
    SerializationFailed,
}

/// What became of waiting for a change of state.
#[derive(Clone, Copy, Debug, PartialEq, Eq, Structural)]
pub enum StateNews {
    /// The state may have changed: have a look.
    Changed,
    /// There will be no further news.
    Gone,
    /// The time allowed has passed.
    TimedOut,
}

/// What became of waiting for a response.
#[derive(Debug)]
pub enum ResponseNews {
    /// The response is there.
    Arrived(serde_json::Value),
    /// There will be no response.
    Gone,
    /// The time allowed has passed.
    TimedOut,
}

/// Where an orderly shutdown stands: what is to be done next.
#[derive(Clone, Copy, Debug, PartialEq, Eq, Structural)]
pub enum ShutdownStep {
    /// Stop the writer and take back the pipe to the server.
    StopWriter,
    /// Write the `shutdown` request.
    AskShutdown,
    /// Wait for the server's answer.
    AwaitAnswer,
    /// Write the `exit` notification.
    SayExit,
    /// Make sure that the process is gone.
    Kill,
    /// Nothing is left to do.
    Done,
}

/// What follows a step of an orderly shutdown.
pub open spec fn step_after(step: ShutdownStep, went_well: bool) -> ShutdownStep {
    match step {
        ShutdownStep::StopWriter => if went_well {
            ShutdownStep::AskShutdown
        } else {
            ShutdownStep::Done
        },
        ShutdownStep::AskShutdown => if went_well {
            ShutdownStep::AwaitAnswer
        } else {
            ShutdownStep::Kill
        },
        ShutdownStep::AwaitAnswer => ShutdownStep::SayExit,
        ShutdownStep::SayExit => ShutdownStep::Kill,
        ShutdownStep::Kill => ShutdownStep::Done,
        ShutdownStep::Done => ShutdownStep::Done,
    }
}

impl ShutdownStep {
    /// What is to be done after this step.
    pub fn after(self, went_well: bool) -> (next: ShutdownStep)
        ensures
            next == step_after(self, went_well),
    {
        match self {
            ShutdownStep::StopWriter => if went_well {
                ShutdownStep::AskShutdown
            } else {
                ShutdownStep::Done
            },
            ShutdownStep::AskShutdown => if went_well {
                ShutdownStep::AwaitAnswer
            } else {
                ShutdownStep::Kill
            },
            ShutdownStep::AwaitAnswer => ShutdownStep::SayExit,
            ShutdownStep::SayExit => ShutdownStep::Kill,
            ShutdownStep::Kill => ShutdownStep::Done,
            ShutdownStep::Done => ShutdownStep::Done,
        }
    }
}

/// How many steps of an orderly shutdown are left at most.
pub open spec fn steps_left(step: ShutdownStep) -> nat {
    match step {
        ShutdownStep::StopWriter => 5,
        ShutdownStep::AskShutdown => 4,
        ShutdownStep::AwaitAnswer => 3,
        ShutdownStep::SayExit => 2,
        ShutdownStep::Kill => 1,
        ShutdownStep::Done => 0,
    }
}

/// The mathematical content of a [`ConnectionHandle`].
#[verifier::ext_equal]
pub struct HandleView {
    pub key: KeyView,
    /// Which of the connections that had this key this one is.
    pub id: u64,
    pub state: ConnectionState,
    pub next_request_id: i64,
    pub capabilities: Option<ServerCapabilities>,
    pub dynamic: CapabilitiesView,
    pub settings: Option<serde_json::Value>,
    pub launch: Option<LaunchView>,
    pub folders: Option<Seq<FolderView>>,
}

/// A connection to a downstream server.
pub struct ConnectionHandle {
    key: ConnectionKey,
    id: u64,
    state: ConnectionState,
    next_request_id: i64,
    server_capabilities: Option<ServerCapabilities>,
    dynamic_capabilities: DynamicCapabilityRegistry,
    settings: Option<serde_json::Value>,
    launch_config: Option<BridgeServerConfig>,
    workspace_folders: WorkspaceFolderSet,
}

impl View for ConnectionHandle {
    type V = HandleView;

    closed spec fn view(&self) -> HandleView {
        HandleView {
            key: self.key@,
            id: self.id,
            state: self.state,
            next_request_id: self.next_request_id,
            capabilities: self.server_capabilities,
            dynamic: self.dynamic_capabilities@,
            settings: self.settings,
            launch: match self.launch_config {
                Some(config) => Some(config.launch()),
                None => None,
            },
            folders: self.workspace_folders@,
        }
    }
}

/// A server that registered nothing yet.
pub open spec fn nothing_registered() -> CapabilitiesView {
    CapabilitiesView {
        registrations: Map::empty(),
        revision: 0,
        workspace_revision: 0,
        static_provider: false,
        pull: PullView { active: false, accepted_once: false, refresh_pending: false },
        lifecycle: LifecycleView { contributed: false, reader_exited: false },
        level: LogMessageLevel::Info,
    }
}

/// A connection as it starts. The number 1 is taken: it is that of the
/// `initialize` request.
pub open spec fn fresh_handle(
    key: KeyView,
    id: u64,
    state: ConnectionState,
    settings: Option<serde_json::Value>,
    folders: Option<Seq<FolderView>>,
) -> HandleView {
    HandleView {
        key,
        id,
        state,
        next_request_id: 2,
        capabilities: None,
        dynamic: nothing_registered(),
        settings,
        launch: None,
        folders,
    }
}

/// The request number after another one.
pub open spec fn request_id_after(id: i64) -> i64 {
    if id < i64::MAX {
        (id + 1) as i64
    } else {
        i64::MIN
    }
}

impl HandleView {
    /// Whether the server can answer a method, by a registration of its own or by
    /// what it announced.
    pub open spec fn can(self, method: Seq<char>) -> bool {
        ||| has_method(self.dynamic.registrations, method)
        ||| self.capabilities matches Some(capabilities) && covers(capabilities, method)
    }

    /// Whether the server can be told of changed workspace folders.
    pub open spec fn takes_folders(self) -> bool {
        self.capabilities matches Some(capabilities) && takes_folder_changes(capabilities)
    }

    /// The connection in another state.
    pub open spec fn in_state(self, state: ConnectionState) -> HandleView {
        HandleView { state, ..self }
    }
}

/// What waiting for a connection to become ready comes to, given its state: done,
/// failed with an error of a kind and a text, or still to wait.
pub open spec fn ready_verdict(state: ConnectionState, news: StateNews) -> Option<
    Option<(ErrorKind, Seq<char>)>,
> {
    match news {
        StateNews::TimedOut => Some(Some((ErrorKind::TimedOut, "bridge: wait for ready timeout"@))),
        StateNews::Gone => Some(Some((ErrorKind::Other, "bridge: state channel closed"@))),
        StateNews::Changed => match state {
            ConnectionState::Ready => Some(None),
            ConnectionState::Failed => Some(
                Some((ErrorKind::Other, "bridge: server failed during initialization"@)),
            ),
            ConnectionState::Closing | ConnectionState::Closed => Some(
                Some((ErrorKind::Other, "bridge: server shutdown during wait"@)),
            ),
            ConnectionState::Initializing => None,
        },
    }
}

/// Whether a result is the one that a verdict names.
pub open spec fn is_verdict(result: Result<(), PoolError>, error: Option<(ErrorKind, Seq<char>)>) -> bool {
    match error {
        Some(error) => result is Err && result->Err_0.says(error.0, error.1),
        None => result is Ok,
    }
}

/// Whether this is what waiting for a response comes to.
pub open spec fn is_settled(
    news: ResponseNews,
    result: Result<serde_json::Value, PoolError>,
) -> bool {
    match news {
        ResponseNews::Arrived(response) => result == Ok::<serde_json::Value, PoolError>(response),
        ResponseNews::Gone => result is Err && result->Err_0.says(
            ErrorKind::Other,
            "bridge: response channel closed"@,
        ),
        ResponseNews::TimedOut => result is Err && result->Err_0.says(
            ErrorKind::TimedOut,
            "bridge: request timeout"@,
        ),
    }
}

impl ResponseNews {
    /// The response or the error, and whether the request must be taken off the
    /// list of pending ones.
    pub fn settle(self) -> (settled: (Result<serde_json::Value, PoolError>, bool))
        ensures
            is_settled(self, settled.0),
            settled.1 == (self is TimedOut),
    {
        match self {
            ResponseNews::Arrived(response) => (Ok(response), false),
            ResponseNews::Gone => (
                Err(PoolError::of(ErrorKind::Other, "bridge: response channel closed")),
                false,
            ),
            ResponseNews::TimedOut => (
                Err(PoolError::of(ErrorKind::TimedOut, "bridge: request timeout")),
                true,
            ),
        }
    }
}

/// The error that a message which was not queued stands for.
pub open spec fn send_error(result: NotificationSendResult) -> Option<BridgeError> {
    match result {
        NotificationSendResult::Queued => None,
        NotificationSendResult::QueueFull => Some(BridgeError::QueueFull),
        NotificationSendResult::ChannelClosed => Some(BridgeError::ChannelClosed),
        NotificationSendResult::SerializationFailed => Some(BridgeError::SerializationFailed),
    }
}

/// The kind of error that a message which was not queued stands for: a full
/// queue may be tried again, the others not.
pub open spec fn send_error_kind(result: NotificationSendResult) -> ErrorKind {
    match result {
        NotificationSendResult::Queued => ErrorKind::Other,
        NotificationSendResult::QueueFull => ErrorKind::WouldBlock,
        NotificationSendResult::ChannelClosed => ErrorKind::BrokenPipe,
        NotificationSendResult::SerializationFailed => ErrorKind::InvalidData,
    }
}

impl NotificationSendResult {
    /// The kind of error that a message which was not queued stands for.
    pub fn error_kind(self) -> (kind: ErrorKind)
        ensures
            kind == send_error_kind(self),
    {
        match self {
            NotificationSendResult::Queued => ErrorKind::Other,
            NotificationSendResult::QueueFull => ErrorKind::WouldBlock,
            NotificationSendResult::ChannelClosed => ErrorKind::BrokenPipe,
            NotificationSendResult::SerializationFailed => ErrorKind::InvalidData,
        }
    }

    /// What a request comes to that was to be queued. One that was not is no
    /// longer pending.
    pub fn send_request(self) -> (sent: Result<(), BridgeError>)
        ensures
            match send_error(self) {
                Some(error) => sent == Err::<(), BridgeError>(error),
                None => sent is Ok,
            },
    {
        match self {
            NotificationSendResult::Queued => Ok(()),
            NotificationSendResult::QueueFull => Err(BridgeError::QueueFull),
            NotificationSendResult::ChannelClosed => Err(BridgeError::ChannelClosed),
            NotificationSendResult::SerializationFailed => Err(BridgeError::SerializationFailed),
        }
    }
}

impl ConnectionHandle {
    /// What the server registered is kept in order, and the remembered
    /// configuration holds no settings.
    pub closed spec fn wf(self) -> bool {
        &&& self.dynamic_capabilities.wf()
        &&& self.launch_config matches Some(config) ==> config.settings is None
    }

    /// A connection in a state, with the settings and folders that it starts
    /// with.
    pub fn with_state(
        key: ConnectionKey,
        id: u64,
        state: ConnectionState,
        settings: Option<serde_json::Value>,
        workspace_folders: WorkspaceFolderSet,
    ) -> (handle: Self)
        ensures
            handle.wf(),
            handle@ == fresh_handle(key@, id, state, settings, workspace_folders@),
    {
        ConnectionHandle {
            key,
            id,
            state,
            next_request_id: 2,
            server_capabilities: None,
            dynamic_capabilities: DynamicCapabilityRegistry::new(),
            settings,
            launch_config: None,
            workspace_folders,
        }
    }

    /// The key under which the pool holds the connection.
    pub fn key(&self) -> (key: &ConnectionKey)
        ensures
            key@ == self@.key,
    {
        &self.key
    }

    /// Which of the connections that had this key this one is.
    pub fn id(&self) -> (id: u64)
        ensures
            id == self@.id,
    {
        self.id
    }

    /// Where the connection stands.
    pub fn state(&self) -> (state: ConnectionState)
        ensures
            state == self@.state,
    {
        self.state
    }

    /// Moves the connection to a state.
    pub fn set_state(&mut self, state: ConnectionState)
        ensures
            final(self)@ == old(self)@.in_state(state),
            old(self).wf() ==> final(self).wf(),
    {
        self.state = state;
    }

    /// Makes a connection ready that is still initializing. Says whether it was.
    pub fn transition_initializing_to_ready(&mut self) -> (became_ready: bool)
        ensures
            became_ready == (old(self)@.state is Initializing),
            final(self)@ == (if became_ready {
                old(self)@.in_state(ConnectionState::Ready)
            } else {
                old(self)@
            }),
            old(self).wf() ==> final(self).wf(),
    {
        match self.state {
            ConnectionState::Initializing => {
                self.state = ConnectionState::Ready;
                true
            },
            _ => false,
        }
    }

    /// Starts the shutdown: no new requests are taken from here on.
    pub fn begin_shutdown(&mut self)
        ensures
            final(self)@ == old(self)@.in_state(ConnectionState::Closing),
            old(self).wf() ==> final(self).wf(),
    {
        self.set_state(ConnectionState::Closing);
    }

    /// Ends the shutdown.
    pub fn complete_shutdown(&mut self)
        ensures
            final(self)@ == old(self)@.in_state(ConnectionState::Closed),
            old(self).wf() ==> final(self).wf(),
    {
        self.set_state(ConnectionState::Closed);
    }

    /// A number for a request that no request of this connection had before.
    pub fn next_request_id(&mut self) -> (id: i64)
        ensures
            id == old(self)@.next_request_id,
            final(self)@ == (HandleView {
                next_request_id: request_id_after(old(self)@.next_request_id),
                ..old(self)@
            }),
            old(self).wf() ==> final(self).wf(),
    {
        let id: i64 = self.next_request_id;
        self.next_request_id = self.next_request_id.wrapping_add(1);
        id
    }

    /// What registering a request comes to: its number, and whether the watch
    /// over the server's silence is to start. It starts with the first pending
    /// request of a connection that is ready.
    pub fn register_request(&self, id: i64, accepted: bool, was_empty: bool) -> (registered: Result<
        (i64, bool),
        PoolError,
    >)
        ensures
            accepted ==> registered == Ok::<(i64, bool), PoolError>(
                (id, was_empty && self@.state is Ready),
            ),
            !accepted ==> registered is Err && registered->Err_0.says(
                ErrorKind::Other,
                "bridge: duplicate request ID"@,
            ),
    {
        if !accepted {
            return Err(PoolError::of(ErrorKind::Other, "bridge: duplicate request ID"));
        }
        Ok((id, was_empty && matches!(self.state, ConnectionState::Ready)))
    }

    /// Keeps what the server announced. Only the first announcement counts.
    pub fn set_server_capabilities(&mut self, capabilities: ServerCapabilities)
        ensures
            final(self)@ == (HandleView {
                capabilities: if old(self)@.capabilities is Some {
                    old(self)@.capabilities
                } else {
                    Some(capabilities)
                },
                ..old(self)@
            }),
            old(self).wf() ==> final(self).wf(),
    {
        if self.server_capabilities.is_none() {
            self.server_capabilities = Some(capabilities);
        }
    }

    /// What the server announced.
    pub fn server_capabilities(&self) -> (capabilities: Option<&ServerCapabilities>)
        ensures
            match capabilities {
                Some(capabilities) => self@.capabilities == Some(*capabilities),
                None => self@.capabilities is None,
            },
    {
        match &self.server_capabilities {
            Some(capabilities) => Some(capabilities),
            None => None,
        }
    }

    /// What the server registered while it runs.
    pub fn dynamic_capabilities(&self) -> (registry: &DynamicCapabilityRegistry)
        ensures
            registry@ == self@.dynamic,
            self.wf() ==> registry.wf(),
    {
        &self.dynamic_capabilities
    }

    /// What the server registered while it runs, to be changed in place.
    pub fn dynamic_capabilities_mut(&mut self) -> (registry: &mut DynamicCapabilityRegistry)
        ensures
            registry@ == old(self)@.dynamic,
            old(self).wf() ==> registry.wf(),
            final(self)@ == (HandleView { dynamic: final(registry)@, ..old(self)@ }),
            old(self).wf() && final(registry).wf() ==> final(self).wf(),
    {
        &mut self.dynamic_capabilities
    }

    /// Whether the server can answer a method.
    pub fn has_capability(&self, method: &str) -> (capable: bool)
        requires
            self.wf(),
        ensures
            capable == self@.can(method@),
    {
        if self.dynamic_capabilities.has_registration(method) {
            return true;
        }
        match &self.server_capabilities {
            Some(capabilities) => capabilities.provides(method),
            None => false,
        }
    }

    /// Whether the server can be told of changed workspace folders.
    pub fn supports_workspace_folder_changes(&self) -> (supported: bool)
        ensures
            supported == self@.takes_folders(),
    {
        match &self.server_capabilities {
            Some(capabilities) => capabilities.supports_workspace_folder_changes(),
            None => false,
        }
    }

    /// The settings that the server is served.
    pub fn current_settings(&self) -> (settings: &Option<serde_json::Value>)
        ensures
            *settings == self@.settings,
    {
        &self.settings
    }

    /// Serves the server other settings from here on.
    pub fn store_settings(&mut self, settings: Option<serde_json::Value>)
        ensures
            final(self)@ == (HandleView { settings, ..old(self)@ }),
            old(self).wf() ==> final(self).wf(),
    {
        self.settings = settings;
    }

    /// Remembers with which configuration the server was started.
    pub fn record_launch_config(&mut self, config: &BridgeServerConfig)
        ensures
            final(self)@ == (HandleView { launch: Some(config.launch()), ..old(self)@ }),
            old(self).wf() ==> final(self).wf(),
    {
        self.launch_config = Some(config.without_settings());
    }

    /// With which configuration the server was started. Its settings are not
    /// kept: a running server takes them over.
    pub fn launch_config(&self) -> (config: Option<&BridgeServerConfig>)
        requires
            self.wf(),
        ensures
            match config {
                Some(config) => self@.launch == Some(config.launch()) && config.settings is None,
                None => self@.launch is None,
            },
    {
        match &self.launch_config {
            Some(config) => Some(config),
            None => None,
        }
    }

    /// The folders that the server was told of.
    pub fn workspace_folders(&self) -> (folders: &WorkspaceFolderSet)
        ensures
            folders@ == self@.folders,
    {
        &self.workspace_folders
    }

    /// The folders that the server was told of, to be changed in place.
    pub fn workspace_folders_mut(&mut self) -> (folders: &mut WorkspaceFolderSet)
        ensures
            folders@ == old(self)@.folders,
            final(self)@ == (HandleView { folders: final(folders)@, ..old(self)@ }),
            old(self).wf() ==> final(self).wf(),
    {
        &mut self.workspace_folders
    }

    /// What waiting for the connection to become ready comes to. Nothing is given
    /// back where the wait goes on.
    pub fn wait_for_ready(&self, news: StateNews) -> (verdict: Option<Result<(), PoolError>>)
        ensures
            match ready_verdict(self@.state, news) {
                Some(error) => verdict is Some && is_verdict(verdict->Some_0, error),
                None => verdict is None,
            },
    {
        match news {
            StateNews::TimedOut => Some(
                Err(PoolError::of(ErrorKind::TimedOut, "bridge: wait for ready timeout")),
            ),
            StateNews::Gone => Some(
                Err(PoolError::of(ErrorKind::Other, "bridge: state channel closed")),
            ),
            StateNews::Changed => match self.state {
                ConnectionState::Ready => Some(Ok(())),
                ConnectionState::Failed => Some(
                    Err(
                        PoolError::of(
                            ErrorKind::Other,
                            "bridge: server failed during initialization",
                        ),
                    ),
                ),
                ConnectionState::Closing | ConnectionState::Closed => Some(
                    Err(PoolError::of(ErrorKind::Other, "bridge: server shutdown during wait")),
                ),
                ConnectionState::Initializing => None,
            },
        }
    }

    /// What waiting for a response comes to, and whether the request must be
    /// taken off the list of pending ones. Where the wait ended because the server
    /// fell silent, the connection has failed.
    pub fn wait_for_response(&mut self, news: ResponseNews, fell_silent: bool) -> (settled: (
        Result<serde_json::Value, PoolError>,
        bool,
    ))
        ensures
            is_settled(news, settled.0),
            settled.1 == (news is TimedOut),
            final(self)@ == (if fell_silent && !(news is TimedOut) {
                old(self)@.in_state(ConnectionState::Failed)
            } else {
                old(self)@
            }),
            old(self).wf() ==> final(self).wf(),
    {
        if fell_silent && !matches!(news, ResponseNews::TimedOut) {
            self.set_state(ConnectionState::Failed);
        }
        news.settle()
    }

    /// Starts an orderly shutdown and says what is to be done first.
    pub fn graceful_shutdown(&mut self) -> (step: ShutdownStep)
        ensures
            step is StopWriter,
            final(self)@ == old(self)@.in_state(ConnectionState::Closing),
            old(self).wf() ==> final(self).wf(),
    {
        self.begin_shutdown();
        ShutdownStep::StopWriter
    }

    /// Goes on with an orderly shutdown. However a step went, the connection is
    /// closed when nothing is left to do.
    pub fn shutdown_went(&mut self, step: ShutdownStep, went_well: bool) -> (next: ShutdownStep)
        ensures
            next == step_after(step, went_well),
            final(self)@ == (if next is Done {
                old(self)@.in_state(ConnectionState::Closed)
            } else {
                old(self)@
            }),
            old(self).wf() ==> final(self).wf(),
    {
        let next = step.after(went_well);
        if matches!(next, ShutdownStep::Done) {
            self.complete_shutdown();
        }
        next
    }
}

/// An orderly shutdown comes to an end however its steps go: each one brings it
/// closer.
pub proof fn shutdowns_end(step: ShutdownStep, went_well: bool)
    ensures
        !(step is Done) ==> steps_left(step_after(step, went_well)) < steps_left(step),
        steps_left(step) == 0 ==> step is Done,
{
}

/// A process whose pipe was taken back is killed before the shutdown ends: only
/// a lost pipe leads to the end without that.
pub proof fn processes_are_killed(step: ShutdownStep, went_well: bool)
    ensures
        step_after(step, went_well) is Done ==> step is Kill || step is Done || (step is StopWriter
            && !went_well),
{
}

/// The numbers of requests start after that of the `initialize` request and grow,
/// as long as there are numbers left.
pub proof fn request_numbers_grow(
    key: KeyView,
    handle: u64,
    state: ConnectionState,
    settings: Option<serde_json::Value>,
    folders: Option<Seq<FolderView>>,
    id: i64,
)
    ensures
        fresh_handle(key, handle, state, settings, folders).next_request_id > 1,
        id < i64::MAX ==> request_id_after(id) > id,
{
}

/// A server can answer a method where it registered for it or announced it, and
/// nowhere else. Neither takes the other away.
pub proof fn abilities_add_up(handle: HandleView, method: Seq<char>, id: Seq<char>)
    ensures
        handle.dynamic.registrations.contains_key(id) && handle.dynamic.registrations[id].method
            == method ==> handle.can(method),
        handle.capabilities is Some && covers(handle.capabilities->0, method) ==> handle.can(
            method,
        ),
        (forall|i: Seq<char>| #[trigger]
            handle.dynamic.registrations.contains_key(i)
                ==> handle.dynamic.registrations[i].method != method) && (handle.capabilities
            is None || !covers(handle.capabilities->0, method)) ==> !handle.can(method),
        handle.takes_folders() <==> handle.capabilities is Some && takes_folder_changes(
            handle.capabilities->0,
        ),
{
}

/// A shutdown in which all goes well stops the writer, asks, hears the answer, says
/// exit and makes sure that the process is gone. A server that does not answer is
/// told to exit all the same, and one that cannot be asked is killed at once.
pub proof fn shutdowns_run_in_order(went_well: bool)
    ensures
        step_after(ShutdownStep::StopWriter, true) is AskShutdown,
        step_after(ShutdownStep::StopWriter, false) is Done,
        step_after(ShutdownStep::AskShutdown, true) is AwaitAnswer,
        step_after(ShutdownStep::AskShutdown, false) is Kill,
        step_after(ShutdownStep::AwaitAnswer, went_well) is SayExit,
        step_after(ShutdownStep::SayExit, went_well) is Kill,
        step_after(ShutdownStep::Kill, went_well) is Done,
        step_after(ShutdownStep::Done, went_well) is Done,
{
}

/// Waiting for a connection ends well exactly where the connection is ready, and
/// goes on exactly while it is still initializing. Time that ran out is told from
/// every other failure.
pub proof fn waiting_ends_with_the_state(state: ConnectionState, news: StateNews)
    ensures
        ready_verdict(state, news) == Some(None::<(ErrorKind, Seq<char>)>) <==> news is Changed
            && state is Ready,
        ready_verdict(state, news) is None <==> news is Changed && state is Initializing,
        ready_verdict(state, news) matches Some(Some(error)) ==> (error.0 is TimedOut <==> news
            is TimedOut),
{
}

/// A message that was queued is no error. The others are told apart, and only a full
/// queue is worth another try.
pub proof fn only_queued_messages_are_sent(result: NotificationSendResult)
    ensures
        send_error(result) is None <==> result is Queued,
        send_error(result) == Some(BridgeError::QueueFull) <==> result is QueueFull,
        send_error(result) == Some(BridgeError::ChannelClosed) <==> result is ChannelClosed,
        send_error(result) == Some(BridgeError::SerializationFailed) <==> result
            is SerializationFailed,
        send_error_kind(result) is WouldBlock <==> result is QueueFull,
        send_error_kind(result) is BrokenPipe <==> result is ChannelClosed,
        send_error_kind(result) is InvalidData <==> result is SerializationFailed,
{
}

/// A response is handed on as it came, and only time that ran out is reported as
/// such.
pub proof fn responses_are_handed_on(
    response: serde_json::Value,
    result: Result<serde_json::Value, PoolError>,
)
    ensures
        is_settled(ResponseNews::Arrived(response), result) <==> result == Ok::<
            serde_json::Value,
            PoolError,
        >(response),
        is_settled(ResponseNews::Gone, result) ==> result is Err && !(result->Err_0.spec_kind()
            is TimedOut),
        is_settled(ResponseNews::TimedOut, result) ==> result is Err && result->Err_0.spec_kind()
            is TimedOut,
{
}

/// Request numbers go up by one, until they run out.
pub proof fn request_numbers_count_up(id: i64)
    ensures
        id < i64::MAX ==> request_id_after(id) == id + 1,
        request_id_after(id) != id,
{
}

/// A wait that ends well is reported as such, and one that fails with the kind and
/// the text of its failure.
pub proof fn waits_are_reported(
    result: Result<(), PoolError>,
    kind: ErrorKind,
    message: Seq<char>,
)
    ensures
        is_verdict(result, None) <==> result is Ok,
        is_verdict(result, Some((kind, message))) <==> result is Err && result->Err_0.spec_kind()
            == kind && result->Err_0.spec_message() == message,
{
}

} // verus!
