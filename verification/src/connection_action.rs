//! What to do with the connection that is already there when one is asked for.

use crate::connection_state::ConnectionState;
use crate::error::{ErrorKind, PoolError};
use vstd::prelude::*;

verus! {

/// How often in a row the handshake of a connection may crash before the
/// connection is not started any more.
pub const MAX_CONSECUTIVE_PANICS: u32 = 3;

/// Why a connection cannot be used right now.
#[derive(Clone, Copy, Debug, PartialEq, Eq, Structural)]
pub enum BridgeError {
    /// The server has not finished its handshake.
    Initializing,
    /// The connection is being shut down.
    Closing,
    /// The handshake crashed too often.
    Disabled,
    /// The queue to the server is full for now.
    QueueFull,
    /// The queue to the server is gone.
    ChannelClosed,
    /// The message could not be written.
    SerializationFailed,
}

/// The text of an error.
pub open spec fn bridge_text(error: BridgeError) -> Seq<char> {
    match error {
        BridgeError::Initializing => "bridge: downstream server initializing"@,
        BridgeError::Closing => "bridge: connection closing"@,
        BridgeError::Disabled => "bridge: server disabled after repeated handshake panics"@,
        BridgeError::QueueFull => "bridge: request queue full"@,
        BridgeError::ChannelClosed => "bridge: request channel closed"@,
        BridgeError::SerializationFailed => "bridge: failed to serialize request"@,
    }
}

impl BridgeError {
    /// Whether waiting for the handshake helps.
    pub fn is_initializing(&self) -> (initializing: bool)
        ensures
            initializing == (*self is Initializing),
    {
        matches!(*self, BridgeError::Initializing)
    }

    /// The error as the pool reports it.
    pub fn into_error(self) -> (error: PoolError)
        ensures
            error.says(ErrorKind::Other, bridge_text(self)),
    {
        let text = match self {
            BridgeError::Initializing => "bridge: downstream server initializing",
            BridgeError::Closing => "bridge: connection closing",
            BridgeError::Disabled => "bridge: server disabled after repeated handshake panics",
            BridgeError::QueueFull => "bridge: request queue full",
            BridgeError::ChannelClosed => "bridge: request channel closed",
            BridgeError::SerializationFailed => "bridge: failed to serialize request",
        };
        PoolError::of(ErrorKind::Other, text)
    }
}

/// What to do about a connection that is asked for.
#[derive(Clone, Copy, Debug, PartialEq, Eq, Structural)]
pub enum ConnectionAction {
    /// Use the one that is there.
    ReturnExisting,
    /// Give up at once.
    FailFast(BridgeError),
    /// Start a new one in the place of the one that is there, if any.
    SpawnNew,
}

/// What the state of the connection that is there, if any, and the crashes of
/// its handshake so far lead to.
pub open spec fn action_for(state: Option<ConnectionState>, panics: u32) -> ConnectionAction {
    match state {
        Some(ConnectionState::Ready) => ConnectionAction::ReturnExisting,
        Some(ConnectionState::Initializing) => ConnectionAction::FailFast(
            BridgeError::Initializing,
        ),
        Some(ConnectionState::Closing) => ConnectionAction::FailFast(BridgeError::Closing),
        _ => if panics >= MAX_CONSECUTIVE_PANICS {
            ConnectionAction::FailFast(BridgeError::Disabled)
        } else {
            ConnectionAction::SpawnNew
        },
    }
}

/// Decides what to do about a connection that is asked for.
pub fn decide_connection_action(state: Option<ConnectionState>, panics: u32) -> (action:
    ConnectionAction)
    ensures
        action == action_for(state, panics),
{
    match state {
        Some(ConnectionState::Ready) => ConnectionAction::ReturnExisting,
        Some(ConnectionState::Initializing) => ConnectionAction::FailFast(
            BridgeError::Initializing,
        ),
        Some(ConnectionState::Closing) => ConnectionAction::FailFast(BridgeError::Closing),
        _ => if panics >= MAX_CONSECUTIVE_PANICS {
            ConnectionAction::FailFast(BridgeError::Disabled)
        } else {
            ConnectionAction::SpawnNew
        },
    }
}

/// A connection is started only where none is there, or where the one that is
/// there is past use.
pub proof fn usable_connections_are_not_replaced(state: Option<ConnectionState>, panics: u32)
    ensures
        action_for(state, panics) is SpawnNew ==> state is None || state == Some(
            ConnectionState::Failed,
        ) || state == Some(ConnectionState::Closed),
        action_for(state, panics) is ReturnExisting <==> state == Some(ConnectionState::Ready),
{
}

/// A handshake that crashes every time is not tried for ever.
pub proof fn crashing_handshakes_are_given_up(state: Option<ConnectionState>, panics: u32)
    ensures
        panics >= MAX_CONSECUTIVE_PANICS ==> !(action_for(state, panics) is SpawnNew),
{
}

/// Each state has its own answer: a ready connection is used, one that is not ready
/// yet or is being shut down is refused for that reason however often it crashed,
/// and one that is missing or past use is started anew until it crashed three times
/// in a row.
pub proof fn each_state_has_its_answer(state: Option<ConnectionState>, panics: u32)
    ensures
        state == Some(ConnectionState::Ready) <==> action_for(state, panics) is ReturnExisting,
        state == Some(ConnectionState::Initializing) <==> action_for(state, panics)
            == ConnectionAction::FailFast(BridgeError::Initializing),
        state == Some(ConnectionState::Closing) <==> action_for(state, panics)
            == ConnectionAction::FailFast(BridgeError::Closing),
        (state is None || state == Some(ConnectionState::Failed) || state == Some(
            ConnectionState::Closed,
        )) && panics < 3 <==> action_for(state, panics) is SpawnNew,
        (state is None || state == Some(ConnectionState::Failed) || state == Some(
            ConnectionState::Closed,
        )) && panics >= 3 <==> action_for(state, panics) == ConnectionAction::FailFast(
            BridgeError::Disabled,
        ),
{
}

/// Each reason has a text of its own, by which it can be told from all others.
pub proof fn reasons_are_told_apart(error: BridgeError)
    ensures
        bridge_text(error) == "bridge: downstream server initializing"@ <==> error is Initializing,
        bridge_text(error) == "bridge: connection closing"@ <==> error is Closing,
        bridge_text(error) == "bridge: server disabled after repeated handshake panics"@
            <==> error is Disabled,
        bridge_text(error) == "bridge: request queue full"@ <==> error is QueueFull,
        bridge_text(error) == "bridge: request channel closed"@ <==> error is ChannelClosed,
        bridge_text(error) == "bridge: failed to serialize request"@ <==> error
            is SerializationFailed,
{
    reveal_strlit("bridge: downstream server initializing");
    reveal_strlit("bridge: connection closing");
    reveal_strlit("bridge: server disabled after repeated handshake panics");
    reveal_strlit("bridge: request queue full");
    reveal_strlit("bridge: request channel closed");
    reveal_strlit("bridge: failed to serialize request");
    assert("bridge: connection closing"@.len() == 26 && "bridge: request queue full"@.len() == 26);
    assert("bridge: connection closing"@[8] == 'c' && "bridge: request queue full"@[8] == 'r');
    assert("bridge: downstream server initializing"@.len() == 38);
    assert("bridge: server disabled after repeated handshake panics"@.len() == 55);
    assert("bridge: request channel closed"@.len() == 30);
    assert("bridge: failed to serialize request"@.len() == 35);
}

} // verus!
