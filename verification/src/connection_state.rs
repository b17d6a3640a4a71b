//! The life of a downstream connection.

use vstd::prelude::*;

verus! {

/// Where a connection stands between its start and its end.
#[derive(Clone, Copy, Debug, PartialEq, Eq, Structural)]
pub enum ConnectionState {
    /// The server was started and has not answered `initialize` yet.
    Initializing,
    /// The handshake is complete: requests may be sent.
    Ready,
    /// The handshake failed, or the server fell silent.
    Failed,
    /// The connection is being shut down.
    Closing,
    /// The connection is gone for good.
    Closed,
}

/// A connection that is ready, or that may still become so, is shut down with a
/// handshake of its own. One that failed cannot take part in it.
pub open spec fn can_say_goodbye(state: ConnectionState) -> bool {
    state is Ready || state is Initializing
}

} // verus!
