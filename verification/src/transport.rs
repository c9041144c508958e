//! What a server does when the state of a connection changes, and when a
//! poll is to be repeated.

use vstd::prelude::*;

verus! {

/// The most messages or events that one poll hands over.
pub const POLL_BATCH: usize = 100;

/// The state of a connection.
#[derive(Clone, Copy, PartialEq, Eq, Structural, Debug)]
pub enum ConnectionState {
    Unconnected,
    Connecting,
    FindingRoute,
    Connected,
    ClosedByPeer,
    ProblemDetectedLocally,
    /// Any state that the transport keeps to itself.
    Other,
}

/// What the server does about a change of state.
#[derive(Clone, Copy, PartialEq, Eq, Structural, Debug)]
pub enum ServerAction {
    /// Accept the client that is about to connect.
    Accept,
    /// Forget the client and close its connection.
    Close,
    /// Nothing: the client that was accepted is now connected.
    Nothing,
    /// Report the change.
    Report,
}

/// What the server does when a connection goes from one state to another.
pub open spec fn action_for(old_state: ConnectionState, new_state: ConnectionState) -> ServerAction {
    if old_state == ConnectionState::Unconnected && new_state == ConnectionState::Connecting {
        ServerAction::Accept
    } else if old_state == ConnectionState::Connecting && new_state == ConnectionState::Connected {
        ServerAction::Nothing
    } else if new_state == ConnectionState::ClosedByPeer || new_state
        == ConnectionState::ProblemDetectedLocally {
        ServerAction::Close
    } else {
        ServerAction::Report
    }
}

/// Decides what the server does when a connection goes from one state to
/// another.
pub fn server_action(old_state: ConnectionState, new_state: ConnectionState) -> (r: ServerAction)
    ensures
        r == action_for(old_state, new_state),
{
    match (old_state, new_state) {
        (ConnectionState::Unconnected, ConnectionState::Connecting) => ServerAction::Accept,
        (ConnectionState::Connecting, ConnectionState::Connected) => ServerAction::Nothing,
        (_, ConnectionState::ClosedByPeer) => ServerAction::Close,
        (_, ConnectionState::ProblemDetectedLocally) => ServerAction::Close,
        _ => ServerAction::Report,
    }
}

/// Whether messages are to be polled again: unless the poll handed over
/// fewer than a whole batch.
pub fn more_messages(polled: Option<usize>) -> (r: bool)
    ensures
        r == !(polled matches Some(n) && n < POLL_BATCH),
{
    match polled {
        Some(n) => n >= POLL_BATCH,
        None => true,
    }
}

/// Whether events are to be polled again: where the poll handed over a
/// whole batch.
pub fn more_events(polled: usize) -> (r: bool)
    ensures
        r == (polled >= POLL_BATCH),
{
    polled >= POLL_BATCH
}

} // verus!
