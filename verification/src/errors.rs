//! The errors of the networking core.

use vstd::prelude::*;

verus! {

/// The ways in which an operation of the networking core can fail.
#[derive(Clone, Copy, Debug, PartialEq, Eq, Structural)]
pub enum NetworkError {
    /// The handshake with the peer did not finish before its deadline.
    HandshakeTimeout,
    /// The peer broke the handshake protocol, or the connection failed during it.
    InvalidHandshake,
    /// The peer is already connected.
    PeerAlreadyConnected,
    /// A connection to the peer is already being established.
    PeerAlreadyConnecting,
    /// The peer was disconnected while its connection was being set up.
    PeerIsDisconnected,
    /// The inbound queue was closed.
    ReceiverFailedToParse,
    /// The node tried to connect to itself.
    SelfConnectAttempt,
    /// The node has no room for another connection.
    TooManyConnections,
}

} // verus!
