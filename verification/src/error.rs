//! The errors that networking operations report.
use vstd::prelude::*;

use crate::ConnectionId;

verus! {

/// Errors of the networking layer; `E` is the error type of the transport
/// (for the TCP providers, an I/O error).
#[derive(Debug)]
pub enum NetworkError<E> {
    /// An error occurred when accepting a new connection.
    Accept(E),
    /// The connection could not be found.
    ConnectionNotFound(ConnectionId),
    /// Sending failed because the channel of the connection was closed.
    ChannelClosed(ConnectionId),
    /// Cannot send, as there is no connection.
    NotConnected,
    /// An error occurred when trying to listen for connections.
    Listen(E),
    /// An error occurred when trying to connect.
    Connection(E),
    /// An error reported by the transport provider.
    Provider(E),
}

} // verus!
