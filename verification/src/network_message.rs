//! Marker traits for the messages that travel between clients and servers.
use vstd::prelude::*;

verus! {

/// Any type that is sent over the wire implements [`NetworkMessage`]. It is
/// also marked with [`ServerMessage`] or [`ClientMessage`] (or both) to say in
/// which direction it may travel.
pub trait NetworkMessage {}

/// A message that is sent *to* a server.
pub trait ServerMessage: NetworkMessage {
    /// A unique name to identify the message, unique across all included
    /// crates; the crate name followed by the type name is a good choice.
    const NAME: &'static str;
}

/// A message that is sent *to* a client.
pub trait ClientMessage: NetworkMessage {
    /// A unique name to identify the message, unique across all included
    /// crates; the crate name followed by the type name is a good choice.
    const NAME: &'static str;
}

} // verus!
