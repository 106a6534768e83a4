//! A simple networking layer for client/server games.
//!
//! A server accepts many clients and a client connects to one server. Each
//! side registers which kinds of message it listens for; packets of other
//! kinds are dropped. Packets travel as length-prefixed frames, and a
//! receiver disconnects a peer that announces a packet larger than its limit.
use vstd::prelude::*;

pub mod channel;
pub mod client;
pub mod error;
pub mod framing;
pub mod network_message;
pub mod provider;
pub mod registry;
pub mod runtime;
pub mod server;

pub use client::{NetworkClient, ServerConnection};
pub use error::NetworkError;
pub use network_message::{ClientMessage, NetworkMessage, ServerMessage};
pub use provider::{
    TcpClientProvider, TcpServerProvider, TokioTcpStreamClientProvider,
    TokioTcpStreamServerProvider,
};
pub use runtime::JoinHandle;
pub use server::{ClientConnection, NetworkServer};

verus! {

/// A [`ConnectionId`] denotes a single connection.
///
/// [`ConnectionId::is_server`] tells whether it is the connection to a server.
#[derive(Hash, PartialEq, Eq, Clone, Copy, Debug, Structural)]
pub struct ConnectionId {
    uuid: u128,
}

impl View for ConnectionId {
    type V = u128;

    /// The UUID of the connection, as a number.
    closed spec fn view(&self) -> u128 {
        self.uuid
    }
}

/// The bits that a version-4 UUID takes from its random source: all but the
/// version nibble (bits 76..80) and the variant bits (62..64).
pub open spec fn random_bits_mask() -> u128 {
    !((0xfu128 << 76u128) | (0x3u128 << 62u128))
}

/// The version-4 UUID made from the random number `bits`: version nibble 4,
/// variant bits `0b10`, and every other bit taken from `bits`, as
/// `uuid::Builder::set_version` and `set_variant` write them.
pub open spec fn v4_uuid(bits: u128) -> u128 {
    (bits & random_bits_mask()) | (4u128 << 76u128) | (2u128 << 62u128)
}

/// The lower-case hexadecimal digit of `n`, for `n < 16`.
pub open spec fn hex_digit(n: u128) -> char {
    if n < 10 {
        (48 + n) as char
    } else {
        (87 + n) as char
    }
}

/// The hyphenated text of a UUID: 32 lower-case hexadecimal digits, most
/// significant first, in groups of 8, 4, 4, 4 and 12 separated by `-`.
pub open spec fn uuid_text(uuid: u128) -> Seq<char> {
    Seq::new(
        36,
        |p: int|
            if p == 8 || p == 13 || p == 18 || p == 23 {
                '-'
            } else {
                let hyphens_before: int = if p < 8 {
                    0
                } else if p < 13 {
                    1
                } else if p < 18 {
                    2
                } else if p < 23 {
                    3
                } else {
                    4
                };
                let digit = p - hyphens_before;
                hex_digit((uuid >> ((31 - digit) * 4) as u128) & 0xfu128)
            },
    )
}

/// The hyphenated text of a UUID: the `Display` of `Uuid::from_u128(uuid)`
/// (the `uuid` crate, as `bevy::utils` re-exports it), which writes the
/// lower-case hyphenated form.
#[verifier::external_body]
fn uuid_display(uuid: u128) -> (r: String)
    ensures
        r@ == uuid_text(uuid),
{
    bevy::utils::Uuid::from_u128(uuid).to_string()
}

impl ConnectionId {
    /// The id that stands for the connection to the server: the nil UUID.
    pub fn server() -> (r: ConnectionId)
        ensures
            r@ == 0,
    {
        ConnectionId { uuid: 0 }
    }

    /// The id of a new client connection, made from the random number
    /// `bits` as a version-4 UUID; it is never the server's.
    pub fn from_random(bits: u128) -> (r: ConnectionId)
        ensures
            r@ == v4_uuid(bits),
            r@ & random_bits_mask() == bits & random_bits_mask(),
            (r@ >> 76u128) & 0xfu128 == 4,
            (r@ >> 62u128) & 0x3u128 == 2,
            r@ != 0,
    {
        let uuid: u128 = (bits & !((0xfu128 << 76u128) | (0x3u128 << 62u128))) | (4u128 << 76u128)
            | (2u128 << 62u128);
        assert(uuid & !((0xfu128 << 76u128) | (0x3u128 << 62u128)) == bits & !((0xfu128
            << 76u128) | (0x3u128 << 62u128))) by (bit_vector)
            requires
                uuid == (bits & !((0xfu128 << 76u128) | (0x3u128 << 62u128))) | (4u128 << 76u128)
                    | (2u128 << 62u128),
        ;
        assert((uuid >> 76u128) & 0xfu128 == 4 && (uuid >> 62u128) & 0x3u128 == 2 && uuid != 0)
            by (bit_vector)
            requires
                uuid == (bits & !((0xfu128 << 76u128) | (0x3u128 << 62u128))) | (4u128 << 76u128)
                    | (2u128 << 62u128),
        ;
        ConnectionId { uuid }
    }

    /// Check whether this [`ConnectionId`] is a server.
    pub fn is_server(&self) -> (r: bool)
        ensures
            r == (self@ == 0),
    {
        self.uuid == 0
    }

    /// The text of the id: `Connection with ID=` followed by the hyphenated
    /// UUID.
    pub fn to_string(&self) -> (r: String)
        ensures
            r@ == "Connection with ID="@ + uuid_text(self@),
    {
        let mut text = "Connection with ID=".to_owned();
        let uuid = uuid_display(self.uuid);
        text.append(uuid.as_str());
        text
    }

    /// The UUID of the connection, as a number.
    pub fn as_u128(&self) -> (r: u128)
        ensures
            r == self@,
    {
        self.uuid
    }
}

/// An untyped packet to be sent over the wire: the name of its message kind,
/// and the message.
#[derive(Debug)]
pub struct NetworkPacket<D> {
    pub kind: String,
    pub data: D,
}

impl<D> NetworkPacket<D> {
    /// A packet of the given kind that carries `data`.
    pub fn new(kind: &str, data: D) -> (r: Self)
        ensures
            r.kind@ == kind@,
            r.data == data,
    {
        NetworkPacket { kind: kind.to_owned(), data }
    }
}

/// A network event originating from a server.
#[derive(Debug)]
pub enum ServerNetworkEvent<E> {
    /// A new client has connected.
    Connected(ConnectionId),
    /// A client has disconnected.
    Disconnected(ConnectionId),
    /// An error occurred while trying to do a network operation.
    Error(NetworkError<E>),
}

/// A network event originating from a client.
#[derive(Debug)]
pub enum ClientNetworkEvent<E> {
    /// Connected to a server.
    Connected,
    /// Disconnected from a server.
    Disconnected,
    /// An error occurred while trying to do a network operation.
    Error(NetworkError<E>),
}

/// A message together with the connection it came from.
#[derive(Debug)]
pub struct NetworkData<T> {
    source: ConnectionId,
    inner: T,
}

impl<T> NetworkData<T> {
    /// The connection that the data came from.
    pub closed spec fn spec_source(&self) -> ConnectionId {
        self.source
    }

    /// The data itself.
    pub closed spec fn spec_inner(&self) -> T {
        self.inner
    }

    /// Wraps data received from `source`.
    pub fn new(source: ConnectionId, inner: T) -> (r: Self)
        ensures
            r.spec_source() == source,
            r.spec_inner() == inner,
    {
        NetworkData { source, inner }
    }

    /// The source of this network data.
    pub fn source(&self) -> (r: ConnectionId)
        ensures
            r == self.spec_source(),
    {
        self.source
    }

    /// Get the inner data out of it.
    pub fn into_inner(self) -> (r: T)
        ensures
            r == self.spec_inner(),
    {
        self.inner
    }
}

impl<T> std::ops::Deref for NetworkData<T> {
    type Target = T;

    fn deref(&self) -> (r: &T)
        ensures
            *r == self.spec_inner(),
    {
        &self.inner
    }
}

} // verus!
