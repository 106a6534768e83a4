//! The transport providers: how each one frames packets, and the decisions
//! that its accepting, connecting, receiving and sending loops take. The loops
//! themselves run asynchronously around these decisions.
use vstd::prelude::*;

use crate::framing::{encode_frame, FrameError, FrameFormat, FrameReader};
use crate::NetworkError;

verus! {

/// What just happened in a server's accepting loop.
pub enum AcceptEvent<E> {
    /// Binding the listening socket failed.
    ListenFailed(E),
    /// Accepting a connection failed.
    AcceptFailed(E),
    /// A connection was accepted.
    Accepted,
    /// The accepted connection was handed to the server.
    HandedOff,
    /// The server no longer takes connections (its channel is closed).
    HandOffFailed,
}

/// What a server's accepting loop does next.
pub enum AcceptAction<E> {
    /// Report the error, then end the loop.
    ReportAndStop(NetworkError<E>),
    /// Report the error, then wait for the next connection.
    ReportAndContinue(NetworkError<E>),
    /// Hand the accepted connection to the server.
    HandOff,
    /// Wait for the next connection.
    AcceptNext,
    /// End the loop.
    Stop,
}

/// The decision of the accepting loop: a failure to listen is reported and
/// ends the loop; a failure to accept is reported and the loop goes on; an
/// accepted connection is handed to the server, and the loop ends once the
/// server no longer takes connections.
pub fn accept_step<E>(event: AcceptEvent<E>) -> (r: AcceptAction<E>)
    ensures
        match event {
            AcceptEvent::ListenFailed(e) => r matches AcceptAction::ReportAndStop(
                NetworkError::Listen(x),
            ) && x == e,
            AcceptEvent::AcceptFailed(e) => r matches AcceptAction::ReportAndContinue(
                NetworkError::Accept(x),
            ) && x == e,
            AcceptEvent::Accepted => r matches AcceptAction::HandOff,
            AcceptEvent::HandedOff => r matches AcceptAction::AcceptNext,
            AcceptEvent::HandOffFailed => r matches AcceptAction::Stop,
        },
{
    match event {
        AcceptEvent::ListenFailed(e) => AcceptAction::ReportAndStop(NetworkError::Listen(e)),
        AcceptEvent::AcceptFailed(e) => AcceptAction::ReportAndContinue(NetworkError::Accept(e)),
        AcceptEvent::Accepted => AcceptAction::HandOff,
        AcceptEvent::HandedOff => AcceptAction::AcceptNext,
        AcceptEvent::HandOffFailed => AcceptAction::Stop,
    }
}

/// The outcome of a client's attempt to connect.
pub enum ConnectEvent<E> {
    /// The connection could not be made.
    ConnectFailed(E),
    /// The connection was made.
    Connected,
}

/// What a client's connecting task does next.
pub enum ConnectAction<E> {
    /// Report the error as a client event, and end.
    ReportAndStop(NetworkError<E>),
    /// Hand the connection to the client, and end.
    HandOff,
}

/// The decision of the connecting task: a failure is reported as a
/// `Connection` error; a made connection is handed to the client.
pub fn connect_step<E>(event: ConnectEvent<E>) -> (r: ConnectAction<E>)
    ensures
        match event {
            ConnectEvent::ConnectFailed(e) => r matches ConnectAction::ReportAndStop(
                NetworkError::Connection(x),
            ) && x == e,
            ConnectEvent::Connected => r matches ConnectAction::HandOff,
        },
{
    match event {
        ConnectEvent::ConnectFailed(e) => ConnectAction::ReportAndStop(NetworkError::Connection(e)),
        ConnectEvent::Connected => ConnectAction::HandOff,
    }
}

/// What just happened in a receiving loop, after a frame has been read.
pub enum ReceiveEvent {
    /// Reading from the socket failed.
    ReadFailed,
    /// The frame reader refused the stream.
    Refused(FrameError),
    /// The payload of a frame could not be decoded into a packet.
    DecodeFailed,
    /// The packet was decoded and handed on.
    Delivered,
    /// The packet was decoded, but the side that takes packets is gone.
    DeliveryFailed,
}

/// Whether a loop goes on.
#[derive(Clone, Copy, Debug, PartialEq, Eq, Structural)]
pub enum LoopControl {
    /// Go on with the next item.
    Continue,
    /// End the loop (and with it the connection).
    Stop,
}

/// The decision of a receiving loop: only a delivered packet lets it go on;
/// a read error, an oversized frame, an undecodable payload or a lost
/// receiver ends it.
pub fn receive_step(event: ReceiveEvent) -> (r: LoopControl)
    ensures
        r == LoopControl::Continue <==> event is Delivered,
{
    match event {
        ReceiveEvent::Delivered => LoopControl::Continue,
        _ => LoopControl::Stop,
    }
}

/// What just happened in a sending loop, for one packet.
pub enum SendEvent {
    /// The packet could not be encoded.
    EncodeFailed,
    /// Writing the length header failed.
    HeaderWriteFailed,
    /// Writing the payload failed.
    PayloadWriteFailed,
    /// The whole frame was written.
    Written,
}

/// The decision of a sending loop: a packet that cannot be encoded is skipped
/// and the loop goes on; a failed write ends the loop.
pub fn send_step(event: SendEvent) -> (r: LoopControl)
    ensures
        r == LoopControl::Continue <==> (event is EncodeFailed || event is Written),
{
    match event {
        SendEvent::EncodeFailed => LoopControl::Continue,
        SendEvent::Written => LoopControl::Continue,
        _ => LoopControl::Stop,
    }
}

/// The server side of TCP with tokio streams; frames carry a big-endian
/// `u32` length.
#[derive(Clone, Copy, Debug, Default)]
pub struct TokioTcpStreamServerProvider;

/// The client side of TCP with tokio streams; frames carry a big-endian
/// `u32` length.
#[derive(Clone, Copy, Debug, Default)]
pub struct TokioTcpStreamClientProvider;

/// The server side of plain TCP; frames carry a little-endian
/// `u64` length.
#[derive(Clone, Copy, Debug, Default)]
pub struct TcpServerProvider;

/// The client side of plain TCP; frames carry a little-endian
/// `u64` length.
#[derive(Clone, Copy, Debug, Default)]
pub struct TcpClientProvider;

impl TokioTcpStreamServerProvider {
    /// The header layout of this provider's frames.
    pub fn frame_format() -> (r: FrameFormat)
        ensures
            r == FrameFormat::U32BigEndian,
    {
        FrameFormat::U32BigEndian
    }

    /// The frame that carries `payload`.
    pub fn encode_frame(payload: &[u8]) -> (r: Vec<u8>)
        ensures
            r@ == FrameFormat::U32BigEndian.frame_bytes(payload@),
    {
        encode_frame(FrameFormat::U32BigEndian, payload)
    }

    /// A reader for the frames of one connection.
    pub fn frame_reader(max_packet_length: usize) -> (r: FrameReader)
        ensures
            r.format() == FrameFormat::U32BigEndian,
            r.max_packet_length() == max_packet_length,
            r.awaiting_body() is None,
    {
        FrameReader::new(FrameFormat::U32BigEndian, max_packet_length)
    }
}

impl TokioTcpStreamClientProvider {
    /// The header layout of this provider's frames.
    pub fn frame_format() -> (r: FrameFormat)
        ensures
            r == FrameFormat::U32BigEndian,
    {
        FrameFormat::U32BigEndian
    }

    /// The frame that carries `payload`.
    pub fn encode_frame(payload: &[u8]) -> (r: Vec<u8>)
        ensures
            r@ == FrameFormat::U32BigEndian.frame_bytes(payload@),
    {
        encode_frame(FrameFormat::U32BigEndian, payload)
    }

    /// A reader for the frames of the connection.
    pub fn frame_reader(max_packet_length: usize) -> (r: FrameReader)
        ensures
            r.format() == FrameFormat::U32BigEndian,
            r.max_packet_length() == max_packet_length,
            r.awaiting_body() is None,
    {
        FrameReader::new(FrameFormat::U32BigEndian, max_packet_length)
    }
}

impl TcpServerProvider {
    /// The header layout of this provider's frames.
    pub fn frame_format() -> (r: FrameFormat)
        ensures
            r == FrameFormat::U64LittleEndian,
    {
        FrameFormat::U64LittleEndian
    }

    /// The frame that carries `payload`.
    pub fn encode_frame(payload: &[u8]) -> (r: Vec<u8>)
        ensures
            r@ == FrameFormat::U64LittleEndian.frame_bytes(payload@),
    {
        encode_frame(FrameFormat::U64LittleEndian, payload)
    }

    /// A reader for the frames of one connection. Its receive buffer holds
    /// `max_packet_length` bytes and must have room for a header.
    pub fn frame_reader(max_packet_length: usize) -> (r: FrameReader)
        requires
            max_packet_length >= 8,
        ensures
            r.format() == FrameFormat::U64LittleEndian,
            r.max_packet_length() == max_packet_length,
            r.awaiting_body() is None,
    {
        FrameReader::new(FrameFormat::U64LittleEndian, max_packet_length)
    }
}

impl TcpClientProvider {
    /// The header layout of this provider's frames.
    pub fn frame_format() -> (r: FrameFormat)
        ensures
            r == FrameFormat::U64LittleEndian,
    {
        FrameFormat::U64LittleEndian
    }

    /// The frame that carries `payload`.
    pub fn encode_frame(payload: &[u8]) -> (r: Vec<u8>)
        ensures
            r@ == FrameFormat::U64LittleEndian.frame_bytes(payload@),
    {
        encode_frame(FrameFormat::U64LittleEndian, payload)
    }

    /// A reader for the frames of the connection. Its receive buffer holds
    /// `max_packet_length` bytes and must have room for a header.
    pub fn frame_reader(max_packet_length: usize) -> (r: FrameReader)
        requires
            max_packet_length >= 8,
        ensures
            r.format() == FrameFormat::U64LittleEndian,
            r.max_packet_length() == max_packet_length,
            r.awaiting_body() is None,
    {
        FrameReader::new(FrameFormat::U64LittleEndian, max_packet_length)
    }
}

} // verus!
