use bevy_spicy_networking::framing::{FrameError, FrameFormat};
use bevy_spicy_networking::provider::{
    accept_step, connect_step, receive_step, send_step, AcceptAction, AcceptEvent, ConnectAction,
    ConnectEvent, LoopControl, ReceiveEvent, SendEvent,
};
use bevy_spicy_networking::{
    NetworkError, TcpClientProvider, TcpServerProvider, TokioTcpStreamClientProvider,
    TokioTcpStreamServerProvider,
};

#[test]
fn tokio_providers_use_big_endian_u32() {
    assert_eq!(TokioTcpStreamServerProvider::frame_format(), FrameFormat::U32BigEndian);
    assert_eq!(TokioTcpStreamClientProvider::frame_format(), FrameFormat::U32BigEndian);
    assert_eq!(TokioTcpStreamServerProvider::encode_frame(b"x"), vec![0, 0, 0, 1, b'x']);
    assert_eq!(TokioTcpStreamClientProvider::encode_frame(b""), vec![0, 0, 0, 0]);
}

#[test]
fn mio_providers_use_little_endian_u64() {
    assert_eq!(TcpServerProvider::frame_format(), FrameFormat::U64LittleEndian);
    assert_eq!(TcpClientProvider::frame_format(), FrameFormat::U64LittleEndian);
    assert_eq!(TcpServerProvider::encode_frame(b"x"), vec![1, 0, 0, 0, 0, 0, 0, 0, b'x']);
    assert_eq!(TcpClientProvider::encode_frame(b"xy")[0], 2);
}

#[test]
fn provider_readers_round_trip() {
    let frame = TcpClientProvider::encode_frame(b"abc");
    let mut reader = TcpClientProvider::frame_reader(16);
    assert_eq!(reader.feed(&frame[..8]), Ok(None));
    assert_eq!(reader.feed(&frame[8..]), Ok(Some(b"abc".to_vec())));
    let frame = TokioTcpStreamServerProvider::encode_frame(b"abc");
    let mut reader = TokioTcpStreamServerProvider::frame_reader(2);
    assert_eq!(reader.feed(&frame[..4]), Err(FrameError::TooLarge { length: 3, max: 2 }));
}

#[test]
fn accept_loop_decisions() {
    assert!(matches!(
        accept_step(AcceptEvent::ListenFailed("bind")),
        AcceptAction::ReportAndStop(NetworkError::Listen("bind"))
    ));
    assert!(matches!(
        accept_step(AcceptEvent::AcceptFailed("accept")),
        AcceptAction::ReportAndContinue(NetworkError::Accept("accept"))
    ));
    assert!(matches!(accept_step::<()>(AcceptEvent::Accepted), AcceptAction::HandOff));
    assert!(matches!(accept_step::<()>(AcceptEvent::HandedOff), AcceptAction::AcceptNext));
    assert!(matches!(accept_step::<()>(AcceptEvent::HandOffFailed), AcceptAction::Stop));
}

#[test]
fn connect_task_decisions() {
    assert!(matches!(
        connect_step(ConnectEvent::ConnectFailed(7)),
        ConnectAction::ReportAndStop(NetworkError::Connection(7))
    ));
    assert!(matches!(connect_step::<u8>(ConnectEvent::Connected), ConnectAction::HandOff));
}

#[test]
fn receive_loop_goes_on_only_after_delivery() {
    assert_eq!(receive_step(ReceiveEvent::Delivered), LoopControl::Continue);
    assert_eq!(receive_step(ReceiveEvent::ReadFailed), LoopControl::Stop);
    assert_eq!(
        receive_step(ReceiveEvent::Refused(FrameError::TooLarge { length: 9, max: 8 })),
        LoopControl::Stop
    );
    assert_eq!(receive_step(ReceiveEvent::DecodeFailed), LoopControl::Stop);
    assert_eq!(receive_step(ReceiveEvent::DeliveryFailed), LoopControl::Stop);
}

#[test]
fn send_loop_skips_unencodable_and_stops_on_write_error() {
    assert_eq!(send_step(SendEvent::EncodeFailed), LoopControl::Continue);
    assert_eq!(send_step(SendEvent::Written), LoopControl::Continue);
    assert_eq!(send_step(SendEvent::HeaderWriteFailed), LoopControl::Stop);
    assert_eq!(send_step(SendEvent::PayloadWriteFailed), LoopControl::Stop);
}
