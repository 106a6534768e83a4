use bevy_spicy_networking::{
    ClientConnection, ClientMessage, ConnectionId, NetworkError, NetworkMessage, NetworkPacket,
    NetworkServer, ServerMessage, ServerNetworkEvent,
};
use tokio::runtime::Runtime;
use tokio::sync::mpsc::{unbounded_channel, UnboundedReceiver};

fn fresh_id() -> ConnectionId {
    ConnectionId::from_random(bevy::utils::Uuid::new_v4().as_u128())
}

struct Chat;
impl NetworkMessage for Chat {}
impl ServerMessage for Chat {
    const NAME: &'static str = "test:Chat";
}
impl ClientMessage for Chat {
    const NAME: &'static str = "test:Chat";
}

struct Move;
impl NetworkMessage for Move {}
impl ServerMessage for Move {
    const NAME: &'static str = "test:Move";
}

fn runtime() -> Runtime {
    tokio::runtime::Builder::new_current_thread().build().unwrap()
}

fn connection(
    rt: &Runtime,
    id: ConnectionId,
) -> (ClientConnection<u32>, UnboundedReceiver<NetworkPacket<u32>>) {
    let (tx, rx) = unbounded_channel();
    let receive = rt.spawn(async {}).abort_handle();
    let send = rt.spawn(async {}).abort_handle();
    (ClientConnection::new(id, receive, send, tx), rx)
}

fn listener(rt: &Runtime) -> tokio::task::AbortHandle {
    rt.spawn(async {}).abort_handle()
}

#[test]
fn new_server_is_idle() {
    let server: NetworkServer<u32> = NetworkServer::new();
    assert_eq!(server.connection_count(), 0);
    assert!(!server.listens_for::<Chat>());
}

#[test]
fn incoming_connections_are_reported_in_order() {
    let rt = runtime();
    let mut server: NetworkServer<u32> = NetworkServer::new();
    assert!(matches!(server.listen::<()>(listener(&rt)), Ok(None)));
    let a = fresh_id();
    let b = fresh_id();
    let (ca, _ra) = connection(&rt, a);
    let (cb, _rb) = connection(&rt, b);
    let events = server.handle_new_incoming_connections::<()>(vec![ca, cb], vec![a]);
    assert_eq!(events.len(), 3);
    assert!(matches!(events[0], ServerNetworkEvent::Connected(x) if x == a));
    assert!(matches!(events[1], ServerNetworkEvent::Connected(x) if x == b));
    assert!(matches!(events[2], ServerNetworkEvent::Disconnected(x) if x == a));
    assert!(!server.is_connected(a));
    assert!(server.is_connected(b));
    assert_eq!(server.connection_count(), 1);
}

#[test]
fn lost_unknown_connection_is_still_reported() {
    let mut server: NetworkServer<u32> = NetworkServer::new();
    let gone = fresh_id();
    let events = server.handle_new_incoming_connections::<()>(vec![], vec![gone]);
    assert_eq!(events.len(), 1);
    assert!(matches!(events[0], ServerNetworkEvent::Disconnected(x) if x == gone));
}

#[test]
fn send_message_reaches_the_connection() {
    let rt = runtime();
    let mut server: NetworkServer<u32> = NetworkServer::new();
    let a = fresh_id();
    let (ca, mut ra) = connection(&rt, a);
    server.add_connection(ca);
    assert!(server.send_message::<Chat, ()>(a, 42).is_ok());
    let packet = ra.try_recv().unwrap();
    assert_eq!(packet.kind, "test:Chat");
    assert_eq!(packet.data, 42);
}

#[test]
fn send_message_to_unknown_client_is_not_found() {
    let mut server: NetworkServer<u32> = NetworkServer::new();
    let a = fresh_id();
    assert!(matches!(
        server.send_message::<Chat, ()>(a, 1),
        Err(NetworkError::ConnectionNotFound(x)) if x == a
    ));
}

#[test]
fn send_message_on_closed_channel_is_channel_closed() {
    let rt = runtime();
    let mut server: NetworkServer<u32> = NetworkServer::new();
    let a = fresh_id();
    let (ca, ra) = connection(&rt, a);
    drop(ra);
    server.add_connection(ca);
    assert!(matches!(
        server.send_message::<Chat, ()>(a, 1),
        Err(NetworkError::ChannelClosed(x)) if x == a
    ));
}

#[test]
fn disconnect_then_send_is_not_found() {
    let rt = runtime();
    let mut server: NetworkServer<u32> = NetworkServer::new();
    let a = fresh_id();
    let (ca, _ra) = connection(&rt, a);
    server.add_connection(ca);
    assert!(server.disconnect::<()>(a).is_ok());
    assert!(!server.is_connected(a));
    assert!(matches!(
        server.send_message::<Chat, ()>(a, 1),
        Err(NetworkError::ConnectionNotFound(x)) if x == a
    ));
    assert!(matches!(
        server.disconnect::<()>(a),
        Err(NetworkError::ConnectionNotFound(x)) if x == a
    ));
}

#[test]
fn broadcast_reaches_every_connection() {
    let rt = runtime();
    let mut server: NetworkServer<u32> = NetworkServer::new();
    let (ca, mut ra) = connection(&rt, fresh_id());
    let (cb, mut rb) = connection(&rt, fresh_id());
    let closed_id = fresh_id();
    let (cc, rc) = connection(&rt, closed_id);
    drop(rc);
    server.add_connection(ca);
    server.add_connection(cb);
    server.add_connection(cc);
    let failed = server.broadcast::<Chat, _>(|| 7);
    assert_eq!(failed, vec![closed_id]);
    assert_eq!(ra.try_recv().unwrap().data, 7);
    assert_eq!(rb.try_recv().unwrap().data, 7);
    assert!(ra.try_recv().is_err());
}

#[test]
fn stop_is_idempotent_and_reports_every_connection() {
    let rt = runtime();
    let mut server: NetworkServer<u32> = NetworkServer::new();
    assert!(server.stop().is_none());
    server.listen::<()>(listener(&rt)).unwrap();
    server.listen_for_server_message::<Chat>();
    let a = fresh_id();
    let b = fresh_id();
    let (ca, _ra) = connection(&rt, a);
    let (cb, _rb) = connection(&rt, b);
    server.add_connection(ca);
    server.add_connection(cb);
    let mut ids = server.stop().unwrap();
    ids.sort_by_key(|id| id.as_u128());
    let mut expected = vec![a, b];
    expected.sort_by_key(|id| id.as_u128());
    assert_eq!(ids, expected);
    assert_eq!(server.connection_count(), 0);
    assert!(!server.listens_for::<Chat>());
    assert!(server.stop().is_none());
}

#[test]
fn listen_again_stops_first() {
    let rt = runtime();
    let mut server: NetworkServer<u32> = NetworkServer::new();
    server.listen::<()>(listener(&rt)).unwrap();
    let a = fresh_id();
    let (ca, _ra) = connection(&rt, a);
    server.add_connection(ca);
    match server.listen::<()>(listener(&rt)) {
        Ok(Some(ids)) => assert_eq!(ids, vec![a]),
        _ => panic!("expected the connections dropped by the stop"),
    }
    assert_eq!(server.connection_count(), 0);
}

#[test]
fn received_messages_are_handed_out_by_kind_in_order() {
    let mut server: NetworkServer<u32> = NetworkServer::new();
    server.listen_for_server_message::<Chat>();
    assert!(server.listens_for::<Chat>());
    assert!(!server.listens_for::<Move>());
    let a = fresh_id();
    let b = fresh_id();
    assert!(server.receive_packet(a, NetworkPacket { kind: "test:Chat".to_string(), data: 1 }));
    assert!(!server.receive_packet(a, NetworkPacket { kind: "test:Move".to_string(), data: 9 }));
    assert!(server.receive_packet(b, NetworkPacket { kind: "test:Chat".to_string(), data: 2 }));
    let got = server.register_server_message::<Chat>();
    assert_eq!(got.len(), 2);
    assert_eq!(got[0].source(), a);
    assert_eq!(*got[0], 1);
    assert_eq!(got[1].source(), b);
    assert_eq!(*got[1], 2);
    assert!(server.register_server_message::<Chat>().is_empty());
    assert!(server.register_server_message::<Move>().is_empty());
}

#[test]
fn stop_stops_the_tasks_of_every_connection() {
    let rt = runtime();
    let mut server: NetworkServer<u32> = NetworkServer::new();
    server.listen::<()>(listener(&rt)).unwrap();
    let receive = rt.spawn(std::future::pending::<()>());
    let send = rt.spawn(std::future::pending::<()>());
    let (tx, _rx) = unbounded_channel();
    let a = fresh_id();
    server.add_connection(ClientConnection::new(
        a,
        receive.abort_handle(),
        send.abort_handle(),
        tx,
    ));
    assert_eq!(server.stop().unwrap(), vec![a]);
    assert!(rt.block_on(receive).unwrap_err().is_cancelled());
    assert!(rt.block_on(send).unwrap_err().is_cancelled());
}

#[test]
fn packet_new_sets_kind_and_data() {
    let p = NetworkPacket::new("test:Chat", 3u8);
    assert_eq!(p.kind, "test:Chat");
    assert_eq!(p.data, 3);
}
