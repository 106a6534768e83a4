use bevy_spicy_networking::{
    ClientMessage, ClientNetworkEvent, NetworkClient, NetworkError, NetworkMessage, NetworkPacket,
    ServerConnection, ServerMessage,
};
use tokio::runtime::Runtime;
use tokio::sync::mpsc::{unbounded_channel, UnboundedReceiver};

struct Update;
impl NetworkMessage for Update {}
impl ClientMessage for Update {
    const NAME: &'static str = "test:Update";
}

struct Input;
impl NetworkMessage for Input {}
impl ServerMessage for Input {
    const NAME: &'static str = "test:Input";
}

fn runtime() -> Runtime {
    tokio::runtime::Builder::new_current_thread().build().unwrap()
}

fn connection(rt: &Runtime) -> (ServerConnection<u32>, UnboundedReceiver<NetworkPacket<u32>>) {
    let (tx, rx) = unbounded_channel();
    let receive = rt.spawn(async {}).abort_handle();
    let send = rt.spawn(async {}).abort_handle();
    (ServerConnection::new("127.0.0.1:9999".to_string(), receive, send, tx), rx)
}

#[test]
fn send_without_connection_is_not_connected() {
    let mut client: NetworkClient<u32> = NetworkClient::new();
    assert!(!client.is_connected());
    assert!(client.peer_addr().is_none());
    assert!(matches!(client.send_message::<Input, ()>(1), Err(NetworkError::NotConnected)));
}

#[test]
fn established_connection_is_reported_and_used() {
    let rt = runtime();
    let mut client: NetworkClient<u32> = NetworkClient::new();
    let (conn, mut rx) = connection(&rt);
    assert!(matches!(client.handle_connection_event::<()>(conn), ClientNetworkEvent::Connected));
    assert!(client.is_connected());
    assert_eq!(client.peer_addr(), Some("127.0.0.1:9999"));
    assert!(client.send_message::<Input, ()>(5).is_ok());
    let packet = rx.try_recv().unwrap();
    assert_eq!(packet.kind, "test:Input");
    assert_eq!(packet.data, 5);
}

#[test]
fn closed_channel_counts_as_not_connected() {
    let rt = runtime();
    let mut client: NetworkClient<u32> = NetworkClient::new();
    let (conn, rx) = connection(&rt);
    drop(rx);
    client.handle_connection_event::<()>(conn);
    assert!(matches!(client.send_message::<Input, ()>(5), Err(NetworkError::NotConnected)));
}

#[test]
fn disconnect_is_idempotent() {
    let rt = runtime();
    let mut client: NetworkClient<u32> = NetworkClient::new();
    assert!(client.disconnect::<()>().is_none());
    let (conn, _rx) = connection(&rt);
    client.handle_connection_event::<()>(conn);
    assert!(matches!(client.disconnect::<()>(), Some(ClientNetworkEvent::Disconnected)));
    assert!(!client.is_connected());
    assert!(client.disconnect::<()>().is_none());
}

#[test]
fn connect_disconnects_first() {
    let rt = runtime();
    let mut client: NetworkClient<u32> = NetworkClient::new();
    assert!(client.connect::<()>().is_none());
    let (conn, _rx) = connection(&rt);
    client.handle_connection_event::<()>(conn);
    assert!(matches!(client.connect::<()>(), Some(ClientNetworkEvent::Disconnected)));
    assert!(!client.is_connected());
}

#[test]
fn messages_come_from_the_server_in_order() {
    let mut client: NetworkClient<u32> = NetworkClient::new();
    assert!(!client.listens_for::<Update>());
    client.listen_for_client_message::<Update>();
    assert!(client.listens_for::<Update>());
    assert!(client.receive_packet(NetworkPacket { kind: "test:Update".to_string(), data: 1 }));
    assert!(!client.receive_packet(NetworkPacket { kind: "other".to_string(), data: 5 }));
    assert!(client.receive_packet(NetworkPacket { kind: "test:Update".to_string(), data: 2 }));
    let got = client.register_client_message::<Update>();
    assert_eq!(got.len(), 2);
    assert!(got[0].source().is_server());
    assert!(got[1].source().is_server());
    let values: Vec<u32> = got.into_iter().map(|d| d.into_inner()).collect();
    assert_eq!(values, vec![1, 2]);
    assert!(client.register_client_message::<Update>().is_empty());
}
