//! The client side: the connection to a server, sending to it, and routing
//! what it sends.
use vstd::prelude::*;

use crate::channel::{send_on_channel, StopLog};
use crate::network_message::{ClientMessage, ServerMessage};
use crate::registry::{reversed, MessageRegistry};
use crate::{ClientNetworkEvent, ConnectionId, NetworkData, NetworkError, NetworkPacket};

verus! {

/// The client's view of its server: the address of the server, the tasks
/// that read from and write to the socket, and the channel that feeds the
/// writing task.
#[verifier::reject_recursive_types(D)]
pub struct ServerConnection<D> {
    peer_addr: String,
    receive_task: tokio::task::AbortHandle,
    send_task: tokio::task::AbortHandle,
    send_message: tokio::sync::mpsc::UnboundedSender<NetworkPacket<D>>,
    sent: Ghost<Seq<NetworkPacket<D>>>,
}

/// `after` is `before` with one more packet accepted by its channel: a packet
/// of kind `kind` that carries `data`; nothing else differs.
pub open spec fn sent_one_to_server<D>(
    before: ServerConnection<D>,
    after: ServerConnection<D>,
    kind: Seq<char>,
    data: D,
) -> bool {
    &&& after.spec_peer_addr() == before.spec_peer_addr()
    &&& after.spec_receive_task() == before.spec_receive_task()
    &&& after.spec_send_task() == before.spec_send_task()
    &&& after.spec_sender() == before.spec_sender()
    &&& after.sent().len() == before.sent().len() + 1
    &&& after.sent().drop_last() == before.sent()
    &&& after.sent().last().kind@ == kind
    &&& after.sent().last().data == data
}

impl<D> ServerConnection<D> {
    /// The address of the server, as text.
    pub closed spec fn spec_peer_addr(&self) -> Seq<char> {
        self.peer_addr@
    }

    /// The handle of the task that reads from the socket.
    pub closed spec fn spec_receive_task(&self) -> tokio::task::AbortHandle {
        self.receive_task
    }

    /// The handle of the task that writes to the socket.
    pub closed spec fn spec_send_task(&self) -> tokio::task::AbortHandle {
        self.send_task
    }

    /// The channel that feeds the writing task.
    pub closed spec fn spec_sender(&self) -> tokio::sync::mpsc::UnboundedSender<NetworkPacket<D>> {
        self.send_message
    }

    /// The packets that the channel has accepted through this value, oldest
    /// first.
    pub closed spec fn sent(&self) -> Seq<NetworkPacket<D>> {
        self.sent@
    }

    /// Bundles the parts of an established connection to the server at
    /// `peer_addr`.
    pub fn new(
        peer_addr: String,
        receive_task: tokio::task::AbortHandle,
        send_task: tokio::task::AbortHandle,
        send_message: tokio::sync::mpsc::UnboundedSender<NetworkPacket<D>>,
    ) -> (r: Self)
        ensures
            r.spec_peer_addr() == peer_addr@,
            r.spec_receive_task() == receive_task,
            r.spec_send_task() == send_task,
            r.spec_sender() == send_message,
            r.sent() == Seq::<NetworkPacket<D>>::empty(),
    {
        ServerConnection { peer_addr, receive_task, send_task, send_message, sent: Ghost(Seq::empty()) }
    }

    /// The address of the server, as text.
    pub fn peer_addr(&self) -> (r: &str)
        ensures
            r@ == self.spec_peer_addr(),
    {
        self.peer_addr.as_str()
    }

    /// Hands a packet to the writing task's channel. `true` when the channel
    /// accepted it; `false`, with nothing changed, when that task's end of the
    /// channel is closed.
    pub fn send(&mut self, packet: NetworkPacket<D>) -> (r: bool)
        ensures
            r ==> sent_one_to_server(*old(self), *final(self), packet.kind@, packet.data)
                && final(self).sent().last() == packet,
            !r ==> *final(self) == *old(self),
    {
        let ghost p = packet;
        let accepted = send_on_channel(&self.send_message, packet);
        if accepted {
            proof {
                self.sent@ = self.sent@.push(p);
                assert(self.sent@.drop_last() =~= old(self).sent@);
            }
        }
        accepted
    }

    /// Stops both tasks of the connection.
    pub fn stop(self) {
        let mut log = StopLog::new();
        self.stop_into(&mut log);
    }

    /// Stops both tasks of the connection, the reading task first, and
    /// records them in `log`.
    pub fn stop_into(self, log: &mut StopLog)
        ensures
            final(log).stopped() == old(log).stopped().push(self.spec_receive_task()).push(
                self.spec_send_task(),
            ),
    {
        log.stop(&self.receive_task);
        log.stop(&self.send_task);
    }
}

/// A client: it holds at most one connection to a server, sends to it, and
/// queues what the server sends by message kind.
///
/// `D` is the type of the message data that travels in packets.
#[verifier::reject_recursive_types(D)]
pub struct NetworkClient<D> {
    server_connection: Option<ServerConnection<D>>,
    recv_message_map: MessageRegistry<D>,
    stopped: StopLog,
}

impl<D> NetworkClient<D> {
    /// The connection to the server, if one is established.
    pub closed spec fn connection(&self) -> Option<ServerConnection<D>> {
        self.server_connection
    }

    /// The tasks of connections that this client has stopped, oldest first.
    pub closed spec fn stopped_tasks(&self) -> Seq<tokio::task::AbortHandle> {
        self.stopped.stopped()
    }

    /// Whether a connection to a server is established.
    pub open spec fn spec_is_connected(&self) -> bool {
        self.connection() is Some
    }

    /// The message kinds listened for, each with the messages received and not
    /// yet handed out, oldest first.
    pub closed spec fn messages(&self) -> Map<Seq<char>, Seq<D>> {
        self.recv_message_map.view()
    }

    /// A client that is not connected and listens for no message kind.
    pub fn new() -> (r: Self)
        ensures
            !r.spec_is_connected(),
            r.messages() == Map::<Seq<char>, Seq<D>>::empty(),
            r.stopped_tasks() == Seq::<tokio::task::AbortHandle>::empty(),
    {
        NetworkClient {
            server_connection: None,
            recv_message_map: MessageRegistry::new(),
            stopped: StopLog::new(),
        }
    }

    /// Returns true if the client has an established connection.
    ///
    /// This may return true even if the connection has already been broken on
    /// the server side.
    pub fn is_connected(&self) -> (r: bool)
        ensures
            r == self.spec_is_connected(),
    {
        self.server_connection.is_some()
    }

    /// Disconnect from the server.
    ///
    /// When connected, the connection's tasks are stopped and a `Disconnected`
    /// event comes back, to be reported. When not connected, nothing happens
    /// and nothing comes back, so the operation is idempotent.
    pub fn disconnect<E>(&mut self) -> (r: Option<ClientNetworkEvent<E>>)
        ensures
            !final(self).spec_is_connected(),
            final(self).messages() == old(self).messages(),
            old(self).spec_is_connected() ==> (r matches Some(ClientNetworkEvent::Disconnected)),
            !old(self).spec_is_connected() ==> r is None,
            old(self).connection() matches Some(c) ==> final(self).stopped_tasks()
                == old(self).stopped_tasks().push(c.spec_receive_task()).push(c.spec_send_task()),
            !old(self).spec_is_connected() ==> final(self).stopped_tasks() == old(
                self,
            ).stopped_tasks(),
    {
        match self.server_connection.take() {
            Some(conn) => {
                conn.stop_into(&mut self.stopped);
                Some(ClientNetworkEvent::Disconnected)
            },
            None => None,
        }
    }

    /// Prepares a connection to a remote server: any existing connection is
    /// closed first (see [`NetworkClient::disconnect`], whose event comes
    /// back). The connection itself is then made in the background and handed
    /// in through [`NetworkClient::handle_connection_event`].
    pub fn connect<E>(&mut self) -> (r: Option<ClientNetworkEvent<E>>)
        ensures
            !final(self).spec_is_connected(),
            final(self).messages() == old(self).messages(),
            old(self).spec_is_connected() ==> (r matches Some(ClientNetworkEvent::Disconnected)),
            !old(self).spec_is_connected() ==> r is None,
            old(self).connection() matches Some(c) ==> final(self).stopped_tasks()
                == old(self).stopped_tasks().push(c.spec_receive_task()).push(c.spec_send_task()),
            !old(self).spec_is_connected() ==> final(self).stopped_tasks() == old(
                self,
            ).stopped_tasks(),
    {
        self.disconnect()
    }

    /// Takes in a freshly established connection and reports it with a
    /// `Connected` event. A connection held before is replaced (and dropped,
    /// without stopping its tasks).
    pub fn handle_connection_event<E>(&mut self, connection: ServerConnection<D>) -> (r:
        ClientNetworkEvent<E>)
        ensures
            final(self).connection() == Some(connection),
            final(self).messages() == old(self).messages(),
            r matches ClientNetworkEvent::Connected,
    {
        self.server_connection = Some(connection);
        ClientNetworkEvent::Connected
    }

    /// Send a message to the connected server: a packet of kind `T::NAME`
    /// that carries `message` is handed to the channel of the connection's
    /// writing task.
    ///
    /// Fails with `NotConnected`, and changes nothing, when no connection is
    /// established, and also when the writing task has closed its channel.
    /// On success the connection records the packet.
    pub fn send_message<T: ServerMessage, E>(&mut self, message: D) -> (r: Result<
        (),
        NetworkError<E>,
    >)
        ensures
            !old(self).spec_is_connected() ==> (r matches Err(NetworkError::NotConnected)),
            r is Ok || (r matches Err(NetworkError::NotConnected)),
            r is Ok ==> {
                &&& old(self).connection() is Some
                &&& final(self).connection() is Some
                &&& sent_one_to_server(
                    old(self).connection()->0,
                    final(self).connection()->0,
                    T::NAME@,
                    message,
                )
            },
            r is Err ==> final(self).connection() == old(self).connection(),
            final(self).messages() == old(self).messages(),
    {
        let packet = NetworkPacket::new(T::NAME, message);
        match &mut self.server_connection {
            Some(server_connection) => {
                if server_connection.send(packet) {
                    Ok(())
                } else {
                    Err(NetworkError::NotConnected)
                }
            },
            None => Err(NetworkError::NotConnected),
        }
    }

    /// The address of the server, when connected.
    pub fn peer_addr(&self) -> (r: Option<&str>)
        ensures
            match self.connection() {
                Some(c) => r matches Some(a) && a@ == c.spec_peer_addr(),
                None => r is None,
            },
    {
        match &self.server_connection {
            Some(c) => Some(c.peer_addr()),
            None => None,
        }
    }

    /// Whether messages of kind `T::NAME` are listened for.
    pub fn listens_for<T: ClientMessage>(&self) -> (r: bool)
        ensures
            r == self.messages().contains_key(T::NAME@),
    {
        self.recv_message_map.contains_kind(T::NAME)
    }

    /// Register a message type: from now on, received messages of kind
    /// `T::NAME` are queued. A kind may be registered only once.
    pub fn listen_for_client_message<T: ClientMessage>(&mut self)
        requires
            !old(self).messages().contains_key(T::NAME@),
        ensures
            final(self).messages() == old(self).messages().insert(T::NAME@, Seq::<D>::empty()),
            final(self).connection() == old(self).connection(),
    {
        self.recv_message_map.register(T::NAME);
    }

    /// Routes a packet that arrived from the server: when its kind is listened
    /// for, its data is queued and `true` comes back; otherwise it is dropped.
    pub fn receive_packet(&mut self, packet: NetworkPacket<D>) -> (r: bool)
        ensures
            r == old(self).messages().contains_key(packet.kind@),
            r ==> final(self).messages() == old(self).messages().insert(
                packet.kind@,
                old(self).messages()[packet.kind@].push(packet.data),
            ),
            !r ==> final(self).messages() == old(self).messages(),
            final(self).connection() == old(self).connection(),
    {
        let NetworkPacket { kind, data } = packet;
        self.recv_message_map.deliver(kind.as_str(), data)
    }

    /// Hands out the queued messages of kind `T::NAME`, oldest first, each
    /// marked as coming from the server, and empties that queue. Nothing
    /// comes back when the kind is not listened for.
    pub fn register_client_message<T: ClientMessage>(&mut self) -> (r: Vec<NetworkData<D>>)
        ensures
            final(self).connection() == old(self).connection(),
            old(self).messages().contains_key(T::NAME@) ==> {
                &&& final(self).messages() == old(self).messages().insert(
                    T::NAME@,
                    Seq::<D>::empty(),
                )
                &&& r@.len() == old(self).messages()[T::NAME@].len()
                &&& forall|i: int|
                    0 <= i < r@.len() ==> (#[trigger] r@[i]).spec_source()@ == 0 && r@[i].spec_inner()
                        == old(self).messages()[T::NAME@][i]
            },
            !old(self).messages().contains_key(T::NAME@) ==> {
                &&& final(self).messages() == old(self).messages()
                &&& r@.len() == 0
            },
    {
        let queued = self.recv_message_map.drain(T::NAME);
        let ghost all = queued@;
        let mut r: Vec<NetworkData<D>> = Vec::new();
        let mut pending = reversed(queued);
        assert(pending@.reverse() =~= all);
        while pending.len() > 0
            invariant
                all == all.take(r@.len() as int) + pending@.reverse(),
                r@.len() <= all.len(),
                forall|i: int|
                    0 <= i < r@.len() ==> (#[trigger] r@[i]).spec_source()@ == 0 && r@[i].spec_inner()
                        == all[i],
            decreases pending@.len(),
        {
            let ghost k = r@.len() as int;
            let data = pending.pop().unwrap();
            proof {
                assert(all =~= all.take(k) + seq![data] + pending@.reverse());
                assert(all[k] == data);
            }
            r.push(NetworkData::new(ConnectionId::server(), data));
            proof {
                assert(all =~= all.take(k + 1) + pending@.reverse());
            }
        }
        r
    }
}

} // verus!
