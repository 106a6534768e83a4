//! The server side: listening for clients, the table of established
//! connections, sending to clients, and routing what they send.
use vstd::prelude::*;

use crate::channel::{send_on_channel, SendLog, StopLog};
use crate::network_message::{ClientMessage, ServerMessage};
use crate::registry::{reversed, MessageRegistry};
use crate::{ConnectionId, NetworkData, NetworkError, NetworkPacket, ServerNetworkEvent};

verus! {

/// The server's view of a client: the tasks that read from and write to its
/// socket, and the channel that feeds the writing task.
#[verifier::reject_recursive_types(D)]
pub struct ClientConnection<D> {
    id: ConnectionId,
    receive_task: tokio::task::AbortHandle,
    send_task: tokio::task::AbortHandle,
    send_message: tokio::sync::mpsc::UnboundedSender<NetworkPacket<D>>,
    sent: Ghost<Seq<NetworkPacket<D>>>,
}

/// `after` is `before` with one more packet accepted by its channel: a packet
/// of kind `kind` that carries `data`; nothing else differs.
pub open spec fn sent_one_to_client<D>(
    before: ClientConnection<D>,
    after: ClientConnection<D>,
    kind: Seq<char>,
    data: D,
) -> bool {
    &&& after.spec_id() == before.spec_id()
    &&& after.spec_receive_task() == before.spec_receive_task()
    &&& after.spec_send_task() == before.spec_send_task()
    &&& after.spec_sender() == before.spec_sender()
    &&& after.sent().len() == before.sent().len() + 1
    &&& after.sent().drop_last() == before.sent()
    &&& after.sent().last().kind@ == kind
    &&& after.sent().last().data == data
}

impl<D> ClientConnection<D> {
    /// The id of the connection.
    pub closed spec fn spec_id(&self) -> ConnectionId {
        self.id
    }

    /// The handle of the task that reads from the socket.
    pub closed spec fn spec_receive_task(&self) -> tokio::task::AbortHandle {
        self.receive_task
    }

    /// The handle of the task that writes to the socket.
    pub closed spec fn spec_send_task(&self) -> tokio::task::AbortHandle {
        self.send_task
    }

    /// The channel that feeds the writing task.
    pub closed spec fn spec_sender(&self) -> tokio::sync::mpsc::UnboundedSender<NetworkPacket<D>> {
        self.send_message
    }

    /// The packets that the channel has accepted through this value, oldest
    /// first.
    pub closed spec fn sent(&self) -> Seq<NetworkPacket<D>> {
        self.sent@
    }

    /// Bundles the parts of an established connection.
    pub fn new(
        id: ConnectionId,
        receive_task: tokio::task::AbortHandle,
        send_task: tokio::task::AbortHandle,
        send_message: tokio::sync::mpsc::UnboundedSender<NetworkPacket<D>>,
    ) -> (r: Self)
        ensures
            r.spec_id() == id,
            r.spec_receive_task() == receive_task,
            r.spec_send_task() == send_task,
            r.spec_sender() == send_message,
            r.sent() == Seq::<NetworkPacket<D>>::empty(),
    {
        ClientConnection { id, receive_task, send_task, send_message, sent: Ghost(Seq::empty()) }
    }

    /// The id of the connection.
    pub fn id(&self) -> (r: ConnectionId)
        ensures
            r == self.spec_id(),
    {
        self.id
    }

    /// Hands a packet to the writing task's channel. `true` when the channel
    /// accepted it; `false`, with nothing changed, when that task's end of the
    /// channel is closed.
    pub fn send(&mut self, packet: NetworkPacket<D>) -> (r: bool)
        ensures
            r ==> sent_one_to_client(*old(self), *final(self), packet.kind@, packet.data)
                && final(self).sent().last() == packet,
            !r ==> *final(self) == *old(self),
    {
        let ghost p = packet;
        let accepted = send_on_channel(&self.send_message, packet);
        if accepted {
            proof {
                self.sent@ = self.sent@.push(p);
                assert(self.sent@.drop_last() =~= old(self).sent@);
            }
        }
        accepted
    }

    /// Hands a packet to the writing task's channel, as [`ClientConnection::send`]
    /// does, and records the hand-over and its outcome in `log`.
    pub fn send_into(&mut self, packet: NetworkPacket<D>, log: &mut SendLog) -> (r: bool)
        ensures
            r ==> sent_one_to_client(*old(self), *final(self), packet.kind@, packet.data)
                && final(self).sent().last() == packet,
            !r ==> *final(self) == *old(self),
            final(log).attempts() == old(log).attempts().push((old(self).spec_id(), r)),
    {
        let ghost p = packet;
        let accepted = log.send(self.id, &self.send_message, packet);
        if accepted {
            proof {
                self.sent@ = self.sent@.push(p);
                assert(self.sent@.drop_last() =~= old(self).sent@);
            }
        }
        accepted
    }

    /// Close the given connection to a client.
    pub fn stop(self) {
        let mut log = StopLog::new();
        self.stop_into(&mut log);
    }

    /// Stops both tasks of the connection, the reading task first, and
    /// records them in `log`.
    pub fn stop_into(self, log: &mut StopLog)
        ensures
            final(log).stopped() == old(log).stopped().push(self.spec_receive_task()).push(
                self.spec_send_task(),
            ),
    {
        log.stop(&self.receive_task);
        log.stop(&self.send_task);
    }
}

/// The established connections, each under its own id.
///
/// The table is a vector with a type invariant (no id occurs twice), not a
/// concurrent map such as `dashmap::DashMap`: the server owns it and changes it
/// through `&mut`, and the contracts speak of the connections themselves, which
/// hold task handles and a channel and are generic over the packet type; a
/// trusted name for the contents of an outside map could speak of plain,
/// non-generic values only.
#[verifier::reject_recursive_types(D)]
pub struct ConnectionTable<D> {
    connections: Vec<ClientConnection<D>>,
}

impl<D> ConnectionTable<D> {
    #[verifier::type_invariant]
    spec fn well_formed(self) -> bool {
        forall|i: int, j: int|
            0 <= i < j < self.connections@.len() ==> self.connections@[i].spec_id()
                != self.connections@[j].spec_id()
    }

    spec fn has_id_at(self, id: ConnectionId, i: int) -> bool {
        0 <= i < self.connections@.len() && self.connections@[i].spec_id() == id
    }

    /// The connections, by id.
    pub closed spec fn view(self) -> Map<ConnectionId, ClientConnection<D>> {
        Map::new(
            |id: ConnectionId| exists|i: int| self.has_id_at(id, i),
            |id: ConnectionId| self.connections@[choose|i: int| self.has_id_at(id, i)],
        )
    }

    /// The ids, in the order in which the table holds them.
    pub closed spec fn ids(self) -> Seq<ConnectionId> {
        self.connections@.map_values(|c: ClientConnection<D>| c.spec_id())
    }

    proof fn lemma_view_at(self, i: int)
        requires
            self.well_formed(),
            0 <= i < self.connections@.len(),
        ensures
            self.view().contains_key(self.connections@[i].spec_id()),
            self.view()[self.connections@[i].spec_id()] == self.connections@[i],
    {
        let id = self.connections@[i].spec_id();
        assert(self.has_id_at(id, i));
        let j = choose|j: int| self.has_id_at(id, j);
        if i != j {
            if i < j {
                assert(self.connections@[i].spec_id() != self.connections@[j].spec_id());
            } else {
                assert(self.connections@[j].spec_id() != self.connections@[i].spec_id());
            }
        }
    }

    proof fn lemma_not_in_view(self, id: ConnectionId)
        requires
            forall|i: int| 0 <= i < self.connections@.len() ==> self.connections@[i].spec_id() != id,
        ensures
            !self.view().contains_key(id),
    {
        if self.view().contains_key(id) {
            let i = choose|i: int| self.has_id_at(id, i);
        }
    }

    proof fn lemma_ids(self)
        requires
            self.well_formed(),
        ensures
            self.ids().no_duplicates(),
            self.ids().to_set() == self.view().dom(),
            self.ids().len() == self.view().dom().len(),
    {
        let ids = self.ids();
        assert forall|i: int, j: int| 0 <= i < ids.len() && 0 <= j < ids.len() && i != j implies ids[i]
            != ids[j] by {
            if i < j {
                assert(self.connections@[i].spec_id() != self.connections@[j].spec_id());
            } else {
                assert(self.connections@[j].spec_id() != self.connections@[i].spec_id());
            }
        }
        assert forall|id: ConnectionId| #[trigger] ids.to_set().contains(id) == self.view().dom().contains(
            id,
        ) by {
            if ids.to_set().contains(id) {
                let i = choose|i: int| 0 <= i < ids.len() && ids[i] == id;
                self.lemma_view_at(i);
            }
            if self.view().contains_key(id) {
                let i = choose|i: int| self.has_id_at(id, i);
                assert(ids[i] == id);
            }
        }
        assert(ids.to_set() =~= self.view().dom());
        ids.unique_seq_to_set();
    }

    /// An empty table.
    pub fn new() -> (r: Self)
        ensures
            r.view() == Map::<ConnectionId, ClientConnection<D>>::empty(),
    {
        let r = ConnectionTable { connections: Vec::new() };
        assert(r.view() =~= Map::<ConnectionId, ClientConnection<D>>::empty());
        r
    }

    fn position(&self, id: ConnectionId) -> (r: Option<usize>)
        ensures
            match r {
                Some(i) => self.has_id_at(id, i as int),
                None => forall|i: int|
                    0 <= i < self.connections@.len() ==> self.connections@[i].spec_id() != id,
            },
    {
        let mut i: usize = 0;
        while i < self.connections.len()
            invariant
                i <= self.connections@.len(),
                forall|j: int| 0 <= j < i ==> self.connections@[j].spec_id() != id,
            decreases self.connections@.len() - i,
        {
            if self.connections[i].id() == id {
                return Some(i);
            }
            i = i + 1;
        }
        None
    }

    /// The number of connections.
    pub fn len(&self) -> (r: usize)
        ensures
            r == self.view().dom().len(),
    {
        proof {
            use_type_invariant(self);
            self.lemma_ids();
        }
        self.connections.len()
    }

    /// Whether a connection with this id is established.
    pub fn contains(&self, id: ConnectionId) -> (r: bool)
        ensures
            r == self.view().contains_key(id),
    {
        proof {
            use_type_invariant(self);
        }
        match self.position(id) {
            Some(i) => {
                proof {
                    self.lemma_view_at(i as int);
                }
                true
            },
            None => {
                proof {
                    self.lemma_not_in_view(id);
                }
                false
            },
        }
    }

    /// The connection with this id, if there is one.
    pub fn get(&self, id: ConnectionId) -> (r: Option<&ClientConnection<D>>)
        ensures
            match r {
                Some(c) => self.view().contains_key(id) && *c == self.view()[id],
                None => !self.view().contains_key(id),
            },
    {
        proof {
            use_type_invariant(self);
        }
        match self.position(id) {
            Some(i) => {
                proof {
                    self.lemma_view_at(i as int);
                }
                Some(&self.connections[i])
            },
            None => {
                proof {
                    self.lemma_not_in_view(id);
                }
                None
            },
        }
    }

    /// The ids of all connections, in table order, each once.
    pub fn id_list(&self) -> (r: Vec<ConnectionId>)
        ensures
            r@ == self.ids(),
            r@.no_duplicates(),
            r@.to_set() == self.view().dom(),
    {
        proof {
            use_type_invariant(self);
            self.lemma_ids();
        }
        let mut r: Vec<ConnectionId> = Vec::new();
        let mut i: usize = 0;
        while i < self.connections.len()
            invariant
                i <= self.connections@.len(),
                r@ == self.ids().take(i as int),
            decreases self.connections@.len() - i,
        {
            r.push(self.connections[i].id());
            i = i + 1;
            assert(r@ =~= self.ids().take(i as int));
        }
        assert(self.ids().take(i as int) =~= self.ids());
        r
    }

    /// Puts a connection under its id, in place of any connection that had
    /// the same id.
    pub fn insert(&mut self, connection: ClientConnection<D>)
        ensures
            final(self).view() == old(self).view().insert(connection.spec_id(), connection),
    {
        proof {
            use_type_invariant(&*self);
        }
        let ghost old_self = *self;
        let ghost id = connection.spec_id();
        let pos = self.position(connection.id());
        let mut taken = ConnectionTable { connections: Vec::new() };
        std::mem::swap(&mut taken, self);
        let ConnectionTable { mut connections } = taken;
        match pos {
            Some(i) => {
                connections.set(i, connection);
                assert forall|a: int, b: int| 0 <= a < b < connections@.len() implies connections@[a].spec_id()
                    != connections@[b].spec_id() by {
                    if a != i && b != i {
                        assert(old_self.connections@[a].spec_id() != old_self.connections@[b].spec_id());
                    } else if a == i {
                        assert(old_self.connections@[a].spec_id() != old_self.connections@[b].spec_id());
                    } else {
                        assert(old_self.connections@[a].spec_id() != old_self.connections@[b].spec_id());
                    }
                }
            },
            None => {
                connections.push(connection);
            },
        }
        *self = ConnectionTable { connections };
        proof {
            let new_view = self.view();
            let expected = old_self.view().insert(id, connection);
            assert forall|k: ConnectionId| #[trigger]
                new_view.contains_key(k) == expected.contains_key(k) by {
                if new_view.contains_key(k) {
                    let j = choose|j: int| self.has_id_at(k, j);
                    if k != id {
                        assert(j < old_self.connections@.len());
                        assert(old_self.connections@[j] == self.connections@[j]);
                        old_self.lemma_view_at(j);
                    }
                }
                if old_self.view().contains_key(k) {
                    let j = choose|j: int| old_self.has_id_at(k, j);
                    if k != id {
                        assert(self.connections@[j] == old_self.connections@[j]);
                        assert(self.has_id_at(k, j));
                    }
                }
                if k == id {
                    match pos {
                        Some(i) => assert(self.has_id_at(k, i as int)),
                        None => assert(self.has_id_at(k, old_self.connections@.len() as int)),
                    }
                }
            }
            assert forall|k: ConnectionId| #[trigger] new_view.contains_key(k) implies new_view[k]
                == expected[k] by {
                let j = choose|j: int| self.has_id_at(k, j);
                self.lemma_view_at(j);
                if k != id {
                    assert(old_self.connections@[j] == self.connections@[j]);
                    old_self.lemma_view_at(j);
                }
            }
            assert(new_view =~= expected);
        }
    }

    /// Every connection of the table is stored under its own id.
    pub proof fn lemma_keyed(self)
        ensures
            forall|k: ConnectionId| #[trigger]
                self.view().contains_key(k) ==> self.view()[k].spec_id() == k,
    {
        assert forall|k: ConnectionId| #[trigger] self.view().contains_key(k) implies self.view()[k].spec_id()
            == k by {
            let i = choose|i: int| self.has_id_at(k, i);
            assert(self.has_id_at(k, i));
        }
    }

    proof fn lemma_view_update(old_table: Self, new_table: Self, i: int)
        requires
            old_table.well_formed(),
            new_table.well_formed(),
            0 <= i < old_table.connections@.len(),
            new_table.connections@ == old_table.connections@.update(i, new_table.connections@[i]),
            new_table.connections@[i].spec_id() == old_table.connections@[i].spec_id(),
        ensures
            new_table.view() == old_table.view().insert(
                old_table.connections@[i].spec_id(),
                new_table.connections@[i],
            ),
            new_table.ids() == old_table.ids(),
    {
        let id = old_table.connections@[i].spec_id();
        let new_view = new_table.view();
        let expected = old_table.view().insert(id, new_table.connections@[i]);
        assert forall|k: ConnectionId| #[trigger]
            new_view.contains_key(k) == expected.contains_key(k) by {
            if new_view.contains_key(k) {
                let j = choose|j: int| new_table.has_id_at(k, j);
                if j != i {
                    assert(old_table.has_id_at(k, j));
                    old_table.lemma_view_at(j);
                }
            }
            if old_table.view().contains_key(k) {
                let j = choose|j: int| old_table.has_id_at(k, j);
                assert(new_table.has_id_at(k, j));
            }
            if k == id {
                assert(new_table.has_id_at(k, i));
            }
        }
        assert forall|k: ConnectionId| #[trigger] new_view.contains_key(k) implies new_view[k]
            == expected[k] by {
            let j = choose|j: int| new_table.has_id_at(k, j);
            new_table.lemma_view_at(j);
            if k != id {
                assert(j != i);
                assert(old_table.connections@[j] == new_table.connections@[j]);
                old_table.lemma_view_at(j);
            } else {
                new_table.lemma_view_at(i);
            }
        }
        assert(new_view =~= expected);
        assert(new_table.ids() =~= old_table.ids());
    }

    /// Hands `packet` to the channel of the connection with this id. `None`
    /// when no such connection is established; otherwise whether the channel
    /// accepted it, the connection recording an accepted packet.
    pub fn send_to(&mut self, id: ConnectionId, packet: NetworkPacket<D>, log: &mut SendLog) -> (r:
        Option<bool>)
        ensures
            r is None <==> !old(self).view().contains_key(id),
            r is None ==> final(log).attempts() == old(log).attempts(),
            r matches Some(accepted) ==> final(log).attempts() == old(log).attempts().push(
                (id, accepted),
            ),
            final(self).ids() == old(self).ids(),
            r is None ==> final(self).view() == old(self).view(),
            r == Some(false) ==> final(self).view() == old(self).view(),
            r == Some(true) ==> {
                &&& final(self).view() == old(self).view().insert(id, final(self).view()[id])
                &&& sent_one_to_client(
                    old(self).view()[id],
                    final(self).view()[id],
                    packet.kind@,
                    packet.data,
                )
                &&& final(self).view()[id].sent().last() == packet
            },
    {
        proof {
            use_type_invariant(&*self);
        }
        let ghost old_self = *self;
        match self.position(id) {
            None => {
                proof {
                    old_self.lemma_not_in_view(id);
                }
                None
            },
            Some(i) => {
                proof {
                    old_self.lemma_view_at(i as int);
                }
                let mut taken = ConnectionTable { connections: Vec::new() };
                std::mem::swap(&mut taken, self);
                let ConnectionTable { mut connections } = taken;
                let accepted = connections[i].send_into(packet, log);
                proof {
                    assert(connections@ == old_self.connections@.update(i as int, connections@[i as int]));
                    assert forall|a: int, b: int| 0 <= a < b < connections@.len() implies connections@[a].spec_id()
                        != connections@[b].spec_id() by {
                        assert(old_self.connections@[a].spec_id() != old_self.connections@[b].spec_id());
                    }
                }
                *self = ConnectionTable { connections };
                proof {
                    ConnectionTable::lemma_view_update(old_self, *self, i as int);
                    self.lemma_view_at(i as int);
                    if !accepted {
                        assert(self.connections@[i as int] == old_self.connections@[i as int]);
                        assert(old_self.view().insert(id, old_self.connections@[i as int]) =~= old_self.view());
                    }
                }
                Some(accepted)
            },
        }
    }

    /// Takes the connection with this id out of the table.
    pub fn remove(&mut self, id: ConnectionId) -> (r: Option<ClientConnection<D>>)
        ensures
            final(self).view() == old(self).view().remove(id),
            match r {
                Some(c) => old(self).view().contains_key(id) && c == old(self).view()[id],
                None => !old(self).view().contains_key(id) && final(self).ids() == old(self).ids(),
            },
    {
        proof {
            use_type_invariant(&*self);
        }
        let ghost old_self = *self;
        match self.position(id) {
            None => {
                proof {
                    old_self.lemma_not_in_view(id);
                    assert(old_self.view().remove(id) =~= old_self.view());
                }
                None
            },
            Some(i) => {
                proof {
                    old_self.lemma_view_at(i as int);
                }
                let mut taken = ConnectionTable { connections: Vec::new() };
                std::mem::swap(&mut taken, self);
                let ConnectionTable { mut connections } = taken;
                let c = connections.remove(i);
                assert forall|a: int, b: int| 0 <= a < b < connections@.len() implies connections@[a].spec_id()
                    != connections@[b].spec_id() by {
                    let a0 = if a < i { a } else { a + 1 };
                    let b0 = if b < i { b } else { b + 1 };
                    assert(connections@[a] == old_self.connections@[a0]);
                    assert(connections@[b] == old_self.connections@[b0]);
                    assert(old_self.connections@[a0].spec_id() != old_self.connections@[b0].spec_id());
                }
                *self = ConnectionTable { connections };
                proof {
                    let new_view = self.view();
                    let expected = old_self.view().remove(id);
                    assert forall|k: ConnectionId| #[trigger]
                        new_view.contains_key(k) == expected.contains_key(k) by {
                        if new_view.contains_key(k) {
                            let j = choose|j: int| self.has_id_at(k, j);
                            let j0 = if j < i { j } else { j + 1 };
                            assert(self.connections@[j] == old_self.connections@[j0]);
                            old_self.lemma_view_at(j0);
                            if k == id {
                                if j0 < i {
                                    assert(old_self.connections@[j0].spec_id()
                                        != old_self.connections@[i as int].spec_id());
                                } else {
                                    assert(old_self.connections@[i as int].spec_id()
                                        != old_self.connections@[j0].spec_id());
                                }
                            }
                        }
                        if expected.contains_key(k) {
                            let j0 = choose|j: int| old_self.has_id_at(k, j);
                            assert(j0 != i);
                            let j = if j0 < i { j0 } else { j0 - 1 };
                            assert(self.connections@[j] == old_self.connections@[j0]);
                            assert(self.has_id_at(k, j));
                        }
                    }
                    assert forall|k: ConnectionId| #[trigger] new_view.contains_key(k) implies new_view[k]
                        == expected[k] by {
                        let j = choose|j: int| self.has_id_at(k, j);
                        self.lemma_view_at(j);
                        let j0 = if j < i { j } else { j + 1 };
                        assert(self.connections@[j] == old_self.connections@[j0]);
                        old_self.lemma_view_at(j0);
                    }
                    assert(new_view =~= expected);
                }
                Some(c)
            },
        }
    }

    /// Empties the table, handing back every connection in table order.
    pub fn take_all(&mut self) -> (r: Vec<ClientConnection<D>>)
        ensures
            final(self).view() == Map::<ConnectionId, ClientConnection<D>>::empty(),
            r@.map_values(|c: ClientConnection<D>| c.spec_id()) == old(self).ids(),
            old(self).ids().no_duplicates(),
            old(self).ids().to_set() == old(self).view().dom(),
            forall|i: int|
                0 <= i < r@.len() ==> old(self).view().contains_key((#[trigger] r@[i]).spec_id())
                    && old(self).view()[r@[i].spec_id()] == r@[i],
    {
        proof {
            use_type_invariant(&*self);
            self.lemma_ids();
            assert forall|i: int|
                0 <= i < self.connections@.len() implies old(self).view().contains_key(
                (#[trigger] self.connections@[i]).spec_id(),
            ) && old(self).view()[self.connections@[i].spec_id()] == self.connections@[i] by {
                self.lemma_view_at(i);
            }
        }
        let mut taken = ConnectionTable { connections: Vec::new() };
        std::mem::swap(&mut taken, self);
        let ConnectionTable { connections } = taken;
        assert(self.view() =~= Map::<ConnectionId, ClientConnection<D>>::empty());
        connections
    }
}

/// A server: it listens for new clients, keeps the table of established
/// connections, sends to clients, and queues what they send by message kind.
///
/// `D` is the type of the message data that travels in packets.
#[verifier::reject_recursive_types(D)]
pub struct NetworkServer<D> {
    recv_message_map: MessageRegistry<(ConnectionId, D)>,
    established_connections: ConnectionTable<D>,
    server_handle: Option<tokio::task::AbortHandle>,
    stopped: StopLog,
    sends: SendLog,
}

impl<D> NetworkServer<D> {
    /// The handle of the task that accepts new clients, while listening.
    pub closed spec fn server_handle(&self) -> Option<tokio::task::AbortHandle> {
        self.server_handle
    }

    /// The tasks that this server has stopped (its listening tasks and the
    /// tasks of its connections), oldest first.
    pub closed spec fn stopped_tasks(&self) -> Seq<tokio::task::AbortHandle> {
        self.stopped.stopped()
    }

    /// Every packet that this server has handed to the channel of a
    /// connection: the connection's id, and whether the channel accepted it;
    /// oldest first.
    pub closed spec fn send_attempts(&self) -> Seq<(ConnectionId, bool)> {
        self.sends.attempts()
    }

    /// Whether the server is listening for new clients.
    pub open spec fn is_listening(&self) -> bool {
        self.server_handle() is Some
    }

    /// The ids in the order in which the table holds them, each once.
    pub closed spec fn connection_ids(&self) -> Seq<ConnectionId> {
        self.established_connections.ids()
    }

    /// Every established connection is stored under its own id, and no
    /// client holds the server's id.
    pub open spec fn entries_are_clients(&self) -> bool {
        forall|k: ConnectionId| #[trigger]
            self.connections().contains_key(k) ==> self.connections()[k].spec_id() == k && k@
                != 0
    }

    /// The established connections, by id.
    pub closed spec fn connections(&self) -> Map<ConnectionId, ClientConnection<D>> {
        self.established_connections.view()
    }

    /// The message kinds listened for, each with the messages received and not
    /// yet handed out, oldest first, with the connection each came from.
    pub closed spec fn messages(&self) -> Map<Seq<char>, Seq<(ConnectionId, D)>> {
        self.recv_message_map.view()
    }

    proof fn lemma_same_connections(a: Self, b: Self)
        requires
            a.established_connections == b.established_connections,
        ensures
            a.connections() == b.connections(),
            a.entries_are_clients() == b.entries_are_clients(),
    {
        assert(a.connections() == b.connections());
        if a.entries_are_clients() {
            assert forall|k: ConnectionId| #[trigger] b.connections().contains_key(k) implies b.connections()[k].spec_id()
                == k && k@ != 0 by {
                assert(a.connections().contains_key(k));
            }
        }
        if b.entries_are_clients() {
            assert forall|k: ConnectionId| #[trigger] a.connections().contains_key(k) implies a.connections()[k].spec_id()
                == k && k@ != 0 by {
                assert(b.connections().contains_key(k));
            }
        }
    }

    /// A server that does not listen, with no connection and no registered
    /// message kind.
    pub fn new() -> (r: Self)
        ensures
            !r.is_listening(),
            r.connections() == Map::<ConnectionId, ClientConnection<D>>::empty(),
            r.entries_are_clients(),
            r.messages() == Map::<Seq<char>, Seq<(ConnectionId, D)>>::empty(),
            r.stopped_tasks() == Seq::<tokio::task::AbortHandle>::empty(),
            r.send_attempts() == Seq::<(ConnectionId, bool)>::empty(),
    {
        NetworkServer {
            recv_message_map: MessageRegistry::new(),
            established_connections: ConnectionTable::new(),
            server_handle: None,
            stopped: StopLog::new(),
            sends: SendLog::new(),
        }
    }

    /// The number of established connections.
    pub fn connection_count(&self) -> (r: usize)
        ensures
            r == self.connections().dom().len(),
    {
        self.established_connections.len()
    }

    /// Whether a connection with this id is established.
    pub fn is_connected(&self, id: ConnectionId) -> (r: bool)
        ensures
            r == self.connections().contains_key(id),
    {
        self.established_connections.contains(id)
    }

    /// Disconnect all clients and stop listening for new ones.
    ///
    /// When the server was listening, the listening task is aborted, every
    /// established connection is removed from the table and its tasks are
    /// stopped, every registered message kind is forgotten with its queued
    /// messages, and the ids of the removed connections come back, each once:
    /// a `Disconnected` event is owed for each, and the incoming connections
    /// not yet handled are to be discarded. When it was not listening, nothing
    /// changes and `None` comes back, so the operation is idempotent.
    pub fn stop(&mut self) -> (r: Option<Vec<ConnectionId>>)
        ensures
            final(self).server_handle() is None,
            old(self).is_listening() ==> {
                &&& r matches Some(ids) && ids@ == old(self).connection_ids() && ids@.no_duplicates()
                    && ids@.to_set() == old(self).connections().dom()
                &&& final(self).connections() == Map::<ConnectionId, ClientConnection<D>>::empty()
                &&& final(self).messages() == Map::<Seq<char>, Seq<(ConnectionId, D)>>::empty()
            },
            !old(self).is_listening() ==> {
                &&& r is None
                &&& final(self).connections() == old(self).connections()
                &&& final(self).connection_ids() == old(self).connection_ids()
                &&& final(self).messages() == old(self).messages()
            },
            old(self).entries_are_clients() ==> final(self).entries_are_clients(),
            old(self).server_handle() matches Some(h) ==> final(self).stopped_tasks().contains(h),
            old(self).is_listening() ==> forall|id: ConnectionId| #[trigger]
                old(self).connections().contains_key(id) ==> {
                    &&& final(self).stopped_tasks().contains(
                        old(self).connections()[id].spec_receive_task(),
                    )
                    &&& final(self).stopped_tasks().contains(
                        old(self).connections()[id].spec_send_task(),
                    )
                },
            old(self).stopped_tasks().is_prefix_of(final(self).stopped_tasks()),
            !old(self).is_listening() ==> final(self).stopped_tasks() == old(self).stopped_tasks(),
            final(self).send_attempts() == old(self).send_attempts(),
    {
        let ghost old_connections = self.connections();
        let ghost old_log = self.stopped_tasks();
        match self.server_handle.take() {
            None => None,
            Some(handle) => {
                self.stopped.stop(&handle);
                let ghost h = handle;
                proof {
                    assert(self.stopped.stopped()[old_log.len() as int] == h);
                    assert(old_log.is_prefix_of(self.stopped.stopped()));
                }
                let ids = self.established_connections.id_list();
                let mut dropped = self.established_connections.take_all();
                let ghost all = dropped@;
                let ghost snap = *self;
                while dropped.len() > 0
                    invariant
                        self.server_handle == snap.server_handle,
                        self.established_connections == snap.established_connections,
                        self.recv_message_map == snap.recv_message_map,
                        self.sends == snap.sends,
                        dropped@ == all.take(dropped@.len() as int),
                        dropped@.len() <= all.len(),
                        old_log.is_prefix_of(self.stopped.stopped()),
                        self.stopped.stopped().contains(h),
                        forall|j: int|
                            dropped@.len() <= j < all.len() ==> {
                                &&& self.stopped.stopped().contains(
                                    (#[trigger] all[j]).spec_receive_task(),
                                )
                                &&& self.stopped.stopped().contains(all[j].spec_send_task())
                            },
                    decreases dropped@.len(),
                {
                    let ghost before = self.stopped.stopped();
                    let ghost k = dropped@.len() - 1;
                    let connection = dropped.pop().unwrap();
                    proof {
                        assert(connection == all[k]);
                        assert(dropped@ =~= all.take(k));
                    }
                    connection.stop_into(&mut self.stopped);
                    proof {
                        let after = self.stopped.stopped();
                        assert(after[before.len() as int] == all[k].spec_receive_task());
                        assert(after[before.len() as int + 1] == all[k].spec_send_task());
                        assert forall|x: tokio::task::AbortHandle| before.contains(x) implies after.contains(x) by {
                            let m = choose|m: int| 0 <= m < before.len() && before[m] == x;
                            assert(after[m] == x);
                        }
                        assert(old_log.is_prefix_of(after)) by {
                            assert forall|m: int| 0 <= m < old_log.len() implies after[m] == old_log[m] by {
                                assert(before[m] == old_log[m]);
                            }
                        }
                    }
                }
                proof {
                    assert forall|id: ConnectionId| #[trigger] old_connections.contains_key(id) implies {
                        &&& self.stopped.stopped().contains(old_connections[id].spec_receive_task())
                        &&& self.stopped.stopped().contains(old_connections[id].spec_send_task())
                    } by {
                        let ids_seq = all.map_values(|c: ClientConnection<D>| c.spec_id());
                        assert(ids_seq.to_set().contains(id));
                        let j = choose|j: int| 0 <= j < ids_seq.len() && ids_seq[j] == id;
                        assert(all[j].spec_id() == id);
                    }
                }
                self.recv_message_map.clear();
                Some(ids)
            },
        }
    }

    /// Start listening for new clients, with `server_handle` the task that
    /// accepts them.
    ///
    /// If the server is already listening, it is stopped first (see
    /// [`NetworkServer::stop`]); what that stop hands back is returned.
    pub fn listen<E>(&mut self, server_handle: tokio::task::AbortHandle) -> (r: Result<
        Option<Vec<ConnectionId>>,
        NetworkError<E>,
    >)
        ensures
            final(self).server_handle() == Some(server_handle),
            old(self).is_listening() ==> {
                &&& r matches Ok(Some(ids)) && ids@ == old(self).connection_ids()
                    && ids@.no_duplicates() && ids@.to_set() == old(self).connections().dom()
                &&& final(self).connections() == Map::<ConnectionId, ClientConnection<D>>::empty()
                &&& final(self).messages() == Map::<Seq<char>, Seq<(ConnectionId, D)>>::empty()
            },
            !old(self).is_listening() ==> {
                &&& r matches Ok(None)
                &&& final(self).connections() == old(self).connections()
                &&& final(self).connection_ids() == old(self).connection_ids()
                &&& final(self).messages() == old(self).messages()
            },
            old(self).entries_are_clients() ==> final(self).entries_are_clients(),
            old(self).server_handle() matches Some(h) ==> final(self).stopped_tasks().contains(h),
            old(self).is_listening() ==> forall|id: ConnectionId| #[trigger]
                old(self).connections().contains_key(id) ==> {
                    &&& final(self).stopped_tasks().contains(
                        old(self).connections()[id].spec_receive_task(),
                    )
                    &&& final(self).stopped_tasks().contains(
                        old(self).connections()[id].spec_send_task(),
                    )
                },
            old(self).stopped_tasks().is_prefix_of(final(self).stopped_tasks()),
            !old(self).is_listening() ==> final(self).stopped_tasks() == old(self).stopped_tasks(),
            final(self).send_attempts() == old(self).send_attempts(),
    {
        let stopped = self.stop();
        self.server_handle = Some(server_handle);
        Ok(stopped)
    }

    /// Send a message to a specific client: a packet of kind `T::NAME` that
    /// carries `message` is handed to the channel of that client's writing
    /// task.
    ///
    /// Fails with `ConnectionNotFound`, and changes nothing, exactly when no
    /// connection with this id is established. Otherwise the result is `Ok`
    /// when the channel accepted the packet, which that connection then
    /// records, and `ChannelClosed` (with nothing changed) when the writing
    /// task has closed it. No other connection changes.
    pub fn send_message<T: ClientMessage, E>(&mut self, client_id: ConnectionId, message: D) -> (r:
        Result<(), NetworkError<E>>)
        ensures
            !old(self).connections().contains_key(client_id) <==> (r matches Err(
                NetworkError::ConnectionNotFound(id),
            ) && id == client_id),
            old(self).connections().contains_key(client_id) ==> (r is Ok || (r matches Err(
                NetworkError::ChannelClosed(id),
            ) && id == client_id)),
            r is Ok ==> {
                &&& final(self).connections() == old(self).connections().insert(
                    client_id,
                    final(self).connections()[client_id],
                )
                &&& sent_one_to_client(
                    old(self).connections()[client_id],
                    final(self).connections()[client_id],
                    T::NAME@,
                    message,
                )
            },
            r is Err ==> final(self).connections() == old(self).connections(),
            final(self).connection_ids() == old(self).connection_ids(),
            final(self).messages() == old(self).messages(),
            final(self).server_handle() == old(self).server_handle(),
            old(self).entries_are_clients() ==> final(self).entries_are_clients(),
            old(self).connections().contains_key(client_id) ==> final(self).send_attempts()
                == old(self).send_attempts().push((client_id, r is Ok)),
            !old(self).connections().contains_key(client_id) ==> final(self).send_attempts()
                == old(self).send_attempts(),
            final(self).stopped_tasks() == old(self).stopped_tasks(),
    {
        proof {
            self.established_connections.lemma_keyed();
        }
        let packet = NetworkPacket::new(T::NAME, message);
        match self.established_connections.send_to(client_id, packet, &mut self.sends) {
            None => {
                proof {
                    assert(self.connections() == old(self).connections());
                }
                Err(NetworkError::ConnectionNotFound(client_id))
            },
            Some(true) => {
                proof {
                    self.established_connections.lemma_keyed();
                    assert forall|k: ConnectionId| #[trigger]
                        self.connections().contains_key(k) implies old(self).connections().contains_key(k) by {
                        if k != client_id {
                            assert(old(self).connections().insert(client_id, self.connections()[client_id]).contains_key(k));
                        }
                    }
                }
                Ok(())
            },
            Some(false) => {
                proof {
                    assert(self.connections() == old(self).connections());
                }
                Err(NetworkError::ChannelClosed(client_id))
            },
        }
    }

    /// Broadcast a message to all connected clients: to each established
    /// connection, in table order, a packet of kind `T::NAME` is handed, its
    /// data made by `make_message`. A connection whose channel is closed is
    /// skipped, and the ids of those come back, in table order; every other
    /// connection records its one packet.
    pub fn broadcast<T: ClientMessage, F: Fn() -> D>(&mut self, make_message: F) -> (r: Vec<
        ConnectionId,
    >)
        requires
            forall|| #[trigger] make_message.requires(()),
        ensures
            r@.no_duplicates(),
            final(self).connections().dom() == old(self).connections().dom(),
            forall|id: ConnectionId| r@.contains(id) ==> old(self).connections().contains_key(id),
            forall|id: ConnectionId| #[trigger]
                old(self).connections().contains_key(id) ==> if r@.contains(id) {
                    final(self).connections()[id] == old(self).connections()[id]
                } else {
                    &&& sent_one_to_client(
                        old(self).connections()[id],
                        final(self).connections()[id],
                        T::NAME@,
                        final(self).connections()[id].sent().last().data,
                    )
                    &&& make_message.ensures((), final(self).connections()[id].sent().last().data)
                },
            final(self).connection_ids() == old(self).connection_ids(),
            final(self).messages() == old(self).messages(),
            final(self).server_handle() == old(self).server_handle(),
            old(self).entries_are_clients() ==> final(self).entries_are_clients(),
            final(self).stopped_tasks() == old(self).stopped_tasks(),
            final(self).send_attempts().len() == old(self).send_attempts().len() + old(
                self,
            ).connection_ids().len(),
            final(self).send_attempts().take(old(self).send_attempts().len() as int) == old(
                self,
            ).send_attempts(),
            forall|i: int|
                0 <= i < old(self).connection_ids().len() ==> {
                    &&& final(self).send_attempts()[old(self).send_attempts().len() + i].0
                        == #[trigger] old(self).connection_ids()[i]
                    &&& (final(self).send_attempts()[old(self).send_attempts().len() + i].1
                        <==> !r@.contains(old(self).connection_ids()[i]))
                },
    {
        let ghost old_connections = self.connections();
        let ghost old_attempts = self.send_attempts();
        let ghost base = old_attempts.len() as int;
        let ids = self.established_connections.id_list();
        let mut failed: Vec<ConnectionId> = Vec::new();
        let mut i: usize = 0;
        while i < ids.len()
            invariant
                i <= ids@.len(),
                ids@ == old(self).connection_ids(),
                ids@.no_duplicates(),
                ids@.to_set() == old_connections.dom(),
                old_connections == old(self).connections(),
                forall|| #[trigger] make_message.requires(()),
                failed@.no_duplicates(),
                forall|x: ConnectionId| #[trigger] failed@.contains(x) ==> ids@.take(i as int).contains(x),
                self.connections().dom() == old_connections.dom(),
                self.connection_ids() == old(self).connection_ids(),
                self.messages() == old(self).messages(),
                self.server_handle() == old(self).server_handle(),
                self.stopped_tasks() == old(self).stopped_tasks(),
                old_attempts == old(self).send_attempts(),
                base == old_attempts.len(),
                self.send_attempts().len() == base + i,
                self.send_attempts().take(base) == old_attempts,
                forall|j: int|
                    0 <= j < i ==> {
                        &&& self.send_attempts()[base + j].0 == #[trigger] ids@[j]
                        &&& (failed@.contains(ids@[j]) <==> !self.send_attempts()[base + j].1)
                    },
                forall|id: ConnectionId| #[trigger]
                    old_connections.contains_key(id) && !ids@.take(i as int).contains(id)
                        ==> self.connections()[id] == old_connections[id],
                forall|id: ConnectionId| #[trigger]
                    old_connections.contains_key(id) && ids@.take(i as int).contains(id) ==> if failed@.contains(id) {
                        self.connections()[id] == old_connections[id]
                    } else {
                        &&& sent_one_to_client(
                            old_connections[id],
                            self.connections()[id],
                            T::NAME@,
                            self.connections()[id].sent().last().data,
                        )
                        &&& make_message.ensures((), self.connections()[id].sent().last().data)
                    },
            decreases ids@.len() - i,
        {
            let id = ids[i];
            let ghost before = self.connections();
            let ghost old_failed = failed@;
            let ghost attempts_before = self.send_attempts();
            proof {
                assert(ids@.take(i as int + 1) =~= ids@.take(i as int).push(id));
                if failed@.contains(id) {
                    let prev = ids@.take(i as int);
                    let j = choose|j: int| 0 <= j < prev.len() && #[trigger] prev[j] == id;
                    assert(ids@[j] == ids@[i as int]);
                }
                assert(!ids@.take(i as int).contains(id)) by {
                    if ids@.take(i as int).contains(id) {
                        let prev = ids@.take(i as int);
                        let j = choose|j: int| 0 <= j < prev.len() && #[trigger] prev[j] == id;
                        assert(ids@[j] == ids@[i as int]);
                    }
                }
                assert(ids@.to_set().contains(id));
            }
            let data = make_message();
            let packet = NetworkPacket::new(T::NAME, data);
            let outcome = self.established_connections.send_to(id, packet, &mut self.sends);
            match outcome {
                Some(true) => {},
                _ => {
                    failed.push(id);
                },
            }
            i = i + 1;
            proof {
                let now = self.send_attempts();
                assert(now == attempts_before.push((id, outcome->0)));
                assert(now.take(base) =~= old_attempts) by {
                    assert forall|m: int| 0 <= m < base implies now[m] == old_attempts[m] by {
                        assert(attempts_before.take(base)[m] == old_attempts[m]);
                    }
                }
                assert forall|j: int| 0 <= j < i implies {
                    &&& self.send_attempts()[base + j].0 == #[trigger] ids@[j]
                    &&& (failed@.contains(ids@[j]) <==> !self.send_attempts()[base + j].1)
                } by {
                    if j < i - 1 {
                        assert(now[base + j] == attempts_before[base + j]);
                        assert(ids@[j] != id) by {
                            assert(ids@[i - 1] == id);
                        }
                        assert(failed@.contains(ids@[j]) == old_failed.contains(ids@[j])) by {
                            if failed@.contains(ids@[j]) {
                                let m = choose|m: int| 0 <= m < failed@.len() && failed@[m] == ids@[j];
                                if m < old_failed.len() {
                                    assert(old_failed[m] == ids@[j]);
                                }
                            }
                            if old_failed.contains(ids@[j]) {
                                let m = choose|m: int| 0 <= m < old_failed.len() && old_failed[m] == ids@[j];
                                assert(failed@[m] == ids@[j]);
                            }
                        }
                    } else {
                        assert(ids@[j] == id);
                        assert(!old_failed.contains(id)) by {
                            if old_failed.contains(id) {
                                assert(ids@.take(j).contains(id));
                                let prev = ids@.take(j);
                                let m = choose|m: int| 0 <= m < prev.len() && #[trigger] prev[m] == id;
                                assert(ids@[m] == ids@[j]);
                            }
                        }
                        if outcome->0 {
                            assert(failed@ == old_failed);
                        } else {
                            assert(failed@[failed@.len() - 1] == id);
                        }
                    }
                }
                assert forall|x: ConnectionId| #[trigger] failed@.contains(x) implies ids@.take(
                    i as int,
                ).contains(x) by {
                    if x == id {
                        assert(ids@.take(i as int)[i - 1] == id);
                    } else {
                        assert(old_failed.contains(x));
                        let prev = ids@.take(i - 1);
                        let j = choose|j: int| 0 <= j < prev.len() && #[trigger] prev[j] == x;
                        assert(ids@.take(i as int)[j] == x);
                    }
                }
                assert forall|k: ConnectionId| #[trigger]
                    old_connections.contains_key(k) && !ids@.take(i as int).contains(k)
                        implies self.connections()[k] == old_connections[k] by {
                    assert(ids@.take(i as int)[i - 1] == id);
                    assert(k != id);
                    if ids@.take(i - 1).contains(k) {
                        let prev = ids@.take(i - 1);
                        let j = choose|j: int| 0 <= j < prev.len() && #[trigger] prev[j] == k;
                        assert(ids@.take(i as int)[j] == k);
                    }
                }
                assert forall|k: ConnectionId| #[trigger]
                    old_connections.contains_key(k) && ids@.take(i as int).contains(k) implies (if failed@.contains(k) {
                        self.connections()[k] == old_connections[k]
                    } else {
                        &&& sent_one_to_client(
                            old_connections[k],
                            self.connections()[k],
                            T::NAME@,
                            self.connections()[k].sent().last().data,
                        )
                        &&& make_message.ensures((), self.connections()[k].sent().last().data)
                    }) by {
                    assert(ids@.take(i as int)[i - 1] == id);
                    if k != id {
                        let cur = ids@.take(i as int);
                        let j = choose|j: int| 0 <= j < cur.len() && #[trigger] cur[j] == k;
                        assert(j != i - 1);
                        assert(ids@.take(i - 1)[j] == k);
                        assert(ids@.take(i - 1).contains(k));
                        assert(self.connections()[k] == before[k]);
                        assert(failed@.contains(k) == old_failed.contains(k)) by {
                            if failed@.contains(k) {
                                let m = choose|m: int| 0 <= m < failed@.len() && failed@[m] == k;
                                if m < old_failed.len() {
                                    assert(old_failed[m] == k);
                                }
                            }
                            if old_failed.contains(k) {
                                let m = choose|m: int| 0 <= m < old_failed.len() && old_failed[m] == k;
                                assert(failed@[m] == k);
                            }
                        }
                    } else {
                        assert(!old_failed.contains(id));
                        assert(!ids@.take(i - 1).contains(id));
                        assert(before[id] == old_connections[id]);
                        if outcome == Some(true) {
                            assert(!failed@.contains(id)) by {
                                assert(failed@ == old_failed);
                            }
                        } else {
                            assert(failed@.last() == id);
                            assert(failed@.contains(id));
                        }
                    }
                }
            }
        }
        proof {
            assert(ids@.take(i as int) =~= ids@);
            assert forall|id: ConnectionId| failed@.contains(id) implies old_connections.contains_key(
                id,
            ) by {
                assert(ids@.to_set().contains(id));
            }
            self.established_connections.lemma_keyed();
        }
        failed
    }

    /// Disconnect a specific client: its connection is removed from the table
    /// and its tasks are stopped. Fails with `ConnectionNotFound`, and changes
    /// nothing, exactly when no connection with this id is established.
    pub fn disconnect<E>(&mut self, conn_id: ConnectionId) -> (r: Result<(), NetworkError<E>>)
        ensures
            final(self).connections() == old(self).connections().remove(conn_id),
            final(self).messages() == old(self).messages(),
            final(self).server_handle() == old(self).server_handle(),
            r is Err ==> final(self).connection_ids() == old(self).connection_ids(),
            r is Ok <==> old(self).connections().contains_key(conn_id),
            r matches Err(e) ==> (e matches NetworkError::ConnectionNotFound(id) && id == conn_id),
            old(self).entries_are_clients() ==> final(self).entries_are_clients(),
            r is Ok ==> final(self).stopped_tasks() == old(self).stopped_tasks().push(
                old(self).connections()[conn_id].spec_receive_task(),
            ).push(old(self).connections()[conn_id].spec_send_task()),
            r is Err ==> final(self).stopped_tasks() == old(self).stopped_tasks(),
            final(self).send_attempts() == old(self).send_attempts(),
    {
        match self.established_connections.remove(conn_id) {
            Some(connection) => {
                connection.stop_into(&mut self.stopped);
                Ok(())
            },
            None => Err(NetworkError::ConnectionNotFound(conn_id)),
        }
    }

    /// Whether messages of kind `T::NAME` are listened for.
    pub fn listens_for<T: ServerMessage>(&self) -> (r: bool)
        ensures
            r == self.messages().contains_key(T::NAME@),
    {
        self.recv_message_map.contains_kind(T::NAME)
    }

    /// Register a message type: from now on, received messages of kind
    /// `T::NAME` are queued. A kind may be registered only once.
    pub fn listen_for_server_message<T: ServerMessage>(&mut self)
        requires
            !old(self).messages().contains_key(T::NAME@),
        ensures
            final(self).messages() == old(self).messages().insert(
                T::NAME@,
                Seq::<(ConnectionId, D)>::empty(),
            ),
            final(self).connections() == old(self).connections(),
            final(self).server_handle() == old(self).server_handle(),
            final(self).connection_ids() == old(self).connection_ids(),
            old(self).entries_are_clients() ==> final(self).entries_are_clients(),
    {
        self.recv_message_map.register(T::NAME);
        proof {
            Self::lemma_same_connections(*old(self), *self);
        }
    }

    /// Routes a packet that arrived on connection `source`: when its kind is
    /// listened for, its data is queued with the source and `true` comes back;
    /// otherwise it is dropped.
    pub fn receive_packet(&mut self, source: ConnectionId, packet: NetworkPacket<D>) -> (r: bool)
        ensures
            r == old(self).messages().contains_key(packet.kind@),
            r ==> final(self).messages() == old(self).messages().insert(
                packet.kind@,
                old(self).messages()[packet.kind@].push((source, packet.data)),
            ),
            !r ==> final(self).messages() == old(self).messages(),
            final(self).connections() == old(self).connections(),
            final(self).server_handle() == old(self).server_handle(),
            final(self).connection_ids() == old(self).connection_ids(),
            old(self).entries_are_clients() ==> final(self).entries_are_clients(),
    {
        let NetworkPacket { kind, data } = packet;
        let r = self.recv_message_map.deliver(kind.as_str(), (source, data));
        proof {
            Self::lemma_same_connections(*old(self), *self);
        }
        r
    }

    /// Hands out the queued messages of kind `T::NAME`, oldest first, each
    /// with the connection it came from, and empties that queue. Nothing comes
    /// back when the kind is not listened for.
    pub fn register_server_message<T: ServerMessage>(&mut self) -> (r: Vec<NetworkData<D>>)
        ensures
            final(self).connections() == old(self).connections(),
            final(self).server_handle() == old(self).server_handle(),
            final(self).connection_ids() == old(self).connection_ids(),
            old(self).messages().contains_key(T::NAME@) ==> {
                &&& final(self).messages() == old(self).messages().insert(
                    T::NAME@,
                    Seq::<(ConnectionId, D)>::empty(),
                )
                &&& r@.len() == old(self).messages()[T::NAME@].len()
                &&& forall|i: int|
                    0 <= i < r@.len() ==> (#[trigger] r@[i]).spec_source() == old(
                        self,
                    ).messages()[T::NAME@][i].0 && r@[i].spec_inner() == old(
                        self,
                    ).messages()[T::NAME@][i].1
            },
            !old(self).messages().contains_key(T::NAME@) ==> {
                &&& final(self).messages() == old(self).messages()
                &&& r@.len() == 0
            },
            old(self).entries_are_clients() ==> final(self).entries_are_clients(),
    {
        let queued = self.recv_message_map.drain(T::NAME);
        proof {
            Self::lemma_same_connections(*old(self), *self);
        }
        let ghost all = queued@;
        let mut r: Vec<NetworkData<D>> = Vec::new();
        let mut reversed = reversed(queued);
        assert(reversed@.reverse() =~= all);
        while reversed.len() > 0
            invariant
                all == r@.map_values(|d: NetworkData<D>| (d.spec_source(), d.spec_inner()))
                    + reversed@.reverse(),
            decreases reversed@.len(),
        {
            let (source, data) = reversed.pop().unwrap();
            let ghost before = r@;
            r.push(NetworkData::new(source, data));
            proof {
                assert(r@.map_values(|d: NetworkData<D>| (d.spec_source(), d.spec_inner()))
                    =~= before.map_values(
                    |d: NetworkData<D>| (d.spec_source(), d.spec_inner()),
                ).push((source, data)));
                assert(reversed@.push((source, data)).reverse() =~= seq![(source, data)]
                    + reversed@.reverse());
            }
        }
        proof {
            assert(all =~= r@.map_values(|d: NetworkData<D>| (d.spec_source(), d.spec_inner())));
            assert forall|i: int| 0 <= i < r@.len() implies (#[trigger] r@[i]).spec_source()
                == all[i].0 && r@[i].spec_inner() == all[i].1 by {
                assert(all[i] == (r@[i].spec_source(), r@[i].spec_inner()));
            }
        }
        r
    }

    /// Admits a newly established connection under its id, in place of any
    /// connection that had the same id.
    pub fn add_connection(&mut self, connection: ClientConnection<D>)
        requires
            connection.spec_id()@ != 0,
        ensures
            final(self).connections() == old(self).connections().insert(
                connection.spec_id(),
                connection,
            ),
            final(self).messages() == old(self).messages(),
            final(self).server_handle() == old(self).server_handle(),
            old(self).entries_are_clients() ==> final(self).entries_are_clients(),
    {
        self.established_connections.insert(connection);
        proof {
            self.established_connections.lemma_keyed();
        }
    }

    /// Takes in the connections established since the last call and the ids
    /// of the connections lost since then, and reports them: first a
    /// `Connected` event for each new connection, in order, then a
    /// `Disconnected` event for each lost id, in order. New connections are
    /// admitted first, then lost ones are removed from the table.
    pub fn handle_new_incoming_connections<E>(
        &mut self,
        new_connections: Vec<ClientConnection<D>>,
        disconnected: Vec<ConnectionId>,
    ) -> (r: Vec<ServerNetworkEvent<E>>)
        requires
            forall|i: int|
                0 <= i < new_connections@.len() ==> (#[trigger] new_connections@[i]).spec_id()@ != 0,
        ensures
            old(self).entries_are_clients() ==> final(self).entries_are_clients(),
            final(self).connections() == depart(
                arrive(old(self).connections(), new_connections@),
                disconnected@,
            ),
            final(self).messages() == old(self).messages(),
            final(self).server_handle() == old(self).server_handle(),
            r@.len() == new_connections@.len() + disconnected@.len(),
            forall|i: int|
                0 <= i < new_connections@.len() ==> (#[trigger] r@[i] matches ServerNetworkEvent::<
                    E,
                >::Connected(id) && id == new_connections@[i].spec_id()),
            forall|i: int|
                0 <= i < disconnected@.len() ==> (#[trigger] r@[new_connections@.len() + i] matches ServerNetworkEvent::<
                    E,
                >::Disconnected(id) && id == disconnected@[i]),
            forall|id: ConnectionId| #[trigger]
                old(self).connections().contains_key(id) && !disconnected@.contains(id) && (forall|
                    i: int,
                | 0 <= i < new_connections@.len() ==> (#[trigger] new_connections@[i]).spec_id()
                    != id) ==> final(self).connections().contains_key(id)
                    && final(self).connections()[id] == old(self).connections()[id],
            forall|id: ConnectionId| #[trigger]
                final(self).connections().contains_key(id) ==> old(self).connections().contains_key(id)
                    || exists|i: int|
                    0 <= i < new_connections@.len() && (#[trigger] new_connections@[i]).spec_id()
                        == id,
            final(self).stopped_tasks() == old(self).stopped_tasks(),
            final(self).send_attempts() == old(self).send_attempts(),
    {
        let ghost old_connections = self.connections();
        let ghost arriving = new_connections@;
        let ghost n = arriving.len();
        let mut events: Vec<ServerNetworkEvent<E>> = Vec::new();
        let mut pending = reversed(new_connections);
        assert(pending@.reverse() =~= arriving);
        while pending.len() > 0
            invariant
                arriving == arriving.take(events@.len() as int) + pending@.reverse(),
                events@.len() <= n,
                n == arriving.len(),
                self.connections() == arrive(old_connections, arriving.take(events@.len() as int)),
                self.stopped_tasks() == old(self).stopped_tasks(),
                self.send_attempts() == old(self).send_attempts(),
                self.messages() == old(self).messages(),
                self.server_handle() == old(self).server_handle(),
                forall|i: int|
                    0 <= i < events@.len() ==> (#[trigger] events@[i] matches ServerNetworkEvent::<
                        E,
                    >::Connected(id) && id == arriving[i].spec_id()),
            decreases pending@.len(),
        {
            let ghost k = events@.len() as int;
            let connection = pending.pop().unwrap();
            proof {
                assert(arriving =~= arriving.take(k) + seq![connection] + pending@.reverse());
                assert(arriving[k] == connection);
                assert(arriving.take(k + 1).drop_last() =~= arriving.take(k));
            }
            let id = connection.id();
            self.established_connections.insert(connection);
            events.push(ServerNetworkEvent::Connected(id));
            proof {
                assert(arriving =~= arriving.take(k + 1) + pending@.reverse());
            }
        }
        proof {
            assert(arriving.take(n as int) =~= arriving);
        }
        let ghost after_arrival = self.connections();
        let mut i: usize = 0;
        while i < disconnected.len()
            invariant
                i <= disconnected@.len(),
                events@.len() == n + i,
                self.connections() == depart(after_arrival, disconnected@.take(i as int)),
                self.stopped_tasks() == old(self).stopped_tasks(),
                self.send_attempts() == old(self).send_attempts(),
                self.messages() == old(self).messages(),
                self.server_handle() == old(self).server_handle(),
                forall|j: int|
                    0 <= j < n ==> (#[trigger] events@[j] matches ServerNetworkEvent::<
                        E,
                    >::Connected(id) && id == arriving[j].spec_id()),
                forall|j: int|
                    0 <= j < i ==> (#[trigger] events@[n + j] matches ServerNetworkEvent::<
                        E,
                    >::Disconnected(id) && id == disconnected@[j]),
            decreases disconnected@.len() - i,
        {
            let id = disconnected[i];
            let _removed = self.established_connections.remove(id);
            events.push(ServerNetworkEvent::Disconnected(id));
            proof {
                assert(disconnected@.take(i + 1).drop_last() =~= disconnected@.take(i as int));
            }
            i = i + 1;
            proof {
                assert forall|j: int| 0 <= j < i implies (#[trigger] events@[n + j] matches ServerNetworkEvent::<
                    E,
                >::Disconnected(id) && id == disconnected@[j]) by {}
            }
        }
        proof {
            assert(disconnected@.take(i as int) =~= disconnected@);
            self.established_connections.lemma_keyed();
            if old(self).entries_are_clients() {
                lemma_arrive_depart_clients(old_connections, arriving, disconnected@);
            }
            assert forall|id: ConnectionId| #[trigger]
                old_connections.contains_key(id) && !disconnected@.contains(id) && (forall|i: int|
                    0 <= i < arriving.len() ==> (#[trigger] arriving[i]).spec_id() != id)
                implies self.connections().contains_key(id) && self.connections()[id]
                == old_connections[id] by {
                law_untouched_kept(old_connections, arriving, disconnected@, id);
            }
            assert forall|id: ConnectionId| #[trigger] self.connections().contains_key(id) implies old_connections.contains_key(id)
                || exists|i: int| 0 <= i < arriving.len() && (#[trigger] arriving[i]).spec_id() == id by {
                law_round_adds_only_arrivals(old_connections, arriving, disconnected@, id);
            }
        }
        events
    }
}

/// The table after admitting `arrivals` in order, each under its id.
pub open spec fn arrive<D>(
    table: Map<ConnectionId, ClientConnection<D>>,
    arrivals: Seq<ClientConnection<D>>,
) -> Map<ConnectionId, ClientConnection<D>>
    decreases arrivals.len(),
{
    if arrivals.len() == 0 {
        table
    } else {
        arrive(table, arrivals.drop_last()).insert(arrivals.last().spec_id(), arrivals.last())
    }
}

/// Admitting connections that all hold client ids, and removing any, keeps
/// every key of the table a client id.
proof fn lemma_arrive_depart_clients<D>(
    table: Map<ConnectionId, ClientConnection<D>>,
    arrivals: Seq<ClientConnection<D>>,
    departures: Seq<ConnectionId>,
)
    requires
        forall|k: ConnectionId| #[trigger] table.contains_key(k) ==> k@ != 0,
        forall|i: int| 0 <= i < arrivals.len() ==> (#[trigger] arrivals[i]).spec_id()@ != 0,
    ensures
        forall|k: ConnectionId| #[trigger]
            depart(arrive(table, arrivals), departures).contains_key(k) ==> k@ != 0,
    decreases arrivals.len() + departures.len(),
{
    if departures.len() > 0 {
        lemma_arrive_depart_clients(table, arrivals, departures.drop_last());
        let shorter = depart(arrive(table, arrivals), departures.drop_last());
        assert forall|k: ConnectionId| #[trigger]
            depart(arrive(table, arrivals), departures).contains_key(k) implies k@ != 0 by {
            assert(shorter.contains_key(k));
        }
    } else if arrivals.len() > 0 {
        let shorter = arrivals.drop_last();
        assert forall|i: int| 0 <= i < shorter.len() implies (#[trigger] shorter[i]).spec_id()@ != 0 by {
            assert(shorter[i] == arrivals[i]);
        }
        lemma_arrive_depart_clients(table, shorter, departures);
        assert(depart(arrive(table, shorter), departures) == arrive(table, shorter));
        assert(arrivals.last() == arrivals[arrivals.len() - 1]);
    }
}

/// The table after removing the connections with the ids `departures`.
pub open spec fn depart<D>(
    table: Map<ConnectionId, ClientConnection<D>>,
    departures: Seq<ConnectionId>,
) -> Map<ConnectionId, ClientConnection<D>>
    decreases departures.len(),
{
    if departures.len() == 0 {
        table
    } else {
        depart(table, departures.drop_last()).remove(departures.last())
    }
}

/// A connection that arrives and is not reported lost in the same round is
/// in the table afterwards, as the last arrival with its id.
pub proof fn law_arrival_kept<D>(
    table: Map<ConnectionId, ClientConnection<D>>,
    arrivals: Seq<ClientConnection<D>>,
    departures: Seq<ConnectionId>,
    i: int,
)
    requires
        0 <= i < arrivals.len(),
        forall|j: int| i < j < arrivals.len() ==> arrivals[j].spec_id() != arrivals[i].spec_id(),
        !departures.contains(arrivals[i].spec_id()),
    ensures
        depart(arrive(table, arrivals), departures).contains_key(arrivals[i].spec_id()),
        depart(arrive(table, arrivals), departures)[arrivals[i].spec_id()] == arrivals[i],
    decreases departures.len(),
{
    let id = arrivals[i].spec_id();
    if departures.len() == 0 {
        lemma_arrive_last_wins(table, arrivals, i);
    } else {
        assert(departures.drop_last().contains(id) ==> departures.contains(id)) by {
            if departures.drop_last().contains(id) {
                let k = choose|k: int| 0 <= k < departures.drop_last().len()
                    && departures.drop_last()[k] == id;
                assert(departures[k] == id);
            }
        }
        assert(departures.last() != id) by {
            assert(departures[departures.len() - 1] == departures.last());
        }
        law_arrival_kept(table, arrivals, departures.drop_last(), i);
    }
}

proof fn lemma_arrive_last_wins<D>(
    table: Map<ConnectionId, ClientConnection<D>>,
    arrivals: Seq<ClientConnection<D>>,
    i: int,
)
    requires
        0 <= i < arrivals.len(),
        forall|j: int| i < j < arrivals.len() ==> arrivals[j].spec_id() != arrivals[i].spec_id(),
    ensures
        arrive(table, arrivals).contains_key(arrivals[i].spec_id()),
        arrive(table, arrivals)[arrivals[i].spec_id()] == arrivals[i],
    decreases arrivals.len(),
{
    if i < arrivals.len() - 1 {
        let shorter = arrivals.drop_last();
        assert forall|j: int| i < j < shorter.len() implies shorter[j].spec_id()
            != shorter[i].spec_id() by {
            assert(shorter[j] == arrivals[j]);
        }
        lemma_arrive_last_wins(table, shorter, i);
        assert(arrivals.last() == arrivals[arrivals.len() - 1]);
    }
}

proof fn lemma_arrive_keeps<D>(
    table: Map<ConnectionId, ClientConnection<D>>,
    arrivals: Seq<ClientConnection<D>>,
    id: ConnectionId,
)
    requires
        table.contains_key(id),
        forall|i: int| 0 <= i < arrivals.len() ==> (#[trigger] arrivals[i]).spec_id() != id,
    ensures
        arrive(table, arrivals).contains_key(id),
        arrive(table, arrivals)[id] == table[id],
    decreases arrivals.len(),
{
    if arrivals.len() > 0 {
        let shorter = arrivals.drop_last();
        assert forall|i: int| 0 <= i < shorter.len() implies (#[trigger] shorter[i]).spec_id() != id by {
            assert(shorter[i] == arrivals[i]);
        }
        lemma_arrive_keeps(table, shorter, id);
        assert(arrivals.last() == arrivals[arrivals.len() - 1]);
    }
}

proof fn lemma_depart_keeps<D>(
    table: Map<ConnectionId, ClientConnection<D>>,
    departures: Seq<ConnectionId>,
    id: ConnectionId,
)
    requires
        table.contains_key(id),
        !departures.contains(id),
    ensures
        depart(table, departures).contains_key(id),
        depart(table, departures)[id] == table[id],
    decreases departures.len(),
{
    if departures.len() > 0 {
        let shorter = departures.drop_last();
        assert(!shorter.contains(id)) by {
            if shorter.contains(id) {
                let k = choose|k: int| 0 <= k < shorter.len() && shorter[k] == id;
                assert(departures[k] == id);
            }
        }
        assert(departures[departures.len() - 1] != id);
        lemma_depart_keeps(table, shorter, id);
    }
}

/// A connection already established that neither arrives again nor is
/// reported lost in a round stays in the table, unchanged. In particular a
/// round with no arrival and no departure leaves the table as it was.
pub proof fn law_untouched_kept<D>(
    table: Map<ConnectionId, ClientConnection<D>>,
    arrivals: Seq<ClientConnection<D>>,
    departures: Seq<ConnectionId>,
    id: ConnectionId,
)
    requires
        table.contains_key(id),
        forall|i: int| 0 <= i < arrivals.len() ==> (#[trigger] arrivals[i]).spec_id() != id,
        !departures.contains(id),
    ensures
        depart(arrive(table, arrivals), departures).contains_key(id),
        depart(arrive(table, arrivals), departures)[id] == table[id],
{
    lemma_arrive_keeps(table, arrivals, id);
    lemma_depart_keeps(arrive(table, arrivals), departures, id);
}

/// A round adds no connection but the arrivals: every id in the table
/// afterwards was in it before or is the id of an arrival.
pub proof fn law_round_adds_only_arrivals<D>(
    table: Map<ConnectionId, ClientConnection<D>>,
    arrivals: Seq<ClientConnection<D>>,
    departures: Seq<ConnectionId>,
    id: ConnectionId,
)
    requires
        depart(arrive(table, arrivals), departures).contains_key(id),
    ensures
        table.contains_key(id) || exists|i: int|
            0 <= i < arrivals.len() && (#[trigger] arrivals[i]).spec_id() == id,
    decreases arrivals.len() + departures.len(),
{
    if departures.len() > 0 {
        law_round_adds_only_arrivals(table, arrivals, departures.drop_last(), id);
    } else if arrivals.len() > 0 {
        let shorter = arrivals.drop_last();
        if arrivals.last().spec_id() == id {
            assert(arrivals[arrivals.len() - 1].spec_id() == id);
        } else {
            assert(depart(arrive(table, shorter), departures) == arrive(table, shorter));
            law_round_adds_only_arrivals(table, shorter, departures, id);
            if !table.contains_key(id) {
                let i = choose|i: int| 0 <= i < shorter.len() && (#[trigger] shorter[i]).spec_id() == id;
                assert(arrivals[i] == shorter[i]);
            }
        }
    }
}

/// A connection reported lost is not in the table afterwards, whatever
/// arrived in the same round.
pub proof fn law_departure_removes<D>(
    table: Map<ConnectionId, ClientConnection<D>>,
    arrivals: Seq<ClientConnection<D>>,
    departures: Seq<ConnectionId>,
    id: ConnectionId,
)
    requires
        departures.contains(id),
    ensures
        !depart(arrive(table, arrivals), departures).contains_key(id),
    decreases departures.len(),
{
    if departures.last() != id {
        let k = choose|k: int| 0 <= k < departures.len() && departures[k] == id;
        assert(k != departures.len() - 1);
        assert(departures.drop_last()[k] == id);
        law_departure_removes(table, arrivals, departures.drop_last(), id);
    }
}

} // verus!
