# bevy_spicy_networking

Networking for client/server games built with Bevy: one server, many clients,
typed messages delivered as Bevy events.

- `src/` is the verified library: the wire framing (length-prefixed frames with
  a big-endian `u32` or little-endian `u64` header, and a packet size limit),
  the message registry that routes received packets by kind, the server's table
  of established connections, the client's connection, and the decisions of the
  accepting, connecting, receiving and sending loops of the TCP providers.
- `app/` holds what runs around it: the Bevy plugins and systems, the
  asynchronous socket loops on tokio, and the `serde`/`typetag`/`bincode`
  encoding of messages.
- `tests/` exercises the library on concrete values.

The connection table and the message registry are plain vectors with type
invariants (no id and no kind occurs twice) rather than concurrent maps: each is
owned by one side and changed through `&mut`, and their contents (connections
with task handles, queued messages of a generic type) are what the contracts
state. Work that other threads do reaches them through channels drained by the
Bevy systems in `app/`.
