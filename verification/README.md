# lightyear_replication

The server side of a replication bridge between Replicon and per-client transports, verified with
Verus.

- `src/` is the verified library: the checkpoint header (`checkpoint`), Replicon's message store
  behind stated contracts (`replicon`), the transports (`transport`), the two halves of the packet
  bridge (`receive`, `send`), the server's lifecycle and client connections (`server`), the request
  lifecycle of state rollbacks (`rollback`) and the decisions of a small demo (`simple_box`).
- The transports are this library's own model of a link's queues: receivers and senders by channel,
  and which messages have to be split. A link on the network fills and empties them.
- `tests/` runs the library, with the real Replicon linked.
- `app/` is the Bevy side: the plugin, its components and what needs floating point.
