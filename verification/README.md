# shared

A small TCP replication layer for a game engine, with its logic verified
in Verus.

- `src/` is the verified library: the length prefixes and frames on the wire
  (`framing`, `float_len`, `tcp_settings_functions`), the peers a server
  accepts (`client_connection`), named connections and their lifecycle
  (`stream_connection`, `connection_table`), and the per-frame steps that
  drive them (`replication_plugin`). `keyed` holds the lemmas that read a
  vector of keyed records as a map.
- `app/` runs a server (`app server`) or a client (`app client`) with bevy
  and tokio: sockets, tasks, message encoding and the bevy plugin.
- `tests/` exercises the library on concrete values.
