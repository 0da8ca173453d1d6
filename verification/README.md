# bbstore

A small in-memory key-value store that speaks the RESP wire protocol. Each
shard owns its data and is changed by one task only; requests reach it
through a channel.

- `src/` is the verified library:
  - `resp/` — RESP values, their encoding (`value.rs`), an incremental
    decoder (`decode.rs`), and the laws of the format (`laws.rs`): what is
    encoded decodes back, what the decoder decides does not depend on
    how the bytes arrive, and its two modes differ only in how bulk strings
    are tagged.
  - `command.rs`, `errors.rs` — commands read from RESP values, their text,
    the values a client sends, and the messages of refused requests.
  - `backend.rs` — the map of one shard, the routing of keys to shards, and
    the laws that a read gives back the last write.
  - `server.rs`, `client.rs` — what the server answers and which
    configuration it runs with; what a client makes of the answers.
  - `decimal.rs`, `text.rs`, `bytes.rs` — decimal integers, text built from
    pieces and from the standard library's conversions, byte strings.
- `app/` holds the sockets, tasks, channels, files and command-line parsing
  around the library.
- `tests/` runs the library on concrete values.
