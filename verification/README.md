# telepathy

The logic of a voice interface to coding agents: the conversations ("lanes")
that a handset switches between, the frames that it exchanges with its bridge,
and the relay that hands spoken turns to a gateway and its replies back, with
every change durable before it is answered.

- `src/` is the library. Every function in it is verified by Verus against the
  contract in its header; what holds across functions stands as `law_` proof
  functions beside them.
- `app/` is the daemon around it: HTTP and WebSocket handlers, files, the
  session store and the model provider.
- `tests/` runs the library on concrete values.

Calls into outside crates (JSON, base64, hex, HMAC, SHA-256) and the clock stand
behind small wrappers in `src/value.rs`, `src/json.rs`, `src/auth.rs`,
`src/text.rs`, `src/revision.rs` and `src/clock.rs`; their contracts are believed,
not proved.

The relay keeps nothing on disk by itself. An operation that must be durable
hands out what to write, and goes on once it is told how the write ended: done,
not done, or uncertain. An uncertain write blocks every later one until a
restart.
