# wasm_h3

HTTP/3 over QUIC, with the protocol logic written in Verus and its contracts proved.

## Layout

- `src/` — the verified library.
  - `protocol/` — variable-length integers, HTTP/3 frames and the incremental frame parser,
    stream state machines and the stream manager, connection and stream flow control,
    header fields, requests and responses.
  - `transport/` — QUIC packet headers and packets, ACK frames and tracking, RTT estimation and
    loss detection, connections, endpoints and listeners.
  - `crypto/` — TLS configuration and sessions (through rustls), initial key derivation and
    AEAD sealing (through ring), packet and header protection.
  - `config.rs`, `error.rs`, `time.rs`, `text.rs` — configuration, error values, time spans
    and the building of error messages.
- `tests/` — tests of the library.
- `app/` — the demonstration client and everything around the library that does I/O or needs
  outside traits: UDP sockets and name resolution, the async client and server shells, streamed
  bodies, certificate verifiers, and error messages (`Display`).

Calls into ring, rustls, http and the standard clock stand behind small trusted wrappers whose
contracts state what those crates' sources show; everything else in `src/` is verified.
