# sedsprintf_rs

A telemetry library for small networked systems: typed telemetry packets, a
compact wire format, a router and a relay that move packets between local
handlers and transport "sides", endpoint discovery, and network time
synchronization. The library is written in Verus and its behaviour is stated
in `requires` / `ensures` contracts that the verifier proves.

## Layout

- `src/` — the verified library.
  - `config.rs` — the message schema: data types, endpoints, payload layout.
  - `lib.rs` — error type and codes, schema queries, decimal parsing.
  - `le_bytes.rs` — little-endian encoding and the byte hash.
  - `telemetry_packet.rs` — packets, their validity, identifiers and text.
  - `serialize.rs` — the wire format (varints, endpoint bitmap), header
    peeking; round-trip and canonical-form lemmas.
  - `queue.rs` — a byte-budgeted FIFO that evicts from the front.
  - `small_payload.rs` — a payload buffer with inline storage.
  - `text.rs` — formatting helpers and the civil calendar.
  - `discovery.rs` — discovery payloads and announce cadence.
  - `timesync.rs` — time sync packets, leader election, calendar time, the
    slewed clock and the multi-source network clock.
  - `router.rs` — the router: queues, local dispatch, error reporting,
    routing decisions, discovery and time sync handling.
  - `relay.rs` — the relay: forwarding between sides with de-duplication.
  - `schema.rs` — checks and merging of JSON-shaped schema descriptions.
- `tests/` — tests run against the compiled library.
- `app/` — host glue that the verifier does not see: a mutex wrapper,
  floating-point helpers and loading schema files with serde.
