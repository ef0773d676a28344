# RustPulse

A monitoring backend: services push metric samples, log lines and
heartbeats; the server keeps a bounded in-memory history, tracks each
service's health from how long it has been silent, evaluates alert rules
(metric thresholds, log counts, missed heartbeats) and announces changes to
real-time subscribers.

## Layout

- `src/` is the verified library (Verus). It holds the store and its
  invariants, ingestion and validation, service health, rule
  administration, the alert engine (pending, firing, resolved), the
  evaluation plans, queries and search, metric series, the administrator
  token check, setting parsing and the subscriber connection's decisions.
  `src/alert_state.rs` holds the alert invariant that is part of the
  store invariant; `src/laws.rs` states and proves the properties that
  span operations,
  and `src/rounds.rs` proves that repeating a round of evaluations at the
  same instant changes nothing.
- `app/` is the HTTP and WebSocket server around it (axum, tokio): routes,
  configuration from the environment, the serde forms of the data types,
  and the floating-point figures (averages, threshold comparisons, rates),
  which the library leaves to it.
- `tests/` exercises the library on concrete values.

Identifiers are UUIDs held as 128-bit integers, instants are seconds and
nanoseconds since the Unix epoch, and floating-point readings are carried
through the library as their bit patterns.
