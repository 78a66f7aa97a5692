# clocksync

Fault-tolerant clock synchronization with Marzullo's algorithm over
nanosecond NULID timestamps, verified with Verus.

- `src/` — the verified library: intervals, probe responses, samples,
  Marzullo's sweep (with a verified merge sort of endpoints) and the
  consensus of a round of probes; `src/laws.rs` holds the properties every
  consensus has.
- `app/` — the asynchronous probing trait and consensus loop, the floating
  point confidence ratio, text forms and `Nulid` conversions.
- `tests/` — runtime tests of the library.
