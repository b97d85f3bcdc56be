# wireauth_filter

An admission filter for handshake requests, verified with Verus.

For each request the filter decides whether the handshake goes on, the sender is
asked to come back with a cookie, or the request is discarded. It looks at the number
of sessions, at two budgets that a periodic tick restores (one for requests with a
valid cookie, one for requests without), and, for requests with a valid cookie, at the
time when the address last passed.

- `src/model.rs` says in mathematical terms what the filter does.
- `src/filter.rs` is the filter, proved to do so.
- `src/laws.rs` states what follows for whole runs of requests and ticks.
- `src/history.rs` wraps the cache of the `lru` crate and says what is believed of it.
- `src/metrics.rs`, `src/duration.rs`, `src/address.rs` and `src/state.rs` hold the
  gauges, times, addresses and session counts.
- `app/` puts the filter on the types of the standard library and logs.
