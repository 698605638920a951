# prometheus_exporter

An exporter of metrics for Prometheus, verified with Verus.

Metrics come in as events. The exporter keeps one metric of each series: an
absolute metric takes the place of what was kept, an increment is added to it.
Sets of strings start over once they have expired, so that they cannot grow
without end. Whoever asks for `GET /metrics` is shown everything that is kept.

- `src/` is the verified library. It decides what is kept, what is shown and in
  which order. Numbers pass through it as bit patterns; adding them up is left
  to a function that the caller passes in.
- `src/laws/` states what holds of the library as a whole.
- `tests/` runs it on examples.
- `app/` is the sink around it: the configuration file, the HTTP server and the
  loop over the events.

What the library takes on trust is marked `external_body` or
`assume_specification`: the methods of `indexmap`'s `IndexSet` (`src/store.rs`),
a few functions of `hyper` (`src/http.rs`), the clock of the standard library
(`src/clock.rs`) and the hash of a string (`src/feeding.rs`).
