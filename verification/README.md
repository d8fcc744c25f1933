# lazily

Reactive boundary planes, verified with Verus: ingress with fencing, reordering and
backpressure; egress with claims, acknowledgements and retries; latest-value durable
projections; a boundary that joins a snapshot with a hot stream; broadcast topics; leased
work queues; keyed reactive families and trees; decision tables; timers and revision
barriers.

Each plane has a core without a graph (`*_core`, `*_model`, `*_types`), a shell that gives it
reactive readers on a context (`*_shell`), thin cells for the plain, thread-safe and
asynchronous contexts, and its laws (`*_laws`). `graph` is the slot ledger that every shell
stands on; contracts speak of it as `Ledger`. `egress_line` holds the transports that are
attached to an egress cell and runs them with the transitions that make them due; the maps of
`*_reactive_family` keep the factory of a derived entry until the entry is read.

- `src/` is the library. Every item is verified but the two calls into `serde_json` in
  `json_line`, whose contracts are stated there.
- `tests/` runs it.
- `app/` is the interop peer on standard input and output, and what needs a clock, a lock or
  a thread around the library.
