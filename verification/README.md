# quilt_mesh

The decisions of a cluster-management layer, written in Verus and proved: an
orchestrator that plans and dispatches elasticity actions, and a node agent that
joins a cluster and keeps its overlay network in step.

- `src/` is the verified library. It computes on plain values and on its own
  tables; it reads no clock, no file and no socket. `src/lib.rs` says what each
  module is for.
- `tests/` runs the library: examples of each law, the edge cases, and the
  numbers against floating point.
- `app/` is ordinary Rust around the library: the command line, SQLite, HTTP,
  gRPC and netlink, and the floating-point arithmetic.

What is proved rests on a few statements about other crates, each at a function
marked `external_body` with a comment that names the outside function:
`serde_json` reads and prints documents (`json`), `sha2` and `hex` make
idempotency keys (`keys`), `uuid` draws ids (`queue`), and `rand` draws a node
(`scheduler`).

Times are seconds since 1970, and are passed in. Floating-point numbers are
carried by their bits and compared, never computed with.
