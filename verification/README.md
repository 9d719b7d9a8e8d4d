# ce-drive-client

The client side of a shared drive, with its logic verified in Verus.

- `src/plan.rs`, `src/readplan.rs`: a read is answered with a plan of content-addressed chunks. The
  chunks are fetched one after the other, each is held against its content id, and the bytes are cut
  down to the requested range. `src/reassembly.rs` proves what a whole fetch gives.
- `src/snapshot.rs`, `src/mirror.rs`: a replica of a remote drive is set up from the drive's snapshot
  and brought up to date through the change feed. `src/convergence.rs` proves what a whole bootstrap
  or sync does to the replica.
- `app/`: the network calls. Each verified state machine says what to do next; the application does
  it and hands back what came of it.
