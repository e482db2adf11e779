# simulacra

A deterministic discrete-event simulator for messages that travel across computer
networks, written in Rust and verified with Verus. The same seed, topology, node code
and inputs always lead to the same run and the same trace.

- `src/` is the library. Every public function states in its contract what it returns and
  changes, and Verus proves it.
  - `time`, `queue`, `sim`, `rng`, `trace`: the kernel. Simulated time is a count of
    nanoseconds, events that are due at the same time are processed in the order in
    which they were scheduled, and all randomness comes from a seeded ChaCha8
    generator.
  - `net`: topologies with shortest-path routing and failures, latency models,
    bandwidth, buffers and drop policies, and network simulations with or without a
    trace. `net::routing`, `net::consistency`, `net::conservation` and `net::laws` state
    what holds of all routes and of all runs.
  - `task`: simulations whose nodes are tasks that sleep, receive and send, driven step
    by step. `task::laws` states what holds of all such runs.
  - `scenario`, `parallel`: prepared runs, and many runs over a range of seeds.
- `app/` is ordinary Rust around the library: asynchronous tasks, threads,
  floating-point parameters, and traces in JSON.
- `tests/` runs the library.

What the library takes on trust are the draws of the `rand` and `rand_chacha` crates
(`src/rng.rs`), and two functions of the standard library that exchange the elements of
a slice and copy a hash set.
