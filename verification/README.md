# vertex_topology

The topology of a Swarm node: which peers it knows, which it dials, which it
keeps, and what it tells others about itself.

`src/` is the library. Its functions state what they return or change, and the
statements are proved with Verus. Three functions of `runtime/entropy` promise
nothing of their result, which is up to the operating system's entropy source:
`crypto_rng`, `try_crypto_rng` and `non_crypto_rng`. Calls into other crates
state what is taken on trust of them.

- `kademlia/`: the depth-aware routing table. `limits` allocates peers to bins,
  `candidates` and `candidate_queues` choose whom to dial, `capacity` counts
  connections by phase, `phase` and `routing` follow the neighborhood depth,
  `trim`, `eviction` and `saturation` choose whom to drop, `peer_selection` and
  `nearest` choose whom to tell whom about.
- `routing/`: the watermark-based routing table.
- `reachability`, `nat_discovery`, `readiness`, `profile`: what the node knows
  of its peers' and its own reachability, when it is ready, and how fast it
  connects.
- `protocol`, `protocol_handlers`, `events`, `service`, `metrics`: what happens
  when a stream opens, a handshake ends, a ping returns or peers are gossiped
  about, and what is left to do then.
- `swarmspec/`: networks, their chain, token, contracts and hardforks.
- `tasks/`, `runtime/`, `time`: intervals, shutdown counts, clocks and entropy.
- `primitives`, `arith`, `error`: addresses, bins and what the rest shares.

The clock is an argument: a function that depends on the time takes the instant
it is called at.

`app/` is the runtime around the library: command line, files, timers, tasks,
protocol events and exported metrics. `tests/` runs the library, `tests/sim.rs`
a simulated network around the routing table.
