# load_balancer

A multi-protocol (HTTP / TCP) load balancer whose selection logic is verified
with Verus.

- `src/lb/strategy/` — round robin, weighted round robin and least
  connections. Each strategy reads a snapshot of the pool (health flags,
  connection counts, weights) and a shared request counter, and hands them to
  a pure, verified pick function with an exact contract. The fairness laws
  (each healthy server once per round-robin turn; each server `weight` times
  per weighted turn) are proved there.
- `src/lb/balancer/` — `Server` and `LoadBalancer`, with path-based routing
  rules (ACLs) whose routing is specified and verified.
- `src/lb/net/` — the decisions of the health checker and the location of
  the request target in an HTTP request line.
- `src/config.rs` — the configuration types, the pool they describe and the
  names of algorithms and modes.
- `app/` — the program: reading `config.yml`, probing backends, accepting
  and relaying connections with tokio.
