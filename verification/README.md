# p2p_node

A node of a peer-to-peer query grid: it runs queries on its own engine or has them
run by other nodes, holds the answers against each other, and pays for them.

* `src/` is the library. The node's decisions stand there with contracts
  that Verus proves, but for those that need floating point: routing and admission, selection and judgement of providers,
  settlement, size estimates, result transfer, storage access, the overlay's
  reactions. Calls into other crates go through small functions marked
  `external_body`; their doc comments say what is believed of each.
* `tests/` exercises the library as a caller would.
* `app/` is ordinary Rust around it: the swarm, the transport, files, the clock,
  and the scores that need floating point.

Where something outside decides (a clock, a signature, a score, a peer), the
library's functions take the result as an argument and state what follows from it.
