# raft_kv

A key-value store replicated with the Raft consensus algorithm.

- `src/` is the verified library. `storage` is the in-memory store (a
  `DashMap`); `raft` holds a node's state machine: answering vote and
  append requests, elections, building replication requests, committing what
  a majority holds and applying committed commands. Each transition is given
  as a spec function over `RaftNodeView`, and each method's contract says the
  node moves by it. `raft::laws` states and proves the properties that span
  transitions: one vote per term (unless an election of its own is concluded
  after the node moved to a later term), terms never decrease, a
  follower accepts entries only after an entry that matches the leader's, a
  leader commits only entries of its current term that a majority holds, and
  the store is what was applied, so a committed write is read back. These are
  properties of one node's steps, not of a whole cluster. `api` builds the
  answers of the HTTP interface; `error` is the error type.
- `app/` runs a node: timers, HTTP (axum, reqwest), the serde forms of the
  messages, and the command-line client (run the binary as `raft-kv-client`).
- `tests/` exercises the library on concrete clusters.
