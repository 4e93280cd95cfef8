# mykv

A key-value store built on the Raft consensus algorithm. The library in
`src/` holds the logic, verified with Verus; `app/` is the binary that runs
it over gRPC.

## Layout

- `src/raft_rpc.rs`: log entries, hard state, snapshots and messages.
- `src/storage.rs`: the in-memory log storage (`MemStorageInner`), with its
  transitions as spec functions and the laws that relate them (a snapshot
  taken right after one is applied gives it back; appending, compacting and
  committing keep a log of consecutive entries consistent).
- `src/raft_node.rs`: the Raft state machine of one node. `step` is specified
  by `NodeModel::steps_to`; the laws state that a step keeps the term and
  log, that a node votes at most once, that queued messages carry the right
  term, that a leader's `Beat` reaches each other node exactly once, and
  that two majorities of one network share a member.
- `src/raft_manager.rs`: the node together with its last recorded state;
  `ready` hands out what changed and the queued messages.
- `src/raft.rs`: the decisions of the driving loop (ticking, routing of
  outgoing messages, retries of sends and connections).
- `src/raft_service.rs`: the decisions of a node that serves elections
  directly (wait, gather votes, send heartbeats).
- `src/rpc_raft.rs`, `src/mykv_raft.rs`: nodes driven by explicit
  AppendEntries and RequestVote calls; accepted entries land right after
  `prevLogIndex`, and a repeated call adds nothing.
- `src/btree.rs`: an in-memory B+ tree: searches descend to a leaf, and a
  stored key is found again. Leaves are not split.
- `app/`: command line, tokio loop, gRPC client and server.
