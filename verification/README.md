# raft

A replicated key-value store built on the Raft consensus algorithm, written
in Verus: the consensus logic and the storage engines are verified, and a
thin runtime around them does the I/O.

## Layout

- `src/raft_core/` — the Raft state machine.
  - `model.rs`: the mathematical state of a node (`NodeView`) and one spec
    function per event (RequestVote, AppendEntries, election, replies,
    commit, proposal).
  - `node.rs`: `RaftNode`, whose handlers are proved to follow the model
    exactly and to keep its well-formedness; each handler reports the
    outside work it needs (persist, reset the timer, apply, notify) as a list
    of `Effect`s.
  - `laws.rs`: properties across calls: log matching, idempotent
    AppendEntries, a committed prefix that the leader agrees with survives,
    one vote per node per term, stale messages refused, monotonic terms,
    commits only with a majority, an isolated leader cannot commit. A
    proposal is acknowledged only when its index is committed, a majority
    holds it and the proposed entry still stands there; a proposal whose
    entry is overwritten is told it failed.
  - `storage.rs`, `mem_storage.rs`: the `RaftStorage` contract (reads give
    back what was written) and an in-memory implementation.
- `src/kv_map.rs`: a string map that can list its entries.
- `src/log_line.rs`, `src/store.rs`, `src/client.rs`, `src/kv_store.rs`:
  the key-value stores, their `key:value` log format, replay and snapshot,
  with the recovery laws (replaying the log, or a snapshot and then the log,
  rebuilds the map).
- `src/command.rs`, `src/raft.rs`: the single-process demo node and the
  parser of its `set <key> <value>` commands.
- `app/`: the runtime (tokio actor, HTTP transport and API, files, CLI).
