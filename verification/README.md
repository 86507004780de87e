# replication_engine

Set reconciliation between replicas of a key-value store, with the decision
logic of each protocol written in Verus and proved against its contracts.

## Layout

- `src/` — the verified library.
  - `bytes`, `kv`: byte encodings and orders; key-value entries kept sorted by key.
  - `wire`: protocol wire identifiers and the 16-byte packet header.
  - `connection`: node addresses, the initiator rule between two nodes, routing.
  - `bloom`, `bitvec_specs`, `std_hash`: the Bloom filter used by the RBF pre-pass.
  - `ribbon`: ribbon filter parameters, construction, and queries.
  - `merkle`: the binary Merkle tree, its snapshots, and the sync session logic.
  - `rbf`, `rf`: per-neighbour session state machines of the Bloom-filter and
    ribbon-filter pre-passes, their messages, and the filter codec.
  - `dsl`: the node builder, resolved into a plan of nodes and services.
  - `protocols`: deserializer shells, membership, similarity, node configuration.
- `app/` — what runs around the library: async drivers that perform I/O and
  feed events to the session state machines, serde/bincode and rkyv wire
  types, floating-point filter sizing, and error types.
- `tests/` — tests of the library's public interface.

Laws of the library (packet round trip, filter round trips, no false
negatives, tree determinism, last-writer-wins dominance, and others) are
public proof functions next to the code they speak of.
