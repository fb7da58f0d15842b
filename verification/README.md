# chain_storage

The key-value state of a chain, verified with Verus.

A `State` is a reference to the chain state, which all states of a chain share
behind a `parking_lot::RwLock`, and a cache of its own for the changes of the
current block. Reads go through the cache; a commit hands the changes to the
store of the chain state as one batch and clears the cache.

- `src/state/mod.rs`: `State`, and what each request to it may answer.
- `src/state/cache.rs`: `SessionedCache`, the pending changes of a block, with a
  session that can be committed or discarded.
- `src/state/chain_state.rs`: `ChainState`, the shared part, kept in a store.
- `src/state/visitor.rs`: walks over a range, and which calls a walk makes.
- `src/state/lock.rs`: the calls of the lock, whose contracts are trusted.
- `src/state/laws.rs`: what holds of several requests taken together.
- `src/db/`: the trait `MerkleDB` that a store implements, the model that its
  contracts speak of, and `MemoryDB`, a store in memory.
- `src/byte_map.rs`, `src/listing.rs`, `src/bytes.rs`: maps keyed by byte
  strings, in the order of their keys.

Each request that takes the lock has a counterpart that is given the chain state
(`get_from`, `exists_in`, `delete_from`, `commit_to`, and the methods of
`ChainState`). The counterpart says exactly what comes out for every chain
state; the request itself says that this is so for some chain state, since the
other holders of the lock decide which one it meets.
