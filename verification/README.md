# charli3-oracle-core

The logic of a price oracle whose nodes run on a Substrate chain and report to Cardano, written and
verified in Verus.

- `src/aggregation`: medians, quantiles and outlier filtering over exact fractions.
- `src/encoding`: the CBOR of messages for Cardano, and its hash.
- `src/pallet`: the oracle pallet. Prices, consensus at the end of a block, the staking, slashing and
  withdrawal of nodes, and the messages that nodes sign. `laws.rs` and `consensus_laws.rs` state what
  all calls keep.
- `src/oracle`: an oracle pallet whose nodes do not stake.
- `src/staking_participation`: how operators join, stake, retire and are slashed.
- `src/price_providers`: prices from HTTP responses and from a cache.
- `src/bounded.rs`, `src/sorted_map.rs`, `src/model.rs`: bounded lists, ordered maps and the
  mathematical models that contracts are stated over.
- `app`: the pallets' storage and calls on a FRAME runtime, the node's configuration as JSON, and the
  HTTP price provider.
- `tests`: tests of the library.

Calls work on a plain `Pallet` value. A refused call leaves it unchanged, and every contract says
which calls are refused and why. Functions of outside crates are called through small wrappers, each
with a comment on what is taken for granted of them.
