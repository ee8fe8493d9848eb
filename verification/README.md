# tangle_pallets

The logic of Tangle's restaking pallets as a library whose behaviour is
stated in `requires`/`ensures` contracts and proved with Verus.

- `src/multi_asset_delegation/`: operators, deposits and withdrawals,
  delegations (of deposits and of nominated stake), unstaking, slashing,
  round snapshots, reward vaults and the delegator record migration.
- `src/orderbook/`: the order book of compute resources: placing, matching,
  filling and cancelling orders, operator registration, and the
  consistency of the order lists with the orders, which every call keeps.
- `src/restaking_delegation/`: choosing the operators of a round and
  splitting an operator's reward among its delegators.
- `src/parachain_staking/`: scheduling, cancelling and executing delegation
  requests.
- `src/jobs/`: job ids, validator job lookups, rewards, the submission of
  jobs, the settlement of submitted results, the removal of a validator
  from a submitted job (also on a report of its inactivity), the read-only
  queries and the RPC client handle.
- `src/oracle.rs`: the median combination of reported values.
- `src/ledger.rs`, `src/keyed_map.rs`, `src/asset.rs`: the balances, the
  ordered map and the asset identifiers the pallets share.
- `src/percent.rs`: percentages and parts per billion computed by
  `sp_arithmetic`.
- `laws.rs` files: properties that relate several calls, as proof functions.
- `app/`: the SCALE storage layout of delegator records and the runtime
  upgrade that decodes old records.
- `tests/`: scenarios on concrete values.
