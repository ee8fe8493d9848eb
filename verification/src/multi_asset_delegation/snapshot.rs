//! Snapshots of the operators taken at each round change, and the stakes
//! they record per asset.
use super::pallet::MultiAssetDelegation;
use super::types::{
    AccountId, Balance, DelegatorBond, OperatorMetadataView, OperatorSnapshot,
    OperatorSnapshotView, RoundIndex,
};
use super::unstake::insert_key;
use crate::asset::Asset;
use crate::key_order::{asset_lt, key_lt, strictly_sorted};
use crate::keyed_map::{KeyedMap, MapKey};
use vstd::prelude::*;

verus! {

/// The sum of the first `n` bonds in `asset`, where each addition that
/// would overflow is skipped.
pub open spec fn stake_in_asset(ds: Seq<DelegatorBond>, asset: Asset, n: int) -> Balance
    decreases n,
{
    if n <= 0 {
        0
    } else {
        let prev = stake_in_asset(ds, asset, n - 1);
        if ds[n - 1].asset == asset && prev + ds[n - 1].amount <= u128::MAX {
            (prev + ds[n - 1].amount) as u128
        } else {
            prev
        }
    }
}

/// Assets in strictly increasing order.
pub open spec fn assets_sorted(s: Seq<(Asset, Balance)>) -> bool {
    forall|i: int, j: int| 0 <= i < j < s.len() ==> asset_lt(#[trigger] s[i].0, #[trigger] s[j].0)
}

/// Some bond is in `asset`.
pub open spec fn has_asset(ds: Seq<DelegatorBond>, asset: Asset) -> bool {
    exists|j: int| 0 <= j < ds.len() && (#[trigger] ds[j]).asset == asset
}

impl OperatorSnapshot {
    /// The stake delegated in `asset`; additions that would overflow are
    /// skipped.
    pub fn get_stake_by_asset_id(&self, asset: Asset) -> (r: Balance)
        ensures
            r == stake_in_asset(self.delegations@, asset, self.delegations@.len() as int),
    {
        let mut total: Balance = 0;
        let mut i: usize = 0;
        while i < self.delegations.len()
            invariant
                i <= self.delegations@.len(),
                total == stake_in_asset(self.delegations@, asset, i as int),
            decreases self.delegations@.len() - i,
        {
            let b = self.delegations[i];
            if b.asset.same(&asset) && total <= u128::MAX - b.amount {
                total = total + b.amount;
            }
            i = i + 1;
        }
        total
    }

    /// Every asset of the delegations, in asset order, with its stake.
    pub fn get_total_stake_by_assets(&self) -> (r: Vec<(Asset, Balance)>)
        ensures
            assets_sorted(r@),
            forall|a: Asset|
                (exists|i: int| 0 <= i < r@.len() && (#[trigger] r@[i]).0 == a) <==> has_asset(
                    self.delegations@,
                    a,
                ),
            forall|i: int|
                0 <= i < r@.len() ==> (#[trigger] r@[i]).1 == stake_in_asset(
                    self.delegations@,
                    r@[i].0,
                    self.delegations@.len() as int,
                ),
    {
        let ghost ds = self.delegations@;
        let mut keys: Vec<(AccountId, Asset)> = Vec::new();
        let mut i: usize = 0;
        while i < self.delegations.len()
            invariant
                ds == self.delegations@,
                i <= ds.len(),
                strictly_sorted(keys@),
                forall|x: int| 0 <= x < keys@.len() ==> (#[trigger] keys@[x]).0 == 0,
                forall|a: Asset|
                    keys@.contains((0u64, a)) <==> (exists|j: int|
                        0 <= j < i && (#[trigger] ds[j]).asset == a),
            decreases ds.len() - i,
        {
            let a = self.delegations[i].asset;
            let ghost old_keys = keys@;
            insert_key(&mut keys, (0, a));
            proof {
                assert forall|x: int| 0 <= x < keys@.len() implies (#[trigger] keys@[x]).0 == 0 by {
                    assert(keys@.contains(keys@[x]));
                    if keys@[x] != (0u64, a) {
                        let y = choose|y: int| 0 <= y < old_keys.len() && old_keys[y] == keys@[x];
                        assert(old_keys[y].0 == 0);
                    }
                }
                assert forall|b: Asset|
                    keys@.contains((0u64, b)) <==> (exists|j: int|
                        0 <= j < i + 1 && (#[trigger] ds[j]).asset == b) by {
                    if exists|j: int| 0 <= j < i + 1 && (#[trigger] ds[j]).asset == b {
                        let j = choose|j: int| 0 <= j < i + 1 && (#[trigger] ds[j]).asset == b;
                        if j < i {
                            assert(old_keys.contains((0u64, b)));
                        }
                    }
                    if keys@.contains((0u64, b)) && b != a {
                        assert(old_keys.contains((0u64, b)));
                    }
                    if b == a {
                        assert(ds[i as int].asset == b);
                    }
                }
            }
            i = i + 1;
        }
        let mut out: Vec<(Asset, Balance)> = Vec::new();
        let mut j: usize = 0;
        while j < keys.len()
            invariant
                ds == self.delegations@,
                j <= keys@.len(),
                out@.len() == j,
                forall|x: int| 0 <= x < j ==> (#[trigger] out@[x]).0 == keys@[x].1,
                forall|x: int|
                    0 <= x < j ==> (#[trigger] out@[x]).1 == stake_in_asset(
                        ds,
                        out@[x].0,
                        ds.len() as int,
                    ),
            decreases keys@.len() - j,
        {
            let a = keys[j].1;
            let s = self.get_stake_by_asset_id(a);
            out.push((a, s));
            j = j + 1;
        }
        proof {
            assert forall|x: int, y: int| 0 <= x < y < out@.len() implies asset_lt(
                #[trigger] out@[x].0,
                #[trigger] out@[y].0,
            ) by {
                assert(key_lt(keys@[x], keys@[y]));
                assert(keys@[x].0 == 0 && keys@[y].0 == 0);
            }
            assert forall|a: Asset|
                (exists|i: int| 0 <= i < out@.len() && (#[trigger] out@[i]).0 == a) <==> has_asset(
                    ds,
                    a,
                ) by {
                if exists|i: int| 0 <= i < out@.len() && (#[trigger] out@[i]).0 == a {
                    let x = choose|i: int| 0 <= i < out@.len() && (#[trigger] out@[i]).0 == a;
                    assert(keys@[x].0 == 0);
                    assert(keys@[x] == (0u64, a));
                    assert(keys@.contains((0u64, a)));
                }
                if has_asset(ds, a) {
                    assert(keys@.contains((0u64, a)));
                    let x = choose|x: int| 0 <= x < keys@.len() && keys@[x] == (0u64, a);
                    assert(out@[x].0 == a);
                }
            }
        }
        out
    }
}

/// `x` is among the first `n` keys.
pub open spec fn listed_before(ks: Seq<AccountId>, n: int, x: AccountId) -> bool {
    exists|j: int| 0 <= j < n && j < ks.len() && ks[j] == x
}

/// The snapshot of an operator record.
pub open spec fn snapshot_of(o: OperatorMetadataView) -> OperatorSnapshotView {
    OperatorSnapshotView { stake: o.stake, delegations: o.delegations }
}

/// The snapshots of round `round` after recording every operator.
pub open spec fn snapshots_taken(
    at_stake: Map<RoundIndex, Map<AccountId, OperatorSnapshotView>>,
    ops: Map<AccountId, OperatorMetadataView>,
    round: RoundIndex,
) -> Map<RoundIndex, Map<AccountId, OperatorSnapshotView>> {
    if ops.dom().len() == 0 {
        at_stake
    } else {
        let old_round = if at_stake.contains_key(round) {
            at_stake[round]
        } else {
            Map::empty()
        };
        at_stake.insert(
            round,
            Map::new(
                |k: AccountId| old_round.contains_key(k) || ops.contains_key(k),
                |k: AccountId|
                    if ops.contains_key(k) {
                        snapshot_of(ops[k])
                    } else {
                        old_round[k]
                    },
            ),
        )
    }
}

impl MultiAssetDelegation {
    /// Starts round `round`: makes it the current round and records a
    /// snapshot of every operator's stake and delegations for it.
    pub fn handle_round_change(&mut self, round: RoundIndex)
        ensures
            final(self).current_round == round,
            final(self).at_stake@ == snapshots_taken(old(self).at_stake@, old(self).operators@, round),
            final(self).config == old(self).config,
            final(self).block_number == old(self).block_number,
            final(self).operators@ == old(self).operators@,
            final(self).delegators@ == old(self).delegators@,
            final(self).ledger == old(self).ledger,
            final(self).events@ == old(self).events@,
    {
        self.current_round = round;
        let n = self.operators.len();
        if n == 0 {
            return;
        }
        let mut inner = match self.at_stake.remove(&round) {
            Some(m) => m,
            None => KeyedMap::new(),
        };
        let ghost ops = self.operators@;
        let ghost inner0 = inner@;
        let mut i: usize = 0;
        while i < n
            invariant
                n == self.operators.key_seq().len(),
                ops == self.operators@,
                self.operators.consistent(),
                i <= n,
                inner@ == Map::new(
                    |k: AccountId|
                        inner0.contains_key(k) || listed_before(self.operators.key_seq(), i as int, k),
                    |k: AccountId|
                        if listed_before(self.operators.key_seq(), i as int, k) {
                            snapshot_of(ops[k])
                        } else {
                            inner0[k]
                        },
                ),
            decreases n - i,
        {
            let k = self.operators.key_at(i);
            let m = self.operators.value_at(i);
            let snap = OperatorSnapshot {
                stake: m.stake,
                delegations: super::types::copy_bonds(&m.delegations),
            };
            inner.insert(k, snap);
            proof {
                let ks = self.operators.key_seq();
                assert forall|x: AccountId|
                    #[trigger] listed_before(ks, i as int + 1, x) == (listed_before(ks, i as int, x)
                        || x == k) by {
                    if x == k {
                        assert(ks[i as int] == x);
                    }
                    if listed_before(ks, i as int + 1, x) {
                        let j = choose|j: int| 0 <= j < i + 1 && j < ks.len() && ks[j] == x;
                        if j < i {
                            assert(listed_before(ks, i as int, x));
                        }
                    }
                }
                assert(inner@ =~= Map::new(
                    |x: AccountId| inner0.contains_key(x) || listed_before(ks, i as int + 1, x),
                    |x: AccountId|
                        if listed_before(ks, i as int + 1, x) {
                            snapshot_of(ops[x])
                        } else {
                            inner0[x]
                        },
                ));
            }
            i = i + 1;
        }
        proof {
            let ks = self.operators.key_seq();
            assert forall|x: AccountId| #[trigger] listed_before(ks, n as int, x) == ops.contains_key(
                x,
            ) by {
                if listed_before(ks, n as int, x) {
                    let j = choose|j: int| 0 <= j < n && j < ks.len() && ks[j] == x;
                    assert(ks.contains(x));
                    assert(ks.to_set().contains(x));
                }
                if ops.contains_key(x) {
                    assert(ops.dom().contains(x));
                    assert(ks.to_set().contains(x));
                    assert(ks.contains(x));
                }
            }
            let old_round = if old(self).at_stake@.contains_key(round) {
                old(self).at_stake@[round]
            } else {
                Map::empty()
            };
            assert(inner0 =~= old_round);
            assert(inner@ =~= Map::new(
                |k: AccountId| old_round.contains_key(k) || ops.contains_key(k),
                |k: AccountId|
                    if ops.contains_key(k) {
                        snapshot_of(ops[k])
                    } else {
                        old_round[k]
                    },
            ));
        }
        self.at_stake.insert(round, inner);
        proof {
            let ks = self.operators.key_seq();
            assert forall|x: AccountId| #[trigger] listed_before(ks, n as int, x) == ops.contains_key(
                x,
            ) by {
                if listed_before(ks, n as int, x) {
                    let j = choose|j: int| 0 <= j < n && j < ks.len() && ks[j] == x;
                    assert(ks.contains(x));
                    assert(ks.to_set().contains(x));
                }
                if ops.contains_key(x) {
                    assert(ops.dom().contains(x));
                    assert(ks.to_set().contains(x));
                    assert(ks.contains(x));
                }
            }
            assert(self.at_stake@ =~= snapshots_taken(old(self).at_stake@, ops, round));
        }
    }
}

} // verus!
