//! What the delegation pallet tells other pallets about operators,
//! delegations and deposits.
use super::pallet::MultiAssetDelegation;
use super::types::{AccountId, Balance, DelegatorBond, Deposit, DepositView, LockInfo, RoundIndex};
use crate::asset::{Asset, H160};
use crate::keyed_map::{KeyedMap, MapKey};
use vstd::prelude::*;

verus! {

/// A deposit with its locks, as other pallets see it.
#[derive(Debug)]
pub struct UserDepositWithLocks {
    /// The deposited amount.
    pub unlocked_amount: Balance,
    /// The locks on the deposit, if any.
    pub amount_with_locks: Option<Vec<LockInfo>>,
}

/// A kind of asset, as other pallets name it.
#[derive(Clone, Copy, Debug, PartialEq, Eq)]
pub enum AssetType {
    /// ERC20 tokens.
    Evm(H160),
    /// The network's own token.
    Tnt,
    /// A custom asset.
    Native(u64),
}

/// Whether `asset` is of kind `t`: ERC20 tokens for `Evm`, custom assets
/// otherwise.
pub open spec fn of_type(asset: Asset, t: AssetType) -> bool {
    match t {
        AssetType::Evm(_) => asset is Erc20,
        AssetType::Tnt => asset is Custom,
        AssetType::Native(_) => asset is Custom,
    }
}

/// The sum of the delegations in `asset` among the first `n` bonds.
pub open spec fn bonds_in_asset(ds: Seq<DelegatorBond>, asset: Asset, n: int) -> int
    decreases n,
{
    if n <= 0 {
        0
    } else {
        bonds_in_asset(ds, asset, n - 1) + if ds[n - 1].asset == asset {
            ds[n - 1].amount as int
        } else {
            0
        }
    }
}

/// The sum of the deposits of kind `t` among the first `n` stored deposits.
pub open spec fn deposits_of_type(
    keys: Seq<Asset>,
    deps: Map<Asset, DepositView>,
    t: AssetType,
    n: int,
) -> int
    decreases n,
{
    if n <= 0 {
        0
    } else {
        deposits_of_type(keys, deps, t, n - 1) + if of_type(keys[n - 1], t) {
            deps[keys[n - 1]].amount as int
        } else {
            0
        }
    }
}

proof fn lemma_bonds_in_asset_mono(ds: Seq<DelegatorBond>, asset: Asset, i: int, n: int)
    requires
        0 <= i <= n,
    ensures
        0 <= bonds_in_asset(ds, asset, i) <= bonds_in_asset(ds, asset, n),
    decreases n,
{
    if i < n {
        lemma_bonds_in_asset_mono(ds, asset, i, n - 1);
    } else if n > 0 {
        lemma_bonds_in_asset_mono(ds, asset, 0, n - 1);
    }
}

proof fn lemma_deposits_mono(keys: Seq<Asset>, deps: Map<Asset, DepositView>, t: AssetType, i: int, n: int)
    requires
        0 <= i <= n,
    ensures
        0 <= deposits_of_type(keys, deps, t, i) <= deposits_of_type(keys, deps, t, n),
    decreases n,
{
    if i < n {
        lemma_deposits_mono(keys, deps, t, i, n - 1);
    } else if n > 0 {
        lemma_deposits_mono(keys, deps, t, 0, n - 1);
    }
}

impl MultiAssetDelegation {
    /// The current round.
    pub fn get_current_round(&self) -> (r: RoundIndex)
        ensures
            r == self.current_round,
    {
        self.current_round
    }

    /// The self-stake of `operator`; zero for an account that is not one.
    pub fn get_operator_stake(&self, operator: AccountId) -> (r: Balance)
        ensures
            r == if self.operators@.contains_key(operator) {
                self.operators@[operator].stake
            } else {
                0
            },
    {
        match self.operators.get(&operator) {
            None => 0,
            Some(m) => m.stake,
        }
    }

    /// The sum of the delegations to `operator` in `asset`; zero for an
    /// account that is not an operator.
    pub fn get_total_delegation_by_asset(&self, operator: AccountId, asset: Asset) -> (r: Balance)
        requires
            self.operators@.contains_key(operator) ==> bonds_in_asset(
                self.operators@[operator].delegations,
                asset,
                self.operators@[operator].delegations.len() as int,
            ) <= u128::MAX,
        ensures
            r == if self.operators@.contains_key(operator) {
                bonds_in_asset(
                    self.operators@[operator].delegations,
                    asset,
                    self.operators@[operator].delegations.len() as int,
                )
            } else {
                0
            },
    {
        match self.operators.get(&operator) {
            None => 0,
            Some(m) => {
                let ghost ds = m.delegations@;
                let mut total: Balance = 0;
                let mut i: usize = 0;
                while i < m.delegations.len()
                    invariant
                        ds == m.delegations@,
                        i <= ds.len(),
                        bonds_in_asset(ds, asset, ds.len() as int) <= u128::MAX,
                        total == bonds_in_asset(ds, asset, i as int),
                    decreases ds.len() - i,
                {
                    proof {
                        lemma_bonds_in_asset_mono(ds, asset, i as int + 1, ds.len() as int);
                        lemma_bonds_in_asset_mono(ds, asset, 0, i as int);
                    }
                    let b = m.delegations[i];
                    if b.asset.same(&asset) {
                        total = total + b.amount;
                    }
                    i = i + 1;
                }
                total
            },
        }
    }

    /// The delegator, amount and asset of every delegation to `operator`,
    /// in order; none for an account that is not an operator.
    pub fn get_delegators_for_operator(&self, operator: AccountId) -> (r: Vec<
        (AccountId, Balance, Asset),
    >)
        ensures
            r@ == if self.operators@.contains_key(operator) {
                self.operators@[operator].delegations.map_values(
                    |b: DelegatorBond| (b.delegator, b.amount, b.asset),
                )
            } else {
                Seq::empty()
            },
    {
        match self.operators.get(&operator) {
            None => Vec::new(),
            Some(m) => {
                let ghost ds = m.delegations@;
                let mut out: Vec<(AccountId, Balance, Asset)> = Vec::new();
                let mut i: usize = 0;
                while i < m.delegations.len()
                    invariant
                        ds == m.delegations@,
                        i <= ds.len(),
                        out@ == ds.take(i as int).map_values(
                            |b: DelegatorBond| (b.delegator, b.amount, b.asset),
                        ),
                    decreases ds.len() - i,
                {
                    let b = m.delegations[i];
                    out.push((b.delegator, b.amount, b.asset));
                    proof {
                        assert(ds.take(i as int + 1) =~= ds.take(i as int).push(b));
                        assert(out@ =~= ds.take(i as int + 1).map_values(
                            |b: DelegatorBond| (b.delegator, b.amount, b.asset),
                        ));
                    }
                    i = i + 1;
                }
                proof {
                    assert(ds.take(ds.len() as int) =~= ds);
                }
                out
            },
        }
    }

    /// The deposit of `asset` by `who`, with its locks.
    pub fn get_user_deposit_with_locks(&self, who: AccountId, asset: Asset) -> (r: Option<
        UserDepositWithLocks,
    >)
        ensures
            ({
                let dels = self.delegators@;
                match r {
                    None => !dels.contains_key(who) || !dels[who].deposits.contains_key(asset),
                    Some(u) => dels.contains_key(who) && dels[who].deposits.contains_key(asset)
                        && u.unlocked_amount == dels[who].deposits[asset].amount && match u.amount_with_locks {
                        None => dels[who].deposits[asset].locks is None,
                        Some(l) => dels[who].deposits[asset].locks == Some(l@),
                    },
                }
            }),
    {
        match self.delegators.get(&who) {
            None => None,
            Some(m) => match m.deposits.get(&asset) {
                None => None,
                Some(d) => {
                    let locks = match &d.locks {
                        None => None,
                        Some(l) => {
                            let mut out: Vec<LockInfo> = Vec::new();
                            let mut i: usize = 0;
                            while i < l.len()
                                invariant
                                    i <= l@.len(),
                                    out@ == l@.take(i as int),
                                decreases l@.len() - i,
                            {
                                out.push(l[i]);
                                proof {
                                    assert(l@.take(i as int + 1) =~= l@.take(i as int).push(
                                        l@[i as int],
                                    ));
                                }
                                i = i + 1;
                            }
                            proof {
                                assert(l@.take(l@.len() as int) =~= l@);
                            }
                            Some(out)
                        },
                    };
                    Some(UserDepositWithLocks { unlocked_amount: d.amount, amount_with_locks: locks })
                },
            },
        }
    }

    /// The total deposited by `who` in assets of kind `t`, summed over the
    /// deposits in their stored order; `None` where that total is zero or
    /// `who` has no record.
    pub fn get_user_deposit_by_asset_type(&self, who: AccountId, t: AssetType) -> (r: Option<Balance>)
        requires
            self.delegators@.contains_key(who) ==> deposits_of_type(
                self.delegators.stored(who).deposits.key_seq(),
                self.delegators@[who].deposits,
                t,
                self.delegators.stored(who).deposits.key_seq().len() as int,
            ) <= u128::MAX,
        ensures
            ({
                let total = deposits_of_type(
                    self.delegators.stored(who).deposits.key_seq(),
                    self.delegators@[who].deposits,
                    t,
                    self.delegators.stored(who).deposits.key_seq().len() as int,
                );
                &&& !self.delegators@.contains_key(who) ==> r is None
                &&& self.delegators@.contains_key(who) ==> r == if total == 0 {
                    None::<Balance>
                } else {
                    Some(total as u128)
                }
            }),
    {
        match self.delegators.get(&who) {
            None => None,
            Some(m) => {
                let deps: &KeyedMap<Asset, Deposit> = &m.deposits;
                let n = deps.len();
                let ghost keys = deps.key_seq();
                let mut total: Balance = 0;
                let mut i: usize = 0;
                while i < n
                    invariant
                        n == keys.len(),
                        keys == deps.key_seq(),
                        deps.consistent(),
                        i <= n,
                        deposits_of_type(keys, deps@, t, n as int) <= u128::MAX,
                        total == deposits_of_type(keys, deps@, t, i as int),
                    decreases n - i,
                {
                    proof {
                        lemma_deposits_mono(keys, deps@, t, i as int + 1, n as int);
                        lemma_deposits_mono(keys, deps@, t, 0, i as int);
                    }
                    let a = deps.key_at(i);
                    let d = deps.value_at(i);
                    let matching = match t {
                        AssetType::Evm(_) => a.is_erc20(),
                        AssetType::Tnt => a.is_custom(),
                        AssetType::Native(_) => a.is_custom(),
                    };
                    if matching {
                        total = total + d.amount;
                    }
                    i = i + 1;
                }
                if total == 0 {
                    None
                } else {
                    Some(total)
                }
            },
        }
    }
}

} // verus!
