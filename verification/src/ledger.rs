//! The balances that the pallets move: the native currency (free, reserved
//! and locked per account), custom assets per holder, and ERC20 tokens per
//! holder address.
use crate::asset::H160;
use crate::keyed_map::{KeyedMap, MapKey};
use vstd::prelude::*;

verus! {

/// The balance that a map records for a key; zero where it records none.
pub open spec fn bal<K>(m: Map<K, u128>, k: K) -> int {
    if m.contains_key(k) {
        m[k] as int
    } else {
        0
    }
}

/// The balances after moving `amount` from `from` to `to`.
pub open spec fn moved<K>(m: Map<K, u128>, from: K, to: K, amount: u128) -> Map<K, u128> {
    if from == to {
        m
    } else {
        m.insert(from, (bal(m, from) - amount) as u128).insert(to, (bal(m, to) + amount) as u128)
    }
}

/// A holder of a custom asset.
#[derive(Clone, Copy, Debug, PartialEq, Eq)]
pub struct AssetHolder {
    pub asset: u64,
    pub who: u64,
}

impl MapKey for AssetHolder {
    fn same(&self, other: &Self) -> (r: bool) {
        self.asset == other.asset && self.who == other.who
    }
}

/// A holder of an ERC20 token.
#[derive(Clone, Copy, Debug, PartialEq, Eq)]
pub struct TokenHolder {
    pub token: H160,
    pub holder: H160,
}

impl MapKey for TokenHolder {
    fn same(&self, other: &Self) -> (r: bool) {
        self.token.same(&other.token) && self.holder.same(&other.holder)
    }
}

/// Why a balance operation was refused.
#[derive(Clone, Copy, Debug, PartialEq, Eq)]
pub enum LedgerError {
    /// The balance does not cover the amount.
    InsufficientBalance,
    /// The receiving balance would overflow.
    Overflow,
}

/// The balance of `k`, zero where there is none.
pub fn balance_of<K: MapKey>(m: &KeyedMap<K, u128>, k: &K) -> (r: u128)
    ensures
        r == bal(m@, *k),
{
    match m.get(k) {
        Some(v) => *v,
        None => 0,
    }
}

/// Moves `amount` from `from` to `to` within one balance map.
fn move_balance<K: MapKey>(m: &mut KeyedMap<K, u128>, from: K, to: K, amount: u128) -> (r: Result<
    (),
    LedgerError,
>)
    ensures
        r is Ok <==> bal(old(m)@, from) >= amount && (from == to || bal(old(m)@, to) + amount
            <= u128::MAX),
        r is Err ==> final(m)@ == old(m)@,
        r == Err::<(), LedgerError>(LedgerError::InsufficientBalance) <==> bal(old(m)@, from)
            < amount,
        r is Ok ==> final(m)@ == moved(old(m)@, from, to, amount),
{
    let fb = balance_of(m, &from);
    if fb < amount {
        return Err(LedgerError::InsufficientBalance);
    }
    if from.same(&to) {
        return Ok(());
    }
    let tb = balance_of(m, &to);
    if tb > u128::MAX - amount {
        return Err(LedgerError::Overflow);
    }
    m.insert(from, fb - amount);
    m.insert(to, tb + amount);
    Ok(())
}

/// The balances of all accounts, in the native currency and in assets.
#[derive(Debug)]
pub struct Ledger {
    /// Free native balance.
    pub free: KeyedMap<u64, u128>,
    /// Reserved native balance.
    pub reserved: KeyedMap<u64, u128>,
    /// The delegation lock on native balance.
    pub locks: KeyedMap<u64, u128>,
    /// Custom asset balances.
    pub assets: KeyedMap<AssetHolder, u128>,
    /// ERC20 token balances.
    pub tokens: KeyedMap<TokenHolder, u128>,
}

impl Ledger {
    pub fn new() -> (r: Ledger)
        ensures
            r.free@ == Map::<u64, u128>::empty(),
            r.reserved@ == Map::<u64, u128>::empty(),
            r.locks@ == Map::<u64, u128>::empty(),
            r.assets@ == Map::<AssetHolder, u128>::empty(),
            r.tokens@ == Map::<TokenHolder, u128>::empty(),
    {
        Ledger {
            free: KeyedMap::new(),
            reserved: KeyedMap::new(),
            locks: KeyedMap::new(),
            assets: KeyedMap::new(),
            tokens: KeyedMap::new(),
        }
    }

    /// The free native balance of `who`.
    pub fn free_balance(&self, who: u64) -> (r: u128)
        ensures
            r == bal(self.free@, who),
    {
        balance_of(&self.free, &who)
    }

    /// The reserved native balance of `who`.
    pub fn reserved_balance(&self, who: u64) -> (r: u128)
        ensures
            r == bal(self.reserved@, who),
    {
        balance_of(&self.reserved, &who)
    }

    /// Credits `amount` of native currency to `who`, saturating.
    pub fn deposit_creating(&mut self, who: u64, amount: u128)
        ensures
            final(self).free@ == old(self).free@.insert(
                who,
                (if bal(old(self).free@, who) + amount > u128::MAX {
                    u128::MAX as int
                } else {
                    bal(old(self).free@, who) + amount
                }) as u128,
            ),
            final(self).reserved@ == old(self).reserved@,
            final(self).locks@ == old(self).locks@,
            final(self).assets@ == old(self).assets@,
            final(self).tokens@ == old(self).tokens@,
    {
        let b = balance_of(&self.free, &who);
        self.free.insert(who, b.saturating_add(amount));
    }

    /// Moves `amount` of `who`'s free balance into reserve.
    pub fn reserve(&mut self, who: u64, amount: u128) -> (r: Result<(), LedgerError>)
        ensures
            r is Ok <==> bal(old(self).free@, who) >= amount && bal(old(self).reserved@, who)
                + amount <= u128::MAX,
            r == Err::<(), LedgerError>(LedgerError::InsufficientBalance) <==> bal(
                old(self).free@,
                who,
            ) < amount,
            r is Err ==> final(self).free@ == old(self).free@ && final(self).reserved@ == old(
                self,
            ).reserved@,
            r is Ok ==> final(self).free@ == old(self).free@.insert(
                who,
                (bal(old(self).free@, who) - amount) as u128,
            ) && final(self).reserved@ == old(self).reserved@.insert(
                who,
                (bal(old(self).reserved@, who) + amount) as u128,
            ),
            final(self).locks@ == old(self).locks@,
            final(self).assets@ == old(self).assets@,
            final(self).tokens@ == old(self).tokens@,
    {
        let f = balance_of(&self.free, &who);
        if f < amount {
            return Err(LedgerError::InsufficientBalance);
        }
        let rs = balance_of(&self.reserved, &who);
        if rs > u128::MAX - amount {
            return Err(LedgerError::Overflow);
        }
        self.free.insert(who, f - amount);
        self.reserved.insert(who, rs + amount);
        Ok(())
    }

    /// Moves up to `amount` of `who`'s reserve back to the free balance;
    /// returns the part of `amount` that could not be unreserved.
    pub fn unreserve(&mut self, who: u64, amount: u128) -> (r: u128)
        ensures
            ({
                let moved = if amount <= bal(old(self).reserved@, who) {
                    amount as int
                } else {
                    bal(old(self).reserved@, who)
                };
                &&& r == amount - moved
                &&& final(self).reserved@ == old(self).reserved@.insert(
                    who,
                    (bal(old(self).reserved@, who) - moved) as u128,
                )
                &&& final(self).free@ == old(self).free@.insert(
                    who,
                    (if bal(old(self).free@, who) + moved > u128::MAX {
                        u128::MAX as int
                    } else {
                        bal(old(self).free@, who) + moved
                    }) as u128,
                )
            }),
            final(self).locks@ == old(self).locks@,
            final(self).assets@ == old(self).assets@,
            final(self).tokens@ == old(self).tokens@,
    {
        let rs = balance_of(&self.reserved, &who);
        let moved = if amount <= rs {
            amount
        } else {
            rs
        };
        self.reserved.insert(who, rs - moved);
        let f = balance_of(&self.free, &who);
        self.free.insert(who, f.saturating_add(moved));
        amount - moved
    }

    /// Transfers `amount` of free native currency from `from` to `to`.
    pub fn transfer(&mut self, from: u64, to: u64, amount: u128) -> (r: Result<(), LedgerError>)
        ensures
            r is Ok <==> bal(old(self).free@, from) >= amount && (from == to || bal(
                old(self).free@,
                to,
            ) + amount <= u128::MAX),
            r == Err::<(), LedgerError>(LedgerError::InsufficientBalance) <==> bal(
                old(self).free@,
                from,
            ) < amount,
            r is Err ==> final(self).free@ == old(self).free@,
            r is Ok ==> final(self).free@ == moved(old(self).free@, from, to, amount),
            final(self).reserved@ == old(self).reserved@,
            final(self).locks@ == old(self).locks@,
            final(self).assets@ == old(self).assets@,
            final(self).tokens@ == old(self).tokens@,
    {
        move_balance(&mut self.free, from, to, amount)
    }

    /// Sets the delegation lock of `who` to `amount`.
    pub fn set_lock(&mut self, who: u64, amount: u128)
        ensures
            final(self).locks@ == old(self).locks@.insert(who, amount),
            final(self).free@ == old(self).free@,
            final(self).reserved@ == old(self).reserved@,
            final(self).assets@ == old(self).assets@,
            final(self).tokens@ == old(self).tokens@,
    {
        self.locks.insert(who, amount);
    }

    /// Removes the delegation lock of `who`.
    pub fn remove_lock(&mut self, who: u64)
        ensures
            final(self).locks@ == old(self).locks@.remove(who),
            final(self).free@ == old(self).free@,
            final(self).reserved@ == old(self).reserved@,
            final(self).assets@ == old(self).assets@,
            final(self).tokens@ == old(self).tokens@,
    {
        self.locks.remove(&who);
    }

    /// The balance of custom asset `asset` held by `who`.
    pub fn asset_balance(&self, asset: u64, who: u64) -> (r: u128)
        ensures
            r == bal(self.assets@, AssetHolder { asset, who }),
    {
        balance_of(&self.assets, &AssetHolder { asset, who })
    }

    /// Credits `amount` of custom asset `asset` to `who`, saturating.
    pub fn mint_asset(&mut self, asset: u64, who: u64, amount: u128)
        ensures
            ({
                let k = AssetHolder { asset, who };
                final(self).assets@ == old(self).assets@.insert(
                    k,
                    (if bal(old(self).assets@, k) + amount > u128::MAX {
                        u128::MAX as int
                    } else {
                        bal(old(self).assets@, k) + amount
                    }) as u128,
                )
            }),
            final(self).free@ == old(self).free@,
            final(self).reserved@ == old(self).reserved@,
            final(self).locks@ == old(self).locks@,
            final(self).tokens@ == old(self).tokens@,
    {
        let k = AssetHolder { asset, who };
        let b = balance_of(&self.assets, &k);
        self.assets.insert(k, b.saturating_add(amount));
    }

    /// Transfers `amount` of custom asset `asset` from `from` to `to`.
    pub fn asset_transfer(&mut self, asset: u64, from: u64, to: u64, amount: u128) -> (r: Result<
        (),
        LedgerError,
    >)
        ensures
            ({
                let kf = AssetHolder { asset, who: from };
                let kt = AssetHolder { asset, who: to };
                &&& r is Ok <==> bal(old(self).assets@, kf) >= amount && (from == to || bal(
                    old(self).assets@,
                    kt,
                ) + amount <= u128::MAX)
                &&& r == Err::<(), LedgerError>(LedgerError::InsufficientBalance) <==> bal(
                    old(self).assets@,
                    kf,
                ) < amount
                &&& r is Err ==> final(self).assets@ == old(self).assets@
                &&& r is Ok ==> final(self).assets@ == moved(old(self).assets@, kf, kt, amount)
            }),
            final(self).free@ == old(self).free@,
            final(self).reserved@ == old(self).reserved@,
            final(self).locks@ == old(self).locks@,
            final(self).tokens@ == old(self).tokens@,
    {
        move_balance(
            &mut self.assets,
            AssetHolder { asset, who: from },
            AssetHolder { asset, who: to },
            amount,
        )
    }

    /// The balance of ERC20 token `token` held by `holder`.
    pub fn token_balance(&self, token: H160, holder: H160) -> (r: u128)
        ensures
            r == bal(self.tokens@, TokenHolder { token, holder }),
    {
        balance_of(&self.tokens, &TokenHolder { token, holder })
    }

    /// Credits `amount` of ERC20 token `token` to `holder`, saturating.
    pub fn mint_token(&mut self, token: H160, holder: H160, amount: u128)
        ensures
            ({
                let k = TokenHolder { token, holder };
                final(self).tokens@ == old(self).tokens@.insert(
                    k,
                    (if bal(old(self).tokens@, k) + amount > u128::MAX {
                        u128::MAX as int
                    } else {
                        bal(old(self).tokens@, k) + amount
                    }) as u128,
                )
            }),
            final(self).free@ == old(self).free@,
            final(self).reserved@ == old(self).reserved@,
            final(self).locks@ == old(self).locks@,
            final(self).assets@ == old(self).assets@,
    {
        let k = TokenHolder { token, holder };
        let b = balance_of(&self.tokens, &k);
        self.tokens.insert(k, b.saturating_add(amount));
    }

    /// An ERC20 `transfer` of `amount` from `from` to `to`; true where it succeeded.
    pub fn token_transfer(&mut self, token: H160, from: H160, to: H160, amount: u128) -> (r: bool)
        ensures
            ({
                let kf = TokenHolder { token, holder: from };
                let kt = TokenHolder { token, holder: to };
                &&& r <==> bal(old(self).tokens@, kf) >= amount && (from == to || bal(
                    old(self).tokens@,
                    kt,
                ) + amount <= u128::MAX)
                &&& !r ==> final(self).tokens@ == old(self).tokens@
                &&& r ==> final(self).tokens@ == moved(old(self).tokens@, kf, kt, amount)
            }),
            final(self).free@ == old(self).free@,
            final(self).reserved@ == old(self).reserved@,
            final(self).locks@ == old(self).locks@,
            final(self).assets@ == old(self).assets@,
    {
        let r = move_balance(
            &mut self.tokens,
            TokenHolder { token, holder: from },
            TokenHolder { token, holder: to },
            amount,
        );
        r.is_ok()
    }
}

impl Ledger {
    /// A copy of all balances.
    pub fn duplicate(&self) -> (r: Ledger)
        ensures
            r.free@ == self.free@,
            r.reserved@ == self.reserved@,
            r.locks@ == self.locks@,
            r.assets@ == self.assets@,
            r.tokens@ == self.tokens@,
    {
        Ledger {
            free: self.free.duplicate(),
            reserved: self.reserved.duplicate(),
            locks: self.locks.duplicate(),
            assets: self.assets.duplicate(),
            tokens: self.tokens.duplicate(),
        }
    }
}

/// A transfer between two holders keeps the sum of their balances, and
/// leaves every other balance alone.
pub proof fn law_transfer_conserves<K>(m: Map<K, u128>, from: K, to: K, amount: u128, other: K)
    requires
        bal(m, from) >= amount,
        from == to || bal(m, to) + amount <= u128::MAX,
    ensures
        bal(moved(m, from, to, amount), from) + bal(moved(m, from, to, amount), to) == if from == to {
            2 * bal(m, from)
        } else {
            bal(m, from) + bal(m, to)
        },
        other != from && other != to ==> bal(moved(m, from, to, amount), other) == bal(m, other),
{
}

} // verus!
