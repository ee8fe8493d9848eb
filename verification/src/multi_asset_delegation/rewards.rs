//! Reward vaults and the distribution of rewards over the delegations
//! recorded for a round.
use super::pallet::{Error, MultiAssetDelegation};
use super::types::{AccountId, Balance, DelegatorBond, OperatorSnapshotView, RoundIndex};
use crate::asset::Asset;
use crate::keyed_map::{KeyedMap, MapKey};
use crate::ledger::bal;
use crate::percent::{clamped_percent, percent_mul_floor};
use vstd::prelude::*;

verus! {

/// The id of a reward vault.
pub type VaultId = u64;

/// The reward terms of a vault: the yearly rate and the total delegation
/// from which rewards are paid.
#[derive(Clone, Copy, Debug, PartialEq, Eq)]
pub struct RewardConfigForAssetVault {
    /// The yearly rate, in percent.
    pub apy: u8,
    /// The total delegation from which rewards are paid.
    pub cap: Balance,
}

impl View for RewardConfigForAssetVault {
    type V = RewardConfigForAssetVault;

    open spec fn view(&self) -> RewardConfigForAssetVault {
        *self
    }
}

/// The reward terms of every vault.
#[derive(Debug)]
pub struct RewardConfig {
    /// The terms, by vault.
    pub configs: KeyedMap<VaultId, RewardConfigForAssetVault>,
    /// The blueprints whose services are rewarded.
    pub whitelisted_blueprint_ids: Vec<u32>,
}

/// Whether an asset is to be added to a vault or removed from it.
#[derive(Clone, Copy, Debug, PartialEq, Eq)]
pub enum AssetAction {
    Add,
    Remove,
}

/// The storage of the reward system.
#[derive(Debug)]
pub struct RewardStorage {
    /// The assets of each vault.
    pub reward_vaults: KeyedMap<VaultId, Vec<Asset>>,
    /// The vault of each asset.
    pub asset_lookup_reward_vaults: KeyedMap<Asset, VaultId>,
    /// The reward terms, once set.
    pub reward_config: Option<RewardConfig>,
}

/// `s` without any occurrence of `a`.
pub open spec fn without(s: Seq<Asset>, a: Asset) -> Seq<Asset>
    decreases s.len(),
{
    if s.len() == 0 {
        s
    } else if s.last() == a {
        without(s.drop_last(), a)
    } else {
        without(s.drop_last(), a).push(s.last())
    }
}

/// Why adding `asset` to `vault` is refused.
pub open spec fn add_to_vault_error(
    vaults: Map<VaultId, Seq<Asset>>,
    lookup: Map<Asset, VaultId>,
    vault: VaultId,
    asset: Asset,
) -> Option<Error> {
    if lookup.contains_key(asset) {
        Some(Error::AssetAlreadyInVault)
    } else if vaults.contains_key(vault) && vaults[vault].contains(asset) {
        Some(Error::AssetAlreadyInVault)
    } else {
        None
    }
}

impl RewardStorage {
    /// Empty reward storage.
    pub fn new() -> (r: RewardStorage)
        ensures
            r.reward_vaults@ == Map::<VaultId, Seq<Asset>>::empty(),
            r.asset_lookup_reward_vaults@ == Map::<Asset, VaultId>::empty(),
            r.reward_config is None,
    {
        RewardStorage {
            reward_vaults: KeyedMap::new(),
            asset_lookup_reward_vaults: KeyedMap::new(),
            reward_config: None,
        }
    }

    /// Adds `asset` to `vault` (creating the vault) and records the vault as
    /// the asset's.
    pub fn add_asset_to_vault(&mut self, vault: VaultId, asset: Asset) -> (r: Result<(), Error>)
        ensures
            ({
                let vaults = old(self).reward_vaults@;
                let lookup = old(self).asset_lookup_reward_vaults@;
                let e = add_to_vault_error(vaults, lookup, vault, asset);
                &&& e is Some ==> r == Err::<(), Error>(e->0)
                &&& e is None ==> r is Ok
                &&& r is Err ==> final(self).reward_vaults@ == vaults
                    && final(self).asset_lookup_reward_vaults@ == lookup
                &&& r is Ok ==> {
                    &&& final(self).reward_vaults@ == vaults.insert(
                        vault,
                        if vaults.contains_key(vault) {
                            vaults[vault].push(asset)
                        } else {
                            seq![asset]
                        },
                    )
                    &&& final(self).asset_lookup_reward_vaults@ == lookup.insert(asset, vault)
                }
                &&& final(self).reward_config == old(self).reward_config
            }),
    {
        if self.asset_lookup_reward_vaults.contains_key(&asset) {
            return Err(Error::AssetAlreadyInVault);
        }
        let ghost existed = self.reward_vaults@.contains_key(vault);
        let mut assets = match self.reward_vaults.remove(&vault) {
            Some(v) => v,
            None => Vec::new(),
        };
        let ghost before = assets@;
        let mut i: usize = 0;
        while i < assets.len()
            invariant
                assets@ == before,
                existed == old(self).reward_vaults@.contains_key(vault),
                existed ==> before == old(self).reward_vaults@[vault],
                !existed ==> before.len() == 0,
                self.reward_vaults@ == old(self).reward_vaults@.remove(vault),
                self.asset_lookup_reward_vaults@ == old(self).asset_lookup_reward_vaults@,
                self.reward_config == old(self).reward_config,
                !old(self).asset_lookup_reward_vaults@.contains_key(asset),
                i <= before.len(),
                forall|j: int| 0 <= j < i ==> before[j] != asset,
            decreases before.len() - i,
        {
            if assets[i].same(&asset) {
                assert(before.contains(asset));
                self.reward_vaults.insert(vault, assets);
                proof {
                    assert(self.reward_vaults@ =~= old(self).reward_vaults@);
                }
                return Err(Error::AssetAlreadyInVault);
            }
            i = i + 1;
        }
        assets.push(asset);
        proof {
            if !old(self).reward_vaults@.contains_key(vault) {
                assert(assets@ =~= seq![asset]);
            }
        }
        self.reward_vaults.insert(vault, assets);
        self.asset_lookup_reward_vaults.insert(asset, vault);
        Ok(())
    }

    /// Removes every occurrence of `asset` from `vault` and forgets the
    /// asset's vault.
    pub fn remove_asset_from_vault(&mut self, vault: VaultId, asset: Asset) -> (r: Result<
        (),
        Error,
    >)
        ensures
            ({
                let vaults = old(self).reward_vaults@;
                let lookup = old(self).asset_lookup_reward_vaults@;
                &&& !vaults.contains_key(vault) ==> r == Err::<(), Error>(Error::VaultNotFound)
                &&& vaults.contains_key(vault) && !vaults[vault].contains(asset) ==> r == Err::<
                    (),
                    Error,
                >(Error::AssetNotInVault)
                &&& r is Ok <==> vaults.contains_key(vault) && vaults[vault].contains(asset)
                &&& r is Err ==> final(self).reward_vaults@ == vaults
                    && final(self).asset_lookup_reward_vaults@ == lookup
                &&& r is Ok ==> {
                    &&& final(self).reward_vaults@ == vaults.insert(
                        vault,
                        without(vaults[vault], asset),
                    )
                    &&& final(self).asset_lookup_reward_vaults@ == lookup.remove(asset)
                }
                &&& final(self).reward_config == old(self).reward_config
            }),
    {
        let assets = match self.reward_vaults.remove(&vault) {
            Some(v) => v,
            None => {
                return Err(Error::VaultNotFound);
            },
        };
        let ghost before = assets@;
        let mut kept: Vec<Asset> = Vec::new();
        let mut found = false;
        let mut i: usize = 0;
        while i < assets.len()
            invariant
                assets@ == before,
                i <= before.len(),
                kept@ == without(before.subrange(0, i as int), asset),
                found == before.subrange(0, i as int).contains(asset),
            decreases before.len() - i,
        {
            proof {
                let s = before.subrange(0, i as int + 1);
                assert(s.drop_last() =~= before.subrange(0, i as int));
                assert(s.last() == before[i as int]);
                assert(s.contains(asset) == (before.subrange(0, i as int).contains(asset)
                    || before[i as int] == asset)) by {
                    if s.contains(asset) {
                        let j = choose|j: int| 0 <= j < s.len() && s[j] == asset;
                        if j < i {
                            assert(before.subrange(0, i as int)[j] == asset);
                        }
                    }
                    if before.subrange(0, i as int).contains(asset) {
                        let j = choose|j: int| 0 <= j < i && before.subrange(0, i as int)[j] == asset;
                        assert(s[j] == asset);
                    }
                    if before[i as int] == asset {
                        assert(s[i as int] == asset);
                    }
                }
            }
            if assets[i].same(&asset) {
                found = true;
            } else {
                kept.push(assets[i]);
            }
            i = i + 1;
        }
        proof {
            assert(before.subrange(0, before.len() as int) =~= before);
        }
        if !found {
            self.reward_vaults.insert(vault, assets);
            proof {
                assert(self.reward_vaults@ =~= old(self).reward_vaults@);
            }
            return Err(Error::AssetNotInVault);
        }
        self.reward_vaults.insert(vault, kept);
        self.asset_lookup_reward_vaults.remove(&asset);
        Ok(())
    }
}

/// The bonds of all snapshots, in order.
pub open spec fn round_bonds(snaps: Seq<OperatorSnapshotView>) -> Seq<DelegatorBond>
    decreases snaps.len(),
{
    if snaps.len() == 0 {
        Seq::empty()
    } else {
        round_bonds(snaps.drop_last()) + snaps.last().delegations
    }
}

/// The total of the first `n` bonds in `asset`.
pub open spec fn asset_total(bonds: Seq<DelegatorBond>, asset: Asset, n: int) -> int
    decreases n,
{
    if n <= 0 {
        0
    } else {
        asset_total(bonds, asset, n - 1) + if bonds[n - 1].asset == asset {
            bonds[n - 1].amount as int
        } else {
            0
        }
    }
}

/// The reward terms for `asset`: those of its vault, if both are set.
pub open spec fn terms_for(
    lookup: Map<Asset, VaultId>,
    configs: Map<VaultId, RewardConfigForAssetVault>,
    asset: Asset,
) -> Option<RewardConfigForAssetVault> {
    if lookup.contains_key(asset) && configs.contains_key(lookup[asset]) {
        Some(configs[lookup[asset]])
    } else {
        None
    }
}

/// `x`, saturated at the largest balance.
pub open spec fn sat_balance(x: int) -> int {
    if x > u128::MAX {
        u128::MAX as int
    } else {
        x
    }
}

/// What a vault pays in all for a round under terms `c`: the yearly rate of
/// the cap, rounded down.
pub open spec fn cap_reward(c: RewardConfigForAssetVault) -> int {
    c.cap * clamped_percent(c.apy) / 100
}

/// The whole percentage of `total` that a bond of `amount` holds.
pub open spec fn bond_percentage(amount: Balance, total: int) -> int {
    sat_balance(amount * 100) / total
}

/// The reward of a bond of `amount` when its asset's delegations total
/// `total` under terms `c`: the vault's reward on the cap, shared by the
/// whole percentage of the total that the bond holds.
pub open spec fn bond_reward(amount: Balance, total: int, c: RewardConfigForAssetVault) -> int {
    sat_balance(cap_reward(c) * bond_percentage(amount, total)) / 100
}

/// The percentages of the first `n` bonds in `asset`, added up.
pub open spec fn percentage_sum(bonds: Seq<DelegatorBond>, asset: Asset, total: int, n: int) -> int
    decreases n,
{
    if n <= 0 {
        0
    } else {
        percentage_sum(bonds, asset, total, n - 1) + if bonds[n - 1].asset == asset {
            bond_percentage(bonds[n - 1].amount, total)
        } else {
            0
        }
    }
}

/// The rewards of the first `n` bonds in `asset`, added up.
pub open spec fn reward_sum(
    bonds: Seq<DelegatorBond>,
    asset: Asset,
    total: int,
    c: RewardConfigForAssetVault,
    n: int,
) -> int
    decreases n,
{
    if n <= 0 {
        0
    } else {
        reward_sum(bonds, asset, total, c, n - 1) + if bonds[n - 1].asset == asset {
            bond_reward(bonds[n - 1].amount, total, c)
        } else {
            0
        }
    }
}

proof fn lemma_percentage_sum_bound(bonds: Seq<DelegatorBond>, asset: Asset, total: int, n: int)
    requires
        total > 0,
        0 <= n <= bonds.len(),
    ensures
        0 <= percentage_sum(bonds, asset, total, n),
        total * percentage_sum(bonds, asset, total, n) <= 100 * asset_total(bonds, asset, n),
    decreases n,
{
    if n > 0 {
        lemma_percentage_sum_bound(bonds, asset, total, n - 1);
        let s = sat_balance(bonds[n - 1].amount * 100);
        let p = s / total;
        assert(0 <= s <= bonds[n - 1].amount * 100);
        assert(0 <= p && total * p <= s) by (nonlinear_arith)
            requires
                total > 0,
                s >= 0,
                p == s / total,
        ;
        let prev = percentage_sum(bonds, asset, total, n - 1);
        assert(total * (prev + p) == total * prev + total * p) by (nonlinear_arith);
    }
}

proof fn lemma_reward_sum_bound(
    bonds: Seq<DelegatorBond>,
    asset: Asset,
    total: int,
    c: RewardConfigForAssetVault,
    n: int,
)
    requires
        total > 0,
        0 <= n <= bonds.len(),
    ensures
        0 <= reward_sum(bonds, asset, total, c, n),
        100 * reward_sum(bonds, asset, total, c, n) <= cap_reward(c) * percentage_sum(
            bonds,
            asset,
            total,
            n,
        ),
    decreases n,
{
    if n > 0 {
        lemma_reward_sum_bound(bonds, asset, total, c, n - 1);
        let r = cap_reward(c);
        let p = bond_percentage(bonds[n - 1].amount, total);
        assert(r >= 0) by (nonlinear_arith)
            requires
                r == c.cap * clamped_percent(c.apy) / 100,
                c.cap >= 0,
                0 <= clamped_percent(c.apy),
        ;
        assert(p >= 0) by (nonlinear_arith)
            requires
                p == sat_balance(bonds[n - 1].amount * 100) / total,
                sat_balance(bonds[n - 1].amount * 100) >= 0,
                total > 0,
        ;
        let s = sat_balance(r * p);
        assert(0 <= s <= r * p) by (nonlinear_arith)
            requires
                r >= 0,
                p >= 0,
                s == sat_balance(r * p),
        ;
        assert(0 <= s / 100 && 100 * (s / 100) <= s) by (nonlinear_arith)
            requires
                s >= 0,
        ;
        let prev = percentage_sum(bonds, asset, total, n - 1);
        assert(r * (prev + p) == r * prev + r * p) by (nonlinear_arith);
    }
}

/// A vault never pays more for a round than its yearly rate of its cap:
/// where the delegations in `asset` total `total`, at least the cap, the
/// rewards of all of them add up to at most the rate of the cap.
pub proof fn law_rewards_within_cap(
    bonds: Seq<DelegatorBond>,
    asset: Asset,
    c: RewardConfigForAssetVault,
)
    requires
        c.cap > 0,
        asset_total(bonds, asset, bonds.len() as int) >= c.cap,
    ensures
        reward_sum(
            bonds,
            asset,
            asset_total(bonds, asset, bonds.len() as int),
            c,
            bonds.len() as int,
        ) <= cap_reward(c),
{
    let t = asset_total(bonds, asset, bonds.len() as int);
    let n = bonds.len() as int;
    lemma_percentage_sum_bound(bonds, asset, t, n);
    lemma_reward_sum_bound(bonds, asset, t, c, n);
    let ps = percentage_sum(bonds, asset, t, n);
    let rs = reward_sum(bonds, asset, t, c, n);
    let r = cap_reward(c);
    assert(r >= 0) by (nonlinear_arith)
        requires
            r == c.cap * clamped_percent(c.apy) / 100,
            c.cap >= 0,
            0 <= clamped_percent(c.apy),
    ;
    assert(ps <= 100) by (nonlinear_arith)
        requires
            t > 0,
            t * ps <= 100 * t,
    ;
    assert(rs <= r) by (nonlinear_arith)
        requires
            r >= 0,
            0 <= ps <= 100,
            100 * rs <= r * ps,
    ;
}

/// The free balances after crediting the rewards of the first `n` bonds;
/// a bond is rewarded where its asset has terms and the asset's total over
/// all bonds reaches the cap.
pub open spec fn rewards_credited(
    free: Map<AccountId, u128>,
    bonds: Seq<DelegatorBond>,
    lookup: Map<Asset, VaultId>,
    configs: Map<VaultId, RewardConfigForAssetVault>,
    n: int,
) -> Map<AccountId, u128>
    decreases n,
{
    if n <= 0 {
        free
    } else {
        let prev = rewards_credited(free, bonds, lookup, configs, n - 1);
        let b = bonds[n - 1];
        let total = asset_total(bonds, b.asset, bonds.len() as int);
        match terms_for(lookup, configs, b.asset) {
            Some(c) => if total >= c.cap {
                prev.insert(
                    b.delegator,
                    sat_balance(bal(prev, b.delegator) + bond_reward(b.amount, total, c)) as u128,
                )
            } else {
                prev
            },
            None => prev,
        }
    }
}

/// A bond's reward is its share of the vault's reward on the cap: it is at
/// most the vault's reward in proportion to the bond's part of the asset's
/// total, it grows with the bond, and a bond that makes up the whole total
/// gets the whole of the vault's reward (where the products involved fit in
/// a balance).
pub proof fn law_reward_is_share_of_cap(
    amount: Balance,
    larger: Balance,
    total: int,
    c: RewardConfigForAssetVault,
)
    requires
        total > 0,
        amount <= larger,
    ensures
        0 <= bond_reward(amount, total, c),
        bond_reward(amount, total, c) * total <= cap_reward(c) * amount,
        bond_reward(amount, total, c) <= bond_reward(larger, total, c),
        amount == total && amount * 100 <= u128::MAX && cap_reward(c) * 100 <= u128::MAX
            ==> bond_reward(amount, total, c) == cap_reward(c),
{
    let r = cap_reward(c);
    let pc = clamped_percent(c.apy);
    assert(r >= 0) by (nonlinear_arith)
        requires
            r == c.cap * pc / 100,
            c.cap >= 0,
            0 <= pc,
    ;
    let x = sat_balance(amount * 100);
    let x2 = sat_balance(larger * 100);
    assert(0 <= x <= amount * 100 && x <= x2) by (nonlinear_arith)
        requires
            x == sat_balance(amount * 100),
            x2 == sat_balance(larger * 100),
            0 <= amount <= larger,
    ;
    let p = x / total;
    let p2 = x2 / total;
    assert(0 <= p && p * total <= x && p <= p2) by (nonlinear_arith)
        requires
            p == x / total,
            p2 == x2 / total,
            total > 0,
            0 <= x <= x2,
    ;
    let y = sat_balance(r * p);
    let y2 = sat_balance(r * p2);
    assert(0 <= y <= r * p && y <= y2) by (nonlinear_arith)
        requires
            y == sat_balance(r * p),
            y2 == sat_balance(r * p2),
            r >= 0,
            0 <= p <= p2,
    ;
    let w = y / 100;
    assert(0 <= w && w * 100 <= y && w <= y2 / 100) by (nonlinear_arith)
        requires
            w == y / 100,
            0 <= y <= y2,
    ;
    assert(w * total <= r * amount) by (nonlinear_arith)
        requires
            w * 100 <= y,
            y <= r * p,
            p * total <= x,
            x <= amount * 100,
            r >= 0,
            total > 0,
            w >= 0,
            p >= 0,
    ;
    if amount == total && amount * 100 <= u128::MAX && r * 100 <= u128::MAX {
        assert(x == amount * 100);
        assert(p == 100) by (nonlinear_arith)
            requires
                p == x / total,
                x == total * 100,
                total > 0,
        ;
        assert(y == r * 100);
        assert(w == r) by (nonlinear_arith)
            requires
                w == y / 100,
                y == r * 100,
        ;
    }
}

/// Whether crediting the `k`-th bond adds its reward, under terms `c` and
/// an asset total of `total`, to its delegator's free balance.
pub open spec fn bond_credited(
    free: Map<AccountId, u128>,
    bonds: Seq<DelegatorBond>,
    lookup: Map<Asset, VaultId>,
    configs: Map<VaultId, RewardConfigForAssetVault>,
    k: int,
    total: int,
    c: RewardConfigForAssetVault,
) -> bool {
    let before = rewards_credited(free, bonds, lookup, configs, k);
    let who = bonds[k].delegator;
    rewards_credited(free, bonds, lookup, configs, k + 1) == before.insert(
        who,
        sat_balance(bal(before, who) + bond_reward(bonds[k].amount, total, c)) as u128,
    )
}

/// Whether crediting the `k`-th bond leaves every balance as it was.
pub open spec fn bond_passed_over(
    free: Map<AccountId, u128>,
    bonds: Seq<DelegatorBond>,
    lookup: Map<Asset, VaultId>,
    configs: Map<VaultId, RewardConfigForAssetVault>,
    k: int,
) -> bool {
    rewards_credited(free, bonds, lookup, configs, k + 1) == rewards_credited(
        free,
        bonds,
        lookup,
        configs,
        k,
    )
}

/// Rewards go by asset, not by bond: a bond in an asset with reward terms
/// is paid its share exactly where the delegations in that asset, added
/// up over all bonds of the round, reach the cap, and passed over where
/// they do not; so two bonds in the same asset are either both paid or
/// both passed over, however large each of them is. A bond in an asset
/// without terms is passed over.
pub proof fn law_rewards_by_asset_total(
    free: Map<AccountId, u128>,
    bonds: Seq<DelegatorBond>,
    lookup: Map<Asset, VaultId>,
    configs: Map<VaultId, RewardConfigForAssetVault>,
    k: int,
    l: int,
)
    requires
        0 <= k < bonds.len(),
        0 <= l < bonds.len(),
    ensures
        ({
            let asset = bonds[k].asset;
            let total = asset_total(bonds, asset, bonds.len() as int);
            match terms_for(lookup, configs, asset) {
                Some(c) => {
                    &&& total >= c.cap ==> bond_credited(free, bonds, lookup, configs, k, total, c)
                    &&& total < c.cap ==> bond_passed_over(free, bonds, lookup, configs, k)
                    &&& bonds[l].asset == asset ==> (bond_credited(
                        free,
                        bonds,
                        lookup,
                        configs,
                        k,
                        total,
                        c,
                    ) && bond_credited(free, bonds, lookup, configs, l, total, c)) || (
                    bond_passed_over(free, bonds, lookup, configs, k) && bond_passed_over(
                        free,
                        bonds,
                        lookup,
                        configs,
                        l,
                    ))
                },
                None => bond_passed_over(free, bonds, lookup, configs, k),
            }
        }),
{
}

/// The rewards can be computed: every asset total fits in a balance, and
/// every cap that applies is positive.
pub open spec fn rewards_computable(
    bonds: Seq<DelegatorBond>,
    lookup: Map<Asset, VaultId>,
    configs: Map<VaultId, RewardConfigForAssetVault>,
) -> bool {
    forall|k: int|
        0 <= k < bonds.len() ==> {
            &&& asset_total(bonds, (#[trigger] bonds[k]).asset, bonds.len() as int) <= u128::MAX
            &&& (terms_for(lookup, configs, bonds[k].asset) matches Some(c) ==> c.cap > 0)
        }
}

/// `a * b`, saturated at the largest balance.
fn saturating_product(a: Balance, b: Balance) -> (r: Balance)
    ensures
        r == sat_balance(a * b),
{
    match a.checked_mul(b) {
        Some(x) => x,
        None => u128::MAX,
    }
}

proof fn lemma_asset_total_prefix(bonds: Seq<DelegatorBond>, asset: Asset, i: int, n: int)
    requires
        0 <= i <= n <= bonds.len(),
    ensures
        0 <= asset_total(bonds, asset, i) <= asset_total(bonds, asset, n),
    decreases n,
{
    lemma_asset_total_nonneg(bonds, asset, i);
    if i < n {
        lemma_asset_total_prefix(bonds, asset, i, n - 1);
    }
}

proof fn lemma_asset_total_nonneg(bonds: Seq<DelegatorBond>, asset: Asset, n: int)
    ensures
        asset_total(bonds, asset, n) >= 0,
    decreases n,
{
    if n > 0 {
        lemma_asset_total_nonneg(bonds, asset, n - 1);
    }
}

/// The total of the bonds in `asset`.
fn total_in_asset(bonds: &Vec<DelegatorBond>, asset: Asset) -> (r: Balance)
    requires
        asset_total(bonds@, asset, bonds@.len() as int) <= u128::MAX,
    ensures
        r == asset_total(bonds@, asset, bonds@.len() as int),
{
    let mut total: Balance = 0;
    let mut i: usize = 0;
    while i < bonds.len()
        invariant
            i <= bonds@.len(),
            asset_total(bonds@, asset, bonds@.len() as int) <= u128::MAX,
            total == asset_total(bonds@, asset, i as int),
        decreases bonds@.len() - i,
    {
        proof {
            lemma_asset_total_nonneg(bonds@, asset, i as int);
            lemma_asset_total_prefix(bonds@, asset, i as int + 1, bonds@.len() as int);
        }
        if bonds[i].asset.same(&asset) {
            total = total + bonds[i].amount;
        }
        i = i + 1;
    }
    total
}

/// The bonds of all snapshots of a round, in order.
fn collect_bonds(snaps: &KeyedMap<AccountId, super::types::OperatorSnapshot>) -> (r: Vec<
    DelegatorBond,
>)
    ensures
        r@ == round_bonds(snaps.val_seq()),
{
    let n = snaps.len();
    let mut out: Vec<DelegatorBond> = Vec::new();
    let mut i: usize = 0;
    while i < n
        invariant
            n == snaps.val_seq().len(),
            n == snaps.key_seq().len(),
            i <= n,
            out@ == round_bonds(snaps.val_seq().take(i as int)),
        decreases n - i,
    {
        let s = snaps.value_at(i);
        let mut j: usize = 0;
        let ghost before = out@;
        while j < s.delegations.len()
            invariant
                j <= s.delegations@.len(),
                out@ == before + s.delegations@.take(j as int),
            decreases s.delegations@.len() - j,
        {
            out.push(s.delegations[j]);
            proof {
                assert(s.delegations@.take(j as int + 1) =~= s.delegations@.take(j as int).push(
                    s.delegations@[j as int],
                ));
                assert(out@ =~= before + s.delegations@.take(j as int + 1));
            }
            j = j + 1;
        }
        proof {
            let t = snaps.val_seq().take(i as int + 1);
            assert(t.drop_last() =~= snaps.val_seq().take(i as int));
            assert(t.last() == s@);
            assert(s.delegations@.take(j as int) =~= s.delegations@);
        }
        i = i + 1;
    }
    proof {
        assert(snaps.val_seq().take(n as int) =~= snaps.val_seq());
    }
    out
}

impl MultiAssetDelegation {
    /// The score of an amount of an asset; for now the amount itself.
    pub fn asset_to_score(amount: Balance) -> (r: Balance)
        ensures
            r == amount,
    {
        amount
    }

    /// The reward of a bond of `amount` when its asset's delegations total
    /// `total` under terms `c`: the vault's yearly rate of its cap, shared
    /// by the whole percentage of the total that the bond holds.
    pub fn calculate_reward(amount: Balance, total: Balance, c: RewardConfigForAssetVault) -> (r:
        Balance)
        requires
            total > 0,
        ensures
            r == bond_reward(amount, total as int, c),
    {
        let total_reward = percent_mul_floor(c.apy, c.cap);
        let staking_percentage = saturating_product(amount, 100) / total;
        saturating_product(total_reward, staking_percentage) / 100
    }

    /// Pays the rewards of round `round`: every bond recorded for the round
    /// whose asset has reward terms, and whose asset's total delegation
    /// reaches the cap, credits its delegator with its reward; a vault pays
    /// at most its yearly rate of its cap in all.
    pub fn distribute_rewards(&mut self, round: RoundIndex, rewards: &RewardStorage) -> (r: Result<
        (),
        Error,
    >)
        requires
            old(self).at_stake@.contains_key(round) && rewards.reward_config is Some
                ==> rewards_computable(
                round_bonds(old(self).at_stake.stored(round).val_seq()),
                rewards.asset_lookup_reward_vaults@,
                rewards.reward_config->Some_0.configs@,
            ),
        ensures
            r is Ok,
            final(self).ledger.free@ == if old(self).at_stake@.contains_key(round)
                && rewards.reward_config is Some {
                let bonds = round_bonds(old(self).at_stake.stored(round).val_seq());
                rewards_credited(
                    old(self).ledger.free@,
                    bonds,
                    rewards.asset_lookup_reward_vaults@,
                    rewards.reward_config->Some_0.configs@,
                    bonds.len() as int,
                )
            } else {
                old(self).ledger.free@
            },
            final(self).ledger.reserved@ == old(self).ledger.reserved@,
            final(self).ledger.locks@ == old(self).ledger.locks@,
            final(self).ledger.assets@ == old(self).ledger.assets@,
            final(self).ledger.tokens@ == old(self).ledger.tokens@,
            final(self).same_settings(old(self)),
            final(self).operators@ == old(self).operators@,
            final(self).delegators@ == old(self).delegators@,
            final(self).at_stake@ == old(self).at_stake@,
            final(self).events@ == old(self).events@,
    {
        let rc = match &rewards.reward_config {
            None => {
                return Ok(());
            },
            Some(rc) => rc,
        };
        let bonds = match self.at_stake.get(&round) {
            None => {
                return Ok(());
            },
            Some(snaps) => collect_bonds(snaps),
        };
        let ghost lookup = rewards.asset_lookup_reward_vaults@;
        let ghost configs = rc.configs@;
        let ghost free0 = self.ledger.free@;
        let ghost s0 = *self;
        let mut k: usize = 0;
        while k < bonds.len()
            invariant
                k <= bonds@.len(),
                lookup == rewards.asset_lookup_reward_vaults@,
                configs == rc.configs@,
                rewards_computable(bonds@, lookup, configs),
                self.ledger.free@ == rewards_credited(free0, bonds@, lookup, configs, k as int),
                self.ledger.reserved@ == s0.ledger.reserved@,
                self.ledger.locks@ == s0.ledger.locks@,
                self.ledger.assets@ == s0.ledger.assets@,
                self.ledger.tokens@ == s0.ledger.tokens@,
                self.config == s0.config,
                self.current_round == s0.current_round,
                self.block_number == s0.block_number,
                self.operators@ == s0.operators@,
                self.delegators@ == s0.delegators@,
                self.at_stake@ == s0.at_stake@,
                self.events@ == s0.events@,
            decreases bonds@.len() - k,
        {
            let b = bonds[k];
            assert(b == bonds@[k as int]);
            if let Some(vault) = rewards.asset_lookup_reward_vaults.get(&b.asset) {
                if let Some(c) = rc.configs.get(vault) {
                    let total = total_in_asset(&bonds, b.asset);
                    if total >= c.cap {
                        let reward = Self::calculate_reward(b.amount, total, *c);
                        self.ledger.deposit_creating(b.delegator, reward);
                    }
                }
            }
            k = k + 1;
        }
        Ok(())
    }
}

} // verus!
