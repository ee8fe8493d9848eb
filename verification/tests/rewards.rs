use tangle_pallets::asset::{Asset, H160};
use tangle_pallets::keyed_map::KeyedMap;
use tangle_pallets::ledger::Ledger;
use tangle_pallets::multi_asset_delegation::pallet::{DelegationConfig, Error, MultiAssetDelegation};
use tangle_pallets::multi_asset_delegation::rewards::{
    RewardConfig, RewardConfigForAssetVault, RewardStorage,
};
use tangle_pallets::multi_asset_delegation::types::DelegatorBlueprintSelection;

const OPERATOR: u64 = 1;
const DELEGATOR: u64 = 2;

fn rewards_pallet() -> MultiAssetDelegation {
    let config = DelegationConfig {
        min_operator_bond_amount: 10_000,
        min_delegate_amount: 100,
        leave_operators_delay: 10,
        operator_bond_less_delay: 1,
        leave_delegators_delay: 1,
        delegation_bond_less_delay: 5,
        max_delegations: 50,
        max_withdraw_requests: 50,
        max_unstake_requests: 50,
        max_delegator_blueprints: 50,
        pallet_account: 1000,
        pallet_evm_address: H160([0xAA; 20]),
        slash_recipient: 999,
        slash_recipient_evm_address: H160([0xBB; 20]),
    };
    let mut ledger = Ledger::new();
    ledger.deposit_creating(OPERATOR, 1_000_000);
    ledger.deposit_creating(DELEGATOR, 1_000_000);
    ledger.mint_asset(1, DELEGATOR, 10_000);
    MultiAssetDelegation::new(config, ledger)
}

fn delegated_pallet(amount: u128) -> MultiAssetDelegation {
    let mut p = rewards_pallet();
    assert_eq!(p.join_operators(OPERATOR, 10_000), Ok(()));
    assert_eq!(p.deposit(DELEGATOR, Asset::Custom(1), amount, None, None, Some(u128::MAX)), Ok(()));
    assert_eq!(
        p.delegate(DELEGATOR, OPERATOR, Asset::Custom(1), amount, DelegatorBlueprintSelection::All),
        Ok(())
    );
    p.handle_round_change(1);
    p
}

fn storage_with_terms(apy: u8, cap: u128) -> RewardStorage {
    let mut rewards = RewardStorage::new();
    assert_eq!(rewards.add_asset_to_vault(7, Asset::Custom(1)), Ok(()));
    let mut configs = KeyedMap::new();
    configs.insert(7u64, RewardConfigForAssetVault { apy, cap });
    rewards.reward_config = Some(RewardConfig { configs, whitelisted_blueprint_ids: Vec::new() });
    rewards
}

#[test]
fn test_asset_to_score_conversion() {
    assert_eq!(
        MultiAssetDelegation::asset_to_score(1000),
        1000,
        "Basic point conversion should return same value for now"
    );
    assert_eq!(
        MultiAssetDelegation::asset_to_score(0),
        0,
        "Zero asset amount should convert to zero points"
    );
    let large_amount = 1_000_000_000;
    assert_eq!(
        MultiAssetDelegation::asset_to_score(large_amount),
        large_amount,
        "Large numbers should convert correctly"
    );
}

#[test]
fn reward_formula_exact_values() {
    let c = RewardConfigForAssetVault { apy: 10, cap: 1_000 };
    // The vault pays 10% of its cap of 1_000, 100; the bond holds 25% of 2_000.
    assert_eq!(MultiAssetDelegation::calculate_reward(500, 2_000, c), 25);
    // A bond that holds the whole total gets the whole of it.
    assert_eq!(MultiAssetDelegation::calculate_reward(2_000, 2_000, c), 100);
    // Percentages are whole: a third is 33%.
    assert_eq!(MultiAssetDelegation::calculate_reward(1, 3, c), 33);
    // rates above a hundred percent count as a hundred.
    let c = RewardConfigForAssetVault { apy: 250, cap: 1_000 };
    assert_eq!(MultiAssetDelegation::calculate_reward(1_000, 1_000, c), 1_000);
}

#[test]
fn test_reward_cap_enforcement() {
    // Two delegators each stake the cap of 2_000 at 10%.
    let mut p = rewards_pallet();
    p.ledger.mint_asset(1, 3, 10_000);
    assert_eq!(p.join_operators(OPERATOR, 10_000), Ok(()));
    for who in [DELEGATOR, 3] {
        assert_eq!(p.deposit(who, Asset::Custom(1), 2_000, None, None, Some(u128::MAX)), Ok(()));
        assert_eq!(
            p.delegate(who, OPERATOR, Asset::Custom(1), 2_000, DelegatorBlueprintSelection::All),
            Ok(())
        );
    }
    p.handle_round_change(1);
    let before = (p.ledger.free_balance(DELEGATOR), p.ledger.free_balance(3));
    assert_eq!(p.distribute_rewards(1, &storage_with_terms(10, 2_000)), Ok(()));
    let alice_rewards = p.ledger.free_balance(DELEGATOR) - before.0;
    let bob_rewards = p.ledger.free_balance(3) - before.1;
    // Total rewards should not exceed the cap-based amount.
    let total_rewards = alice_rewards.saturating_add(bob_rewards);
    let max_rewards = 2000u128.saturating_mul(10) / 100;
    assert!(total_rewards <= max_rewards, "Total rewards exceeded cap");
    assert_eq!((alice_rewards, bob_rewards), (100, 100));
}

#[test]
fn distribute_rewards_pays_bonds_that_reach_the_cap() {
    let mut p = delegated_pallet(1_000);
    let rewards = storage_with_terms(10, 1_000);
    let before = p.ledger.free_balance(DELEGATOR);
    assert_eq!(p.distribute_rewards(1, &rewards), Ok(()));
    assert_eq!(p.ledger.free_balance(DELEGATOR), before + 100);
}

#[test]
fn distribute_rewards_skips_totals_below_the_cap() {
    let mut p = delegated_pallet(500);
    let rewards = storage_with_terms(10, 1_000);
    let before = p.ledger.free_balance(DELEGATOR);
    assert_eq!(p.distribute_rewards(1, &rewards), Ok(()));
    assert_eq!(p.ledger.free_balance(DELEGATOR), before);
}

#[test]
fn distribute_rewards_without_terms_pays_nothing() {
    let mut p = delegated_pallet(1_000);
    let rewards = RewardStorage::new();
    let before = p.ledger.free_balance(DELEGATOR);
    assert_eq!(p.distribute_rewards(1, &rewards), Ok(()));
    assert_eq!(p.distribute_rewards(2, &storage_with_terms(10, 1_000)), Ok(()));
    assert_eq!(p.ledger.free_balance(DELEGATOR), before);
}

#[test]
fn vault_membership_round_trip() {
    let mut rewards = RewardStorage::new();
    assert_eq!(rewards.add_asset_to_vault(3, Asset::Custom(5)), Ok(()));
    assert_eq!(rewards.add_asset_to_vault(3, Asset::Custom(5)), Err(Error::AssetAlreadyInVault));
    assert_eq!(rewards.add_asset_to_vault(4, Asset::Custom(5)), Err(Error::AssetAlreadyInVault));
    assert_eq!(rewards.remove_asset_from_vault(9, Asset::Custom(5)), Err(Error::VaultNotFound));
    assert_eq!(rewards.remove_asset_from_vault(3, Asset::Custom(6)), Err(Error::AssetNotInVault));
    assert_eq!(rewards.remove_asset_from_vault(3, Asset::Custom(5)), Ok(()));
    assert!(!rewards.asset_lookup_reward_vaults.contains_key(&Asset::Custom(5)));
    assert_eq!(rewards.reward_vaults.get(&3).unwrap().len(), 0);
    assert_eq!(rewards.add_asset_to_vault(4, Asset::Custom(5)), Ok(()));
}
