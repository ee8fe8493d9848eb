#![allow(dead_code, unused_imports)]
use tangle_pallets::asset::{Asset, H160};
use tangle_pallets::ledger::{Ledger, LedgerError};
use tangle_pallets::multi_asset_delegation::pallet::{
    DelegationConfig, Error, Event, MultiAssetDelegation,
};
use tangle_pallets::multi_asset_delegation::types::{DelegatorBlueprintSelection, DelegatorStatus};

const ALICE: u64 = 1;
const BOB: u64 = 2;
const CHARLIE: u64 = 3;
const DAVE: u64 = 4;
const EVE: u64 = 5;
const PALLET: u64 = 1000;
const VDOT: u64 = 4;
const USDC: u64 = 1;
const WETH: u64 = 2;

fn config() -> DelegationConfig {
    DelegationConfig {
        min_operator_bond_amount: 10_000,
        min_delegate_amount: 100,
        leave_operators_delay: 10,
        operator_bond_less_delay: 1,
        leave_delegators_delay: 1,
        delegation_bond_less_delay: 5,
        max_delegations: 50,
        max_withdraw_requests: 50,
        max_unstake_requests: 50,
        max_delegator_blueprints: 50,
        pallet_account: PALLET,
        pallet_evm_address: H160([0xAA; 20]),
        slash_recipient: 999,
        slash_recipient_evm_address: H160([0xBB; 20]),
    }
}

/// Alice, Bob and Charlie hold 200_000; Dave, Eve and the pallet 1_000_000.
fn new_pallet() -> MultiAssetDelegation {
    let mut ledger = Ledger::new();
    for who in [ALICE, BOB, CHARLIE] {
        ledger.deposit_creating(who, 200_000);
    }
    for who in [DAVE, EVE, PALLET] {
        ledger.deposit_creating(who, 1_000_000);
    }
    MultiAssetDelegation::new(config(), ledger)
}

/// Deposits of a configured asset without a cap.
fn deposit(p: &mut MultiAssetDelegation, who: u64, asset: Asset, amount: u128) -> Result<(), Error> {
    p.deposit(who, asset, amount, None, None, Some(u128::MAX))
}

fn fixed_none() -> DelegatorBlueprintSelection {
    DelegatorBlueprintSelection::Fixed(vec![])
}

#[test]
fn handle_round_change_should_work() {
    let mut p = new_pallet();
    let (who, operator, asset, amount) = (BOB, ALICE, Asset::Custom(VDOT), 100);
    p.set_current_round(1);
    assert_eq!(p.join_operators(operator, 10_000), Ok(()));
    p.ledger.mint_asset(VDOT, who, amount);
    assert_eq!(deposit(&mut p, who, asset, amount), Ok(()));
    assert_eq!(p.delegate(who, operator, asset, amount, fixed_none()), Ok(()));
    let next = p.current_round() + 1;
    p.handle_round_change(next);
    let current_round = p.current_round();
    assert_eq!(current_round, 2);
    let snapshot = p.at_stake(current_round, operator).unwrap();
    assert_eq!(snapshot.stake, 10_000);
    assert_eq!(snapshot.delegations.len(), 1);
    assert_eq!(snapshot.delegations[0].amount, amount);
    assert_eq!(snapshot.delegations[0].asset, asset);
    assert_eq!(snapshot.get_stake_by_asset_id(asset), amount);
    assert_eq!(snapshot.get_total_stake_by_assets(), vec![(asset, amount)]);
}

#[test]
fn round_change_after_an_executed_unstake_shows_the_lowered_delegation() {
    let mut p = new_pallet();
    let (delegator1, delegator2, operator1, operator2) = (ALICE, BOB, CHARLIE, DAVE);
    let asset = Asset::Custom(VDOT);
    let amount1 = 1_000_000_000_000;
    let amount2 = 1_000_000_000_000;
    let unstake_amount = 50;
    p.set_current_round(1);
    assert_eq!(p.join_operators(operator1, 10_000), Ok(()));
    assert_eq!(p.join_operators(operator2, 10_000), Ok(()));
    p.ledger.mint_asset(VDOT, delegator1, amount1);
    p.ledger.mint_asset(VDOT, delegator2, amount2);
    assert_eq!(deposit(&mut p, delegator1, asset, amount1), Ok(()));
    assert_eq!(p.delegate(delegator1, operator1, asset, amount1, fixed_none()), Ok(()));
    assert_eq!(deposit(&mut p, delegator2, asset, amount2), Ok(()));
    assert_eq!(p.delegate(delegator2, operator2, asset, amount2, fixed_none()), Ok(()));
    assert_eq!(p.schedule_delegator_unstake(delegator1, operator1, asset, unstake_amount), Ok(()));
    // A scheduled unstake leaves the operator's delegation as it is.
    p.handle_round_change(2);
    assert_eq!(p.at_stake(2, operator1).unwrap().delegations[0].amount, amount1);
    // Once executed, the next snapshot shows the lowered delegation.
    p.set_current_round(6);
    assert_eq!(p.execute_delegator_unstake(delegator1), Ok(()));
    p.handle_round_change(7);
    let snapshot1 = p.at_stake(7, operator1).unwrap();
    assert_eq!(snapshot1.stake, 10_000);
    assert_eq!(snapshot1.delegations.len(), 1);
    assert_eq!(snapshot1.delegations[0].delegator, delegator1);
    assert_eq!(snapshot1.delegations[0].amount, amount1 - unstake_amount);
    assert_eq!(snapshot1.delegations[0].asset, asset);
    let snapshot2 = p.at_stake(7, operator2).unwrap();
    assert_eq!(snapshot2.stake, 10000);
    assert_eq!(snapshot2.delegations.len(), 1);
    assert_eq!(snapshot2.delegations[0].delegator, delegator2);
    assert_eq!(snapshot2.delegations[0].amount, amount2);
    assert_eq!(snapshot2.delegations[0].asset, asset);
}

#[test]
fn round_change_snapshots_every_operator_and_keeps_older_rounds() {
    let mut p = new_pallet();
    assert_eq!(p.join_operators(ALICE, 10_000), Ok(()));
    p.handle_round_change(1);
    assert_eq!(p.operator_bond_more(ALICE, 5_000), Ok(()));
    p.handle_round_change(2);
    assert_eq!(p.at_stake(1, ALICE).unwrap().stake, 10_000);
    assert_eq!(p.at_stake(2, ALICE).unwrap().stake, 15_000);
    assert!(p.at_stake(2, BOB).is_none());
    assert!(p.at_stake(3, ALICE).is_none());
}
