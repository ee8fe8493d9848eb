#![allow(dead_code, unused_imports)]
use tangle_pallets::asset::{Asset, H160};
use tangle_pallets::ledger::{Ledger, LedgerError};
use tangle_pallets::multi_asset_delegation::pallet::{
    DelegationConfig, Error, Event, MultiAssetDelegation,
};
use tangle_pallets::multi_asset_delegation::types::{DelegatorBlueprintSelection, DelegatorStatus};

const ALICE: u64 = 1;
const BOB: u64 = 2;
const CHARLIE: u64 = 3;
const DAVE: u64 = 4;
const EVE: u64 = 5;
const PALLET: u64 = 1000;
const VDOT: u64 = 4;
const USDC: u64 = 1;
const WETH: u64 = 2;

fn config() -> DelegationConfig {
    DelegationConfig {
        min_operator_bond_amount: 10_000,
        min_delegate_amount: 100,
        leave_operators_delay: 10,
        operator_bond_less_delay: 1,
        leave_delegators_delay: 1,
        delegation_bond_less_delay: 5,
        max_delegations: 50,
        max_withdraw_requests: 50,
        max_unstake_requests: 50,
        max_delegator_blueprints: 50,
        pallet_account: PALLET,
        pallet_evm_address: H160([0xAA; 20]),
        slash_recipient: 999,
        slash_recipient_evm_address: H160([0xBB; 20]),
    }
}

/// Alice, Bob and Charlie hold 200_000; Dave, Eve and the pallet 1_000_000.
fn new_pallet() -> MultiAssetDelegation {
    let mut ledger = Ledger::new();
    for who in [ALICE, BOB, CHARLIE] {
        ledger.deposit_creating(who, 200_000);
    }
    for who in [DAVE, EVE, PALLET] {
        ledger.deposit_creating(who, 1_000_000);
    }
    MultiAssetDelegation::new(config(), ledger)
}

/// Deposits of a configured asset without a cap.
fn deposit(p: &mut MultiAssetDelegation, who: u64, asset: Asset, amount: u128) -> Result<(), Error> {
    p.deposit(who, asset, amount, None, None, Some(u128::MAX))
}

fn fixed_none() -> DelegatorBlueprintSelection {
    DelegatorBlueprintSelection::Fixed(vec![])
}

/// The fixed blueprint selection of the first delegation of `who`.
fn fixed_ids(p: &MultiAssetDelegation, who: u64) -> Option<Vec<u64>> {
    match &p.delegators(who).unwrap().delegations[0].blueprint_selection {
        DelegatorBlueprintSelection::Fixed(ids) => Some(ids.clone()),
        DelegatorBlueprintSelection::All => None,
    }
}

/// Alice joins as operator; `who` gets `minted` of `asset_id` and deposits `deposited`.
fn operator_and_deposit(p: &mut MultiAssetDelegation, who: u64, asset_id: u64, minted: u128, deposited: u128) {
    assert_eq!(p.join_operators(ALICE, 10_000), Ok(()));
    p.ledger.mint_asset(asset_id, who, minted);
    assert_eq!(deposit(p, who, Asset::Custom(asset_id), deposited), Ok(()));
}

#[test]
fn delegate_should_work() {
    let mut p = new_pallet();
    let (who, operator, asset, amount) = (BOB, ALICE, Asset::Custom(VDOT), 100);
    operator_and_deposit(&mut p, who, VDOT, amount, amount);
    assert_eq!(p.delegate(who, operator, asset, amount, fixed_none()), Ok(()));
    let metadata = p.delegators(who).unwrap();
    assert_eq!(metadata.delegations.len(), 1);
    let delegation = &metadata.delegations[0];
    assert_eq!(delegation.operator, operator);
    assert_eq!(delegation.amount, amount);
    assert_eq!(delegation.asset, asset);
    assert_eq!(metadata.deposits.get(&asset).unwrap().delegated_amount, amount);
    let om = p.operator_info(operator).unwrap();
    assert_eq!(om.delegation_count, 1);
    assert_eq!(om.delegations.len(), 1);
    assert_eq!(om.delegations[0].delegator, who);
    assert_eq!(om.delegations[0].amount, amount);
    assert_eq!(om.delegations[0].asset, asset);
    assert_eq!(p.events.last(), Some(&Event::Delegated { who, operator, amount, asset }));
}

#[test]
fn schedule_delegator_unstake_should_work() {
    let mut p = new_pallet();
    let (who, operator, asset, amount) = (BOB, ALICE, Asset::Custom(VDOT), 100);
    operator_and_deposit(&mut p, who, VDOT, amount, amount);
    assert_eq!(p.delegate(who, operator, asset, amount, fixed_none()), Ok(()));
    assert_eq!(p.schedule_delegator_unstake(who, operator, asset, amount), Ok(()));
    let metadata = p.delegators(who).unwrap();
    assert!(!metadata.delegator_unstake_requests.is_empty());
    let request = &metadata.delegator_unstake_requests[0];
    assert_eq!(request.asset, asset);
    assert_eq!(request.amount, amount);
    let om = p.operator_info(operator).unwrap();
    assert_eq!(om.delegation_count, 1);
    assert_eq!(om.delegations.len(), 1);
    p.set_current_round(10);
    assert_eq!(p.execute_delegator_unstake(who), Ok(()));
    let om = p.operator_info(operator).unwrap();
    assert_eq!(om.delegation_count, 0);
    assert_eq!(om.delegations.len(), 0);
}

#[test]
fn execute_delegator_unstake_should_work() {
    let mut p = new_pallet();
    let (who, operator, asset, amount) = (BOB, ALICE, Asset::Custom(VDOT), 100);
    operator_and_deposit(&mut p, who, VDOT, amount, amount);
    assert_eq!(p.delegate(who, operator, asset, amount, fixed_none()), Ok(()));
    assert_eq!(p.schedule_delegator_unstake(who, operator, asset, amount), Ok(()));
    p.set_current_round(10);
    assert_eq!(p.execute_delegator_unstake(who), Ok(()));
    let metadata = p.delegators(who).unwrap();
    assert!(metadata.delegator_unstake_requests.is_empty());
    let d = metadata.deposits.get(&asset).unwrap();
    assert_eq!(d.amount, amount);
    assert_eq!(d.delegated_amount, 0);
    assert!(metadata.delegations.is_empty());
    assert!(p.events.contains(&Event::DelegatorUnstakeExecuted { who, operator, asset, amount }));
}

#[test]
fn cancel_delegator_unstake_should_work() {
    let mut p = new_pallet();
    let (who, operator, asset, amount) = (BOB, ALICE, Asset::Custom(VDOT), 100);
    operator_and_deposit(&mut p, who, VDOT, amount, amount);
    assert_eq!(p.delegate(who, operator, asset, amount, fixed_none()), Ok(()));
    assert_eq!(p.schedule_delegator_unstake(who, operator, asset, amount), Ok(()));
    let metadata = p.delegators(who).unwrap();
    assert!(!metadata.delegator_unstake_requests.is_empty());
    assert_eq!(metadata.delegator_unstake_requests[0].asset, asset);
    assert_eq!(metadata.delegator_unstake_requests[0].amount, amount);
    let om = p.operator_info(operator).unwrap();
    assert_eq!(om.delegation_count, 1);
    assert_eq!(om.delegations.len(), 1);
    assert_eq!(p.cancel_delegator_unstake(who, operator, asset, amount), Ok(()));
    let metadata = p.delegators(who).unwrap();
    assert!(metadata.delegator_unstake_requests.is_empty());
    let om = p.operator_info(operator).unwrap();
    assert_eq!(om.delegation_count, 1);
    assert_eq!(om.delegations.len(), 1);
    assert_eq!(om.delegations[0].delegator, who);
    assert_eq!(om.delegations[0].amount, amount);
    assert_eq!(om.delegations[0].asset, asset);
}

#[test]
fn cancel_delegator_unstake_should_update_already_existing() {
    let mut p = new_pallet();
    let (who, operator, asset, amount) = (BOB, ALICE, Asset::Custom(VDOT), 100);
    operator_and_deposit(&mut p, who, VDOT, amount, amount);
    assert_eq!(p.delegate(who, operator, asset, amount, fixed_none()), Ok(()));
    assert_eq!(p.schedule_delegator_unstake(who, operator, asset, 10), Ok(()));
    let metadata = p.delegators(who).unwrap();
    assert_eq!(metadata.delegator_unstake_requests[0].asset, asset);
    assert_eq!(metadata.delegator_unstake_requests[0].amount, 10);
    let om = p.operator_info(operator).unwrap();
    assert_eq!(om.delegation_count, 1);
    assert_eq!(om.delegations.len(), 1);
    assert_eq!(om.delegations[0].delegator, who);
    assert_eq!(om.delegations[0].amount, amount);
    assert_eq!(om.delegations[0].asset, asset);
    assert_eq!(p.cancel_delegator_unstake(who, operator, asset, 10), Ok(()));
    let metadata = p.delegators(who).unwrap();
    assert!(metadata.delegator_unstake_requests.is_empty());
    let om = p.operator_info(operator).unwrap();
    assert_eq!(om.delegation_count, 1);
    assert_eq!(om.delegations.len(), 1);
    assert_eq!(om.delegations[0].delegator, who);
    assert_eq!(om.delegations[0].amount, amount);
    assert_eq!(om.delegations[0].asset, asset);
}

#[test]
fn delegate_should_fail_if_not_enough_balance() {
    let mut p = new_pallet();
    let (who, operator, asset, amount) = (BOB, ALICE, Asset::Custom(VDOT), 10_000);
    operator_and_deposit(&mut p, who, VDOT, amount, amount - 20);
    assert_eq!(
        p.delegate(who, operator, asset, amount, fixed_none()),
        Err(Error::InsufficientBalance)
    );
}

#[test]
fn schedule_delegator_unstake_should_fail_if_no_delegation() {
    let mut p = new_pallet();
    let (who, operator, asset, amount) = (BOB, ALICE, Asset::Custom(VDOT), 100);
    operator_and_deposit(&mut p, who, VDOT, amount, amount);
    assert_eq!(
        p.schedule_delegator_unstake(who, operator, asset, amount),
        Err(Error::NoActiveDelegation)
    );
}

#[test]
fn execute_delegator_unstake_should_fail_if_not_ready() {
    let mut p = new_pallet();
    let (who, operator, asset, amount) = (BOB, ALICE, Asset::Custom(VDOT), 100);
    operator_and_deposit(&mut p, who, VDOT, amount, amount);
    assert_eq!(p.delegate(who, operator, asset, amount, fixed_none()), Ok(()));
    assert_eq!(
        p.cancel_delegator_unstake(who, operator, asset, amount),
        Err(Error::NoBondLessRequest)
    );
    assert_eq!(p.schedule_delegator_unstake(who, operator, asset, amount), Ok(()));
    assert_eq!(p.execute_delegator_unstake(who), Err(Error::BondLessNotReady));
}

#[test]
fn delegate_should_not_create_multiple_on_repeat_delegation() {
    let mut p = new_pallet();
    let (who, operator, asset, amount, additional) = (BOB, ALICE, Asset::Custom(VDOT), 100, 50);
    operator_and_deposit(&mut p, who, VDOT, amount + additional, amount + additional);
    assert_eq!(p.delegate(who, operator, asset, amount, fixed_none()), Ok(()));
    let metadata = p.delegators(who).unwrap();
    assert!(metadata.deposits.get(&asset).is_some());
    assert_eq!(metadata.delegations.len(), 1);
    assert_eq!(metadata.delegations[0].operator, operator);
    assert_eq!(metadata.delegations[0].amount, amount);
    assert_eq!(metadata.delegations[0].asset, asset);
    let om = p.operator_info(operator).unwrap();
    assert_eq!(om.delegation_count, 1);
    assert_eq!(om.delegations.len(), 1);
    assert_eq!(om.delegations[0].delegator, who);
    assert_eq!(om.delegations[0].amount, amount);
    assert_eq!(om.delegations[0].asset, asset);
    assert_eq!(p.delegate(who, operator, asset, additional, fixed_none()), Ok(()));
    let om = p.operator_info(operator).unwrap();
    assert_eq!(om.delegation_count, 1);
    assert_eq!(om.delegations.len(), 1);
    assert_eq!(om.delegations[0].delegator, who);
    assert_eq!(om.delegations[0].amount, amount + additional);
    assert_eq!(om.delegations[0].asset, asset);
}

#[test]
fn delegate_exceeds_max_delegations() {
    let mut p = new_pallet();
    let who = BOB;
    let amount = 100;
    let max = config().max_delegations;
    let mut operators = vec![];
    for i in 0..max {
        let op = 100 + i as u64;
        p.ledger.deposit_creating(op, 100_000);
        operators.push(op);
        assert_eq!(p.join_operators(op, 10_000), Ok(()));
    }
    let asset = Asset::Custom(999);
    p.ledger.mint_asset(999, who, amount * max as u128);
    assert_eq!(deposit(&mut p, who, asset, amount * max as u128), Ok(()));
    for i in 0..max {
        assert_eq!(p.delegate(who, operators[i as usize], asset, 1, fixed_none()), Ok(()));
    }
    let operator = CHARLIE;
    p.ledger.deposit_creating(operator, 100_000);
    assert_eq!(p.join_operators(operator, 10_000), Ok(()));
    assert_eq!(
        p.delegate(who, operator, asset, amount, fixed_none()),
        Err(Error::MaxDelegationsExceeded)
    );
    assert_eq!(p.delegators(who).unwrap().delegations.len() as u32, max);
}

#[test]
fn delegate_insufficient_deposit() {
    let mut p = new_pallet();
    let (who, operator, asset) = (BOB, ALICE, Asset::Custom(USDC));
    operator_and_deposit(&mut p, who, USDC, 100, 100);
    assert_eq!(p.delegate(who, operator, asset, 101, fixed_none()), Err(Error::InsufficientBalance));
    let metadata = p.delegators(who).unwrap();
    assert_eq!(metadata.delegations.len(), 0);
    assert_eq!(metadata.deposits.len(), 1);
    assert_eq!(metadata.deposits.get(&asset).unwrap().amount, 100);
}

#[test]
fn delegate_to_inactive_operator() {
    let mut p = new_pallet();
    let (who, operator) = (BOB, ALICE);
    operator_and_deposit(&mut p, who, USDC, 100, 100);
    assert_eq!(p.go_offline(operator), Ok(()));
    assert_eq!(
        p.delegate(who, operator, Asset::Custom(USDC), 100, fixed_none()),
        Err(Error::NotActiveOperator)
    );
    assert_eq!(p.delegators(who).unwrap().delegations.len(), 0);
}

#[test]
fn delegate_repeated_same_asset() {
    let mut p = new_pallet();
    let (who, operator, asset) = (BOB, ALICE, Asset::Custom(USDC));
    operator_and_deposit(&mut p, who, USDC, 150, 150);
    assert_eq!(p.delegate(who, operator, asset, 100, fixed_none()), Ok(()));
    assert_eq!(p.delegate(who, operator, asset, 50, fixed_none()), Ok(()));
    let metadata = p.delegators(who).unwrap();
    assert_eq!(metadata.delegations.len(), 1);
    assert_eq!(metadata.delegations[0].amount, 150);
    assert_eq!(metadata.delegations[0].operator, operator);
    assert_eq!(metadata.delegations[0].asset, asset);
    let om = p.operator_info(operator).unwrap();
    assert_eq!(om.delegation_count, 1);
    assert_eq!(om.delegations[0].amount, 150);
    assert_eq!(om.delegations[0].delegator, who);
    assert_eq!(om.delegations[0].asset, asset);
}

#[test]
fn delegate_multiple_assets_same_operator() {
    let mut p = new_pallet();
    let (who, operator, amount) = (BOB, ALICE, 100);
    assert_eq!(p.join_operators(operator, 10_000), Ok(()));
    for id in [USDC, WETH] {
        p.ledger.mint_asset(id, who, amount);
        assert_eq!(deposit(&mut p, who, Asset::Custom(id), amount), Ok(()));
        assert_eq!(p.delegate(who, operator, Asset::Custom(id), amount, fixed_none()), Ok(()));
    }
    let metadata = p.delegators(who).unwrap();
    assert_eq!(metadata.delegations.len(), 2);
    for (i, id) in [USDC, WETH].iter().enumerate() {
        assert_eq!(metadata.delegations[i].amount, amount);
        assert_eq!(metadata.delegations[i].operator, operator);
        assert_eq!(metadata.delegations[i].asset, Asset::Custom(*id));
    }
    let om = p.operator_info(operator).unwrap();
    assert_eq!(om.delegation_count, 2);
    for (i, id) in [USDC, WETH].iter().enumerate() {
        assert_eq!(om.delegations[i].amount, amount);
        assert_eq!(om.delegations[i].delegator, who);
        assert_eq!(om.delegations[i].asset, Asset::Custom(*id));
    }
}

#[test]
fn delegate_zero_amount() {
    let mut p = new_pallet();
    assert_eq!(p.join_operators(ALICE, 10_000), Ok(()));
    assert_eq!(
        p.delegate(BOB, ALICE, Asset::Custom(USDC), 0, fixed_none()),
        Err(Error::InvalidAmount)
    );
}

#[test]
fn delegate_with_no_deposit() {
    let mut p = new_pallet();
    assert_eq!(p.join_operators(ALICE, 10_000), Ok(()));
    assert_eq!(
        p.delegate(BOB, ALICE, Asset::Custom(USDC), 100, fixed_none()),
        Err(Error::NotDelegator)
    );
    assert!(p.delegators(BOB).is_none());
}

#[test]
fn delegate_to_non_operator() {
    let mut p = new_pallet();
    assert_eq!(
        p.delegate(BOB, CHARLIE, Asset::Custom(USDC), 100, fixed_none()),
        Err(Error::NotAnOperator)
    );
}

#[test]
fn blueprints_can_be_added_and_removed() {
    let mut p = new_pallet();
    let (who, operator, asset) = (BOB, ALICE, Asset::Custom(VDOT));
    assert_eq!(p.add_blueprint_id(who, 7), Err(Error::NotDelegator));
    operator_and_deposit(&mut p, who, VDOT, 100, 100);
    assert_eq!(p.delegate(who, operator, asset, 100, fixed_none()), Ok(()));
    assert_eq!(p.add_blueprint_id(who, 7), Ok(()));
    assert_eq!(p.add_blueprint_id(who, 7), Err(Error::DuplicateBlueprintId));
    assert_eq!(fixed_ids(&p, who), Some(vec![7]));
    assert_eq!(p.remove_blueprint_id(who, 7), Ok(()));
    assert_eq!(p.remove_blueprint_id(who, 7), Err(Error::BlueprintIdNotFound));
    assert_eq!(fixed_ids(&p, who), Some(vec![]));
}

#[test]
fn blueprints_need_fixed_selection() {
    let mut p = new_pallet();
    let (who, operator, asset) = (BOB, ALICE, Asset::Custom(VDOT));
    operator_and_deposit(&mut p, who, VDOT, 100, 100);
    assert_eq!(p.delegate(who, operator, asset, 100, DelegatorBlueprintSelection::All), Ok(()));
    assert_eq!(p.add_blueprint_id(who, 7), Err(Error::NotInFixedMode));
    assert_eq!(p.remove_blueprint_id(who, 7), Err(Error::NotInFixedMode));
}

#[test]
fn execute_delegator_unstake_takes_only_ready_requests() {
    let mut p = new_pallet();
    let (who, operator, asset) = (BOB, ALICE, Asset::Custom(VDOT));
    operator_and_deposit(&mut p, who, VDOT, 100, 100);
    assert_eq!(p.delegate(who, operator, asset, 100, fixed_none()), Ok(()));
    assert_eq!(p.schedule_delegator_unstake(who, operator, asset, 30), Ok(()));
    p.set_current_round(3);
    assert_eq!(p.schedule_delegator_unstake(who, operator, asset, 20), Ok(()));
    p.set_current_round(5);
    assert_eq!(p.execute_delegator_unstake(who), Ok(()));
    let m = p.delegators(who).unwrap();
    // The first request is ready (made in round 0, five rounds of delay);
    // the second, made in round 3, stays.
    assert_eq!(m.delegator_unstake_requests.len(), 1);
    assert_eq!(m.delegator_unstake_requests[0].amount, 20);
    assert_eq!(m.delegations[0].amount, 70);
    let d = m.deposits.get(&asset).unwrap();
    assert_eq!((d.amount, d.delegated_amount), (100, 70));
    assert_eq!(p.operator_info(operator).unwrap().delegations[0].amount, 70);
    p.set_current_round(8);
    assert_eq!(p.execute_delegator_unstake(who), Ok(()));
    let m = p.delegators(who).unwrap();
    assert!(m.delegator_unstake_requests.is_empty());
    assert_eq!(m.delegations[0].amount, 50);
}
