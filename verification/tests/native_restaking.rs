#![allow(dead_code, unused_imports)]
use tangle_pallets::asset::{Asset, H160};
use tangle_pallets::ledger::{Ledger, LedgerError};
use tangle_pallets::multi_asset_delegation::pallet::{
    DelegationConfig, Error, Event, MultiAssetDelegation,
};
use tangle_pallets::multi_asset_delegation::types::{DelegatorBlueprintSelection, DelegatorStatus};

const ALICE: u64 = 1;
const BOB: u64 = 2;
const CHARLIE: u64 = 3;
const DAVE: u64 = 4;
const EVE: u64 = 5;
const PALLET: u64 = 1000;
const VDOT: u64 = 4;
const USDC: u64 = 1;
const WETH: u64 = 2;

fn config() -> DelegationConfig {
    DelegationConfig {
        min_operator_bond_amount: 10_000,
        min_delegate_amount: 100,
        leave_operators_delay: 10,
        operator_bond_less_delay: 1,
        leave_delegators_delay: 1,
        delegation_bond_less_delay: 5,
        max_delegations: 50,
        max_withdraw_requests: 50,
        max_unstake_requests: 50,
        max_delegator_blueprints: 50,
        pallet_account: PALLET,
        pallet_evm_address: H160([0xAA; 20]),
        slash_recipient: 999,
        slash_recipient_evm_address: H160([0xBB; 20]),
    }
}

/// Alice, Bob and Charlie hold 200_000; Dave, Eve and the pallet 1_000_000.
fn new_pallet() -> MultiAssetDelegation {
    let mut ledger = Ledger::new();
    for who in [ALICE, BOB, CHARLIE] {
        ledger.deposit_creating(who, 200_000);
    }
    for who in [DAVE, EVE, PALLET] {
        ledger.deposit_creating(who, 1_000_000);
    }
    MultiAssetDelegation::new(config(), ledger)
}

/// Deposits of a configured asset without a cap.
fn deposit(p: &mut MultiAssetDelegation, who: u64, asset: Asset, amount: u128) -> Result<(), Error> {
    p.deposit(who, asset, amount, None, None, Some(u128::MAX))
}

fn fixed_none() -> DelegatorBlueprintSelection {
    DelegatorBlueprintSelection::Fixed(vec![])
}

// The staking system's answer for a nominator is its bonded stake; `None`
// stands for an account that does not nominate.

#[test]
fn native_restaking_should_work() {
    let mut p = new_pallet();
    let (who, operator) = (DAVE, ALICE);
    let amount = 100_000;
    let delegate_amount = amount / 2;
    assert_eq!(p.join_operators(operator, 10_000), Ok(()));
    assert_eq!(
        p.delegate_nomination(who, operator, delegate_amount, fixed_none(), Some(amount)),
        Ok(())
    );
    let metadata = p.delegators(who).unwrap();
    assert_eq!(metadata.delegations.len(), 1);
    let delegation = &metadata.delegations[0];
    assert_eq!(delegation.operator, operator);
    assert_eq!(delegation.amount, delegate_amount);
    assert_eq!(delegation.asset, Asset::Custom(0));
    // The delegation lock covers the delegated amount.
    assert_eq!(p.ledger.locks.get(&who), Some(&delegate_amount));
}

#[test]
fn unbond_should_fail_if_delegated_nomination() {
    let mut p = new_pallet();
    let (who, operator) = (DAVE, ALICE);
    let amount = 100_000;
    let delegate_amount = amount / 2;
    assert_eq!(p.join_operators(operator, 10_000), Ok(()));
    assert_eq!(
        p.delegate_nomination(who, operator, delegate_amount, fixed_none(), Some(amount)),
        Ok(())
    );
    let metadata = p.delegators(who).unwrap();
    assert_eq!(metadata.delegations.len(), 1);
    let delegation = &metadata.delegations[0];
    assert_eq!(delegation.operator, operator);
    assert_eq!(delegation.amount, delegate_amount);
    assert!(delegation.is_nomination);
    assert_eq!(delegation.asset, Asset::Custom(0));
    let om = p.operator_info(operator).unwrap();
    assert_eq!(om.delegation_count, 1);
    assert_eq!(om.delegations[0].delegator, who);
    assert_eq!(om.delegations[0].amount, delegate_amount);
    assert_eq!(p.ledger.locks.get(&who), Some(&delegate_amount));
}

#[test]
fn successful_multiple_native_restaking() {
    let mut p = new_pallet();
    let (who, operator) = (BOB, ALICE);
    assert_eq!(p.join_operators(operator, 10_000), Ok(()));
    assert_eq!(p.delegate_nomination(who, operator, 40, fixed_none(), Some(100)), Ok(()));
    assert_eq!(p.delegate_nomination(who, operator, 30, fixed_none(), Some(100)), Ok(()));
    let metadata = p.delegators(who).unwrap();
    assert_eq!(metadata.delegations.len(), 1);
    assert_eq!(metadata.delegations[0].operator, operator);
    assert_eq!(metadata.delegations[0].amount, 70);
    let om = p.operator_info(operator).unwrap();
    assert_eq!(om.delegation_count, 1);
    assert_eq!(om.delegations[0].delegator, who);
    assert_eq!(om.delegations[0].amount, 70);
    assert_eq!(p.ledger.locks.get(&who), Some(&70));
}

#[test]
fn native_restake_exceeding_nomination_amount() {
    let mut p = new_pallet();
    assert_eq!(p.join_operators(ALICE, 10_000), Ok(()));
    assert_eq!(
        p.delegate_nomination(BOB, ALICE, 150, fixed_none(), Some(100)),
        Err(Error::InsufficientBalance)
    );
}

#[test]
fn native_restake_total_cannot_exceed_nomination() {
    let mut p = new_pallet();
    assert_eq!(p.join_operators(ALICE, 10_000), Ok(()));
    assert_eq!(p.delegate_nomination(BOB, ALICE, 60, fixed_none(), Some(100)), Ok(()));
    assert_eq!(
        p.delegate_nomination(BOB, ALICE, 50, fixed_none(), Some(100)),
        Err(Error::InsufficientBalance)
    );
}

#[test]
fn native_restake_with_no_active_nomination() {
    let mut p = new_pallet();
    assert_eq!(p.join_operators(ALICE, 10_000), Ok(()));
    assert_eq!(p.delegate_nomination(BOB, ALICE, 100, fixed_none(), None), Err(Error::NotNominator));
}

#[test]
fn native_restake_to_non_operator() {
    let mut p = new_pallet();
    assert_eq!(
        p.delegate_nomination(BOB, CHARLIE, 100, fixed_none(), Some(100)),
        Err(Error::NotAnOperator)
    );
}

#[test]
fn native_restake_and_unstake_flow() {
    let mut p = new_pallet();
    let (who, operator, amount, unstake_amount) = (BOB, ALICE, 100, 40);
    assert_eq!(p.join_operators(operator, 10_000), Ok(()));
    assert_eq!(p.delegate_nomination(who, operator, amount, fixed_none(), Some(amount)), Ok(()));
    assert_eq!(p.schedule_nomination_unstake(who, operator, unstake_amount, fixed_none()), Ok(()));
    let metadata = p.delegators(who).unwrap();
    assert_eq!(metadata.delegator_unstake_requests.len(), 1);
    assert_eq!(metadata.delegator_unstake_requests[0].operator, operator);
    assert_eq!(metadata.delegator_unstake_requests[0].amount, unstake_amount);
    p.set_current_round(10);
    assert_eq!(p.execute_nomination_unstake(who, operator), Ok(()));
    let metadata = p.delegators(who).unwrap();
    assert_eq!(metadata.delegations.len(), 1);
    assert_eq!(metadata.delegations[0].amount, amount - unstake_amount);
    assert!(metadata.delegator_unstake_requests.is_empty());
}

#[test]
fn native_restake_zero_amount() {
    let mut p = new_pallet();
    assert_eq!(p.join_operators(ALICE, 10_000), Ok(()));
    assert_eq!(
        p.delegate_nomination(BOB, ALICE, 0, fixed_none(), Some(100)),
        Err(Error::InvalidAmount)
    );
}

#[test]
fn native_restake_concurrent_operations() {
    let mut p = new_pallet();
    let (who, operator) = (BOB, ALICE);
    assert_eq!(p.join_operators(operator, 10_000), Ok(()));
    assert_eq!(p.delegate_nomination(who, operator, 50, fixed_none(), Some(100)), Ok(()));
    assert_eq!(p.schedule_nomination_unstake(who, operator, 20, fixed_none()), Ok(()));
    assert_eq!(p.delegate_nomination(who, operator, 30, fixed_none(), Some(100)), Ok(()));
    let metadata = p.delegators(who).unwrap();
    assert_eq!(metadata.delegations[0].amount, 80);
    assert_eq!(metadata.delegator_unstake_requests.len(), 1);
}

#[test]
fn native_restake_early_unstake_execution_fails() {
    let mut p = new_pallet();
    let (who, operator, amount, unstake_amount) = (BOB, ALICE, 100, 40);
    assert_eq!(p.join_operators(operator, 10_000), Ok(()));
    assert_eq!(p.delegate_nomination(who, operator, amount, fixed_none(), Some(amount)), Ok(()));
    let metadata = p.delegators(who).unwrap();
    assert_eq!(metadata.delegations.len(), 1);
    assert_eq!(metadata.delegations[0].operator, operator);
    assert_eq!(metadata.delegations[0].amount, amount);
    assert!(metadata.delegations[0].is_nomination);
    assert_eq!(metadata.delegator_unstake_requests.len(), 0);
    assert_eq!(p.schedule_nomination_unstake(who, operator, unstake_amount, fixed_none()), Ok(()));
    let metadata = p.delegators(who).unwrap();
    assert_eq!(metadata.delegator_unstake_requests.len(), 1);
    assert_eq!(metadata.delegator_unstake_requests[0].operator, operator);
    assert_eq!(metadata.delegator_unstake_requests[0].amount, unstake_amount);
    assert!(metadata.delegator_unstake_requests[0].is_nomination);
    assert_eq!(p.execute_nomination_unstake(who, operator), Err(Error::BondLessNotReady));
    let metadata = p.delegators(who).unwrap();
    assert_eq!(metadata.delegations.len(), 1);
    assert_eq!(metadata.delegations[0].operator, operator);
    assert_eq!(metadata.delegations[0].amount, amount);
    assert!(metadata.delegations[0].is_nomination);
    assert_eq!(metadata.delegator_unstake_requests.len(), 1);
    assert_eq!(metadata.delegator_unstake_requests[0].operator, operator);
    assert_eq!(metadata.delegator_unstake_requests[0].amount, unstake_amount);
    assert!(metadata.delegator_unstake_requests[0].is_nomination);
}

#[test]
fn native_restake_cancel_unstake() {
    let mut p = new_pallet();
    let (who, operator, amount, unstake_amount) = (BOB, ALICE, 100, 40);
    assert_eq!(p.join_operators(operator, 10_000), Ok(()));
    assert_eq!(p.delegate_nomination(who, operator, amount, fixed_none(), Some(amount)), Ok(()));
    assert_eq!(p.schedule_nomination_unstake(who, operator, unstake_amount, fixed_none()), Ok(()));
    let metadata = p.delegators(who).unwrap();
    assert_eq!(metadata.delegator_unstake_requests.len(), 1);
    assert_eq!(metadata.delegator_unstake_requests[0].operator, operator);
    assert_eq!(metadata.delegator_unstake_requests[0].amount, unstake_amount);
    assert_eq!(p.cancel_nomination_unstake(who, operator), Ok(()));
    let metadata = p.delegators(who).unwrap();
    assert_eq!(metadata.delegator_unstake_requests.len(), 0);
    assert_eq!(metadata.delegations[0].amount, amount);
    assert_eq!(p.execute_nomination_unstake(who, operator), Err(Error::NoBondLessRequest));
}

#[test]
fn nomination_unstake_of_more_than_delegated_is_refused() {
    let mut p = new_pallet();
    assert_eq!(p.join_operators(ALICE, 10_000), Ok(()));
    assert_eq!(p.schedule_nomination_unstake(BOB, ALICE, 10, fixed_none()), Err(Error::NotDelegator));
    assert_eq!(p.delegate_nomination(BOB, ALICE, 100, fixed_none(), Some(100)), Ok(()));
    assert_eq!(
        p.schedule_nomination_unstake(BOB, ALICE, 101, fixed_none()),
        Err(Error::InsufficientBalance)
    );
    assert_eq!(
        p.schedule_nomination_unstake(BOB, CHARLIE, 10, fixed_none()),
        Err(Error::NotAnOperator)
    );
    assert_eq!(p.join_operators(CHARLIE, 10_000), Ok(()));
    assert_eq!(
        p.schedule_nomination_unstake(BOB, CHARLIE, 10, fixed_none()),
        Err(Error::NoActiveDelegation)
    );
}

#[test]
fn whole_nomination_unstake_removes_the_delegation() {
    let mut p = new_pallet();
    assert_eq!(p.join_operators(ALICE, 10_000), Ok(()));
    assert_eq!(p.delegate_nomination(BOB, ALICE, 100, fixed_none(), Some(100)), Ok(()));
    assert_eq!(p.schedule_nomination_unstake(BOB, ALICE, 100, fixed_none()), Ok(()));
    p.set_current_round(10);
    assert_eq!(p.execute_nomination_unstake(BOB, ALICE), Ok(()));
    assert!(p.delegators(BOB).unwrap().delegations.is_empty());
    assert_eq!(p.operator_info(ALICE).unwrap().delegation_count, 0);
}

#[test]
fn the_delegation_lock_covers_every_nomination_delegation() {
    let mut p = new_pallet();
    assert_eq!(p.join_operators(ALICE, 10_000), Ok(()));
    assert_eq!(p.join_operators(CHARLIE, 10_000), Ok(()));
    assert_eq!(p.delegate_nomination(BOB, ALICE, 50, fixed_none(), Some(100)), Ok(()));
    assert_eq!(p.ledger.locks.get(&BOB), Some(&50));
    assert_eq!(p.delegate_nomination(BOB, CHARLIE, 30, fixed_none(), Some(100)), Ok(()));
    assert_eq!(p.ledger.locks.get(&BOB), Some(&80));
    assert_eq!(p.delegators(BOB).unwrap().total_nomination_delegations(), 80);
    // Unstaking 20 from Alice leaves 60 delegated, all of it locked.
    assert_eq!(p.schedule_nomination_unstake(BOB, ALICE, 20, fixed_none()), Ok(()));
    p.set_current_round(10);
    assert_eq!(p.execute_nomination_unstake(BOB, ALICE), Ok(()));
    assert_eq!(p.ledger.locks.get(&BOB), Some(&60));
    // Unstaking everything from Charlie keeps Alice's 30 locked.
    assert_eq!(p.schedule_nomination_unstake(BOB, CHARLIE, 30, fixed_none()), Ok(()));
    p.set_current_round(20);
    assert_eq!(p.execute_nomination_unstake(BOB, CHARLIE), Ok(()));
    assert_eq!(p.ledger.locks.get(&BOB), Some(&30));
    // The last unstake releases the lock.
    assert_eq!(p.schedule_nomination_unstake(BOB, ALICE, 30, fixed_none()), Ok(()));
    p.set_current_round(30);
    assert_eq!(p.execute_nomination_unstake(BOB, ALICE), Ok(()));
    assert_eq!(p.ledger.locks.get(&BOB), None);
}
