use tangle_pallets::asset::{Asset, H160};
use tangle_pallets::ledger::{Ledger, LedgerError};
use tangle_pallets::multi_asset_delegation::pallet::{
    DelegationConfig, Error, Event, MultiAssetDelegation,
};
use tangle_pallets::multi_asset_delegation::slash::UnappliedSlash;
use tangle_pallets::multi_asset_delegation::types::{DelegatorBlueprintSelection, OperatorStatus};

const ALICE: u64 = 1;
const BOB: u64 = 2;
const CHARLIE: u64 = 3;
const DAVE: u64 = 4;
const EVE: u64 = 5;
const PALLET: u64 = 1000;

fn config() -> DelegationConfig {
    DelegationConfig {
        min_operator_bond_amount: 10_000,
        min_delegate_amount: 100,
        leave_operators_delay: 10,
        operator_bond_less_delay: 1,
        leave_delegators_delay: 1,
        delegation_bond_less_delay: 5,
        max_delegations: 50,
        max_withdraw_requests: 50,
        max_unstake_requests: 50,
        max_delegator_blueprints: 50,
        pallet_account: PALLET,
        pallet_evm_address: H160([0xAA; 20]),
        slash_recipient: 999,
        slash_recipient_evm_address: H160([0xBB; 20]),
    }
}

/// Alice, Bob and Charlie hold 200_000; Dave, Eve and the pallet 1_000_000.
fn operator_pallet() -> MultiAssetDelegation {
    let mut ledger = Ledger::new();
    for who in [ALICE, BOB, CHARLIE] {
        ledger.deposit_creating(who, 200_000);
    }
    for who in [DAVE, EVE, PALLET] {
        ledger.deposit_creating(who, 1_000_000);
    }
    MultiAssetDelegation::new(config(), ledger)
}

/// Accounts 1 to 3 hold 1_000_000; account 4 holds only 5_000.
fn small_balance_pallet() -> MultiAssetDelegation {
    let mut ledger = Ledger::new();
    for who in [1u64, 2, 3] {
        ledger.deposit_creating(who, 1_000_000);
    }
    ledger.deposit_creating(4, 5_000);
    MultiAssetDelegation::new(config(), ledger)
}

#[test]
fn tests_join_operator_success() {
    let mut p = small_balance_pallet();
    let bond_amount = 10_000;
    assert_eq!(p.join_operators(1, bond_amount), Ok(()));
    let info = p.operator_info(1).unwrap();
    assert_eq!(info.stake, bond_amount);
    assert_eq!(info.delegation_count, 0);
    assert_eq!(info.request, None);
    assert_eq!(info.status, OperatorStatus::Active);
    assert!(p.events.contains(&Event::OperatorJoined { who: 1 }));
}

#[test]
fn tests_join_operator_already_operator() {
    let mut p = small_balance_pallet();
    assert_eq!(p.join_operators(1, 10_000), Ok(()));
    assert_eq!(p.join_operators(1, 10_000), Err(Error::AlreadyOperator));
}

#[test]
fn tests_join_operator_insufficient_bond() {
    let mut p = small_balance_pallet();
    assert_eq!(p.join_operators(4, 5_000), Err(Error::BondTooLow));
}

#[test]
fn tests_join_operator_insufficient_funds() {
    let mut p = small_balance_pallet();
    assert_eq!(
        p.join_operators(4, 15_000),
        Err(Error::Balances(LedgerError::InsufficientBalance))
    );
    assert!(p.operator_info(4).is_none());
}

#[test]
fn tests_join_operator_minimum_bond() {
    let mut p = small_balance_pallet();
    assert_eq!(p.join_operators(1, 10_000), Ok(()));
    assert_eq!(p.operator_info(1).unwrap().stake, 10_000);
}

#[test]
fn tests_schedule_leave_operator_success() {
    let mut p = small_balance_pallet();
    assert_eq!(p.schedule_leave_operators(1, true), Err(Error::NotAnOperator));
    p.set_current_round(5);
    assert_eq!(p.join_operators(1, 10_000), Ok(()));
    assert_eq!(p.schedule_leave_operators(1, true), Ok(()));
    assert_eq!(p.operator_info(1).unwrap().status, OperatorStatus::Leaving(15));
    assert!(p.events.contains(&Event::OperatorLeavingScheduled { who: 1 }));
}

#[test]
fn operator_join_operator_success() {
    let mut p = operator_pallet();
    let bond_amount = 10_000;
    assert_eq!(p.join_operators(ALICE, bond_amount), Ok(()));
    let info = p.operator_info(ALICE).unwrap();
    assert_eq!(info.stake, bond_amount);
    assert_eq!(info.delegation_count, 0);
    assert_eq!(info.request, None);
    assert_eq!(info.status, OperatorStatus::Active);
    assert!(p.events.contains(&Event::OperatorJoined { who: ALICE }));
}

#[test]
fn operator_join_operator_already_operator() {
    let mut p = operator_pallet();
    assert_eq!(p.join_operators(ALICE, 10_000), Ok(()));
    assert_eq!(p.join_operators(ALICE, 10_000), Err(Error::AlreadyOperator));
}

#[test]
fn operator_join_operator_insufficient_bond() {
    let mut p = operator_pallet();
    assert_eq!(p.join_operators(EVE, 5_000), Err(Error::BondTooLow));
}

#[test]
fn operator_join_operator_insufficient_funds() {
    let mut p = operator_pallet();
    assert_eq!(
        p.join_operators(ALICE, 350_000),
        Err(Error::Balances(LedgerError::InsufficientBalance))
    );
    assert!(p.operator_info(ALICE).is_none());
}

#[test]
fn operator_join_operator_minimum_bond() {
    let mut p = operator_pallet();
    assert_eq!(p.join_operators(ALICE, 10_000), Ok(()));
    assert_eq!(p.operator_info(ALICE).unwrap().stake, 10_000);
}

#[test]
fn operator_schedule_leave_operator_success() {
    let mut p = operator_pallet();
    assert_eq!(p.schedule_leave_operators(ALICE, true), Err(Error::NotAnOperator));
    p.set_current_round(5);
    assert_eq!(p.join_operators(ALICE, 10_000), Ok(()));
    assert_eq!(p.schedule_leave_operators(ALICE, true), Ok(()));
    assert_eq!(p.operator_info(ALICE).unwrap().status, OperatorStatus::Leaving(15));
    assert!(p.events.contains(&Event::OperatorLeavingScheduled { who: ALICE }));
}

#[test]
fn cancel_leave_operator_tests() {
    let mut p = operator_pallet();
    assert_eq!(p.join_operators(ALICE, 10_000), Ok(()));
    p.set_current_round(5);
    assert_eq!(p.schedule_leave_operators(ALICE, true), Ok(()));
    assert_eq!(p.operator_info(ALICE).unwrap().status, OperatorStatus::Leaving(15));
    assert_eq!(p.cancel_leave_operators(ALICE), Ok(()));
    assert_eq!(p.operator_info(ALICE).unwrap().status, OperatorStatus::Active);
    assert!(p.events.contains(&Event::OperatorLeaveCancelled { who: ALICE }));
    assert_eq!(p.cancel_leave_operators(ALICE), Err(Error::NotLeavingOperator));
    assert_eq!(p.schedule_leave_operators(ALICE, true), Ok(()));
    assert_eq!(p.cancel_leave_operators(BOB), Err(Error::NotAnOperator));
}

#[test]
fn operator_bond_more_success() {
    let mut p = operator_pallet();
    assert_eq!(p.join_operators(ALICE, 10_000), Ok(()));
    assert_eq!(p.operator_bond_more(ALICE, 5_000), Ok(()));
    assert_eq!(p.operator_info(ALICE).unwrap().stake, 15_000);
    assert!(p.events.contains(&Event::OperatorBondMore { who: ALICE, additional_bond: 5_000 }));
}

#[test]
fn operator_bond_more_not_an_operator() {
    let mut p = operator_pallet();
    assert_eq!(p.operator_bond_more(ALICE, 5_000), Err(Error::NotAnOperator));
}

#[test]
fn operator_bond_more_insufficient_balance() {
    let mut p = operator_pallet();
    assert_eq!(p.join_operators(ALICE, 10_000), Ok(()));
    assert_eq!(
        p.operator_bond_more(ALICE, 1_150_000),
        Err(Error::Balances(LedgerError::InsufficientBalance))
    );
    assert_eq!(p.operator_info(ALICE).unwrap().stake, 10_000);
}

#[test]
fn schedule_operator_unstake_success() {
    let mut p = operator_pallet();
    assert_eq!(p.join_operators(ALICE, 20_000), Ok(()));
    assert_eq!(p.schedule_operator_unstake(ALICE, 5_000, true), Ok(()));
    let info = p.operator_info(ALICE).unwrap();
    assert_eq!(info.request.unwrap().amount, 5_000);
    assert!(info.stake.saturating_sub(5_000) >= 10_000);
    assert!(p
        .events
        .contains(&Event::OperatorBondLessScheduled { who: ALICE, unstake_amount: 5_000 }));
}

#[test]
fn schedule_operator_unstake_respects_minimum_stake() {
    let mut p = operator_pallet();
    assert_eq!(p.join_operators(ALICE, 20_000), Ok(()));
    assert_eq!(
        p.schedule_operator_unstake(ALICE, 15_000, true),
        Err(Error::InsufficientStakeRemaining)
    );
}

#[test]
fn schedule_operator_unstake_not_an_operator() {
    let mut p = operator_pallet();
    assert_eq!(p.schedule_operator_unstake(ALICE, 5_000, true), Err(Error::NotAnOperator));
}

#[test]
fn execute_operator_unstake_success() {
    let mut p = operator_pallet();
    assert_eq!(p.join_operators(ALICE, 20_000), Ok(()));
    assert_eq!(p.schedule_operator_unstake(ALICE, 5_000, true), Ok(()));
    p.set_current_round(15);
    let reserved = p.ledger.reserved_balance(ALICE);
    assert_eq!(p.execute_operator_unstake(ALICE), Ok(()));
    let reserved_after = p.ledger.reserved_balance(ALICE);
    let info = p.operator_info(ALICE).unwrap();
    assert_eq!(info.stake, 15_000);
    assert_eq!(info.request, None);
    assert_eq!(reserved - reserved_after, 5_000);
    assert!(p.events.contains(&Event::OperatorBondLessExecuted { who: ALICE }));
}

#[test]
fn execute_operator_unstake_not_an_operator() {
    let mut p = operator_pallet();
    assert_eq!(p.execute_operator_unstake(ALICE), Err(Error::NotAnOperator));
}

#[test]
fn execute_operator_unstake_no_scheduled_unstake() {
    let mut p = operator_pallet();
    assert_eq!(p.join_operators(ALICE, 10_000), Ok(()));
    assert_eq!(p.execute_operator_unstake(ALICE), Err(Error::NoScheduledBondLess));
}

#[test]
fn execute_operator_unstake_request_not_satisfied() {
    let mut p = operator_pallet();
    assert_eq!(p.join_operators(ALICE, 20_000), Ok(()));
    assert_eq!(p.schedule_operator_unstake(ALICE, 5_000, true), Ok(()));
    assert_eq!(p.execute_operator_unstake(ALICE), Err(Error::BondLessRequestNotSatisfied));
}

#[test]
fn cancel_operator_unstake_success() {
    let mut p = operator_pallet();
    assert_eq!(p.join_operators(ALICE, 20_000), Ok(()));
    assert_eq!(p.schedule_operator_unstake(ALICE, 5_000, true), Ok(()));
    assert_eq!(p.cancel_operator_unstake(ALICE), Ok(()));
    assert_eq!(p.operator_info(ALICE).unwrap().request, None);
    assert!(p.events.contains(&Event::OperatorBondLessCancelled { who: ALICE }));
}

#[test]
fn cancel_operator_unstake_not_an_operator() {
    let mut p = operator_pallet();
    assert_eq!(p.cancel_operator_unstake(ALICE), Err(Error::NotAnOperator));
}

#[test]
fn cancel_operator_unstake_no_scheduled_unstake() {
    let mut p = operator_pallet();
    assert_eq!(p.join_operators(ALICE, 10_000), Ok(()));
    assert_eq!(p.cancel_operator_unstake(ALICE), Err(Error::NoScheduledBondLess));
}

#[test]
fn go_offline_success() {
    let mut p = operator_pallet();
    assert_eq!(p.join_operators(ALICE, 10_000), Ok(()));
    assert_eq!(p.go_offline(ALICE), Ok(()));
    assert_eq!(p.operator_info(ALICE).unwrap().status, OperatorStatus::Inactive);
    assert!(p.events.contains(&Event::OperatorWentOffline { who: ALICE }));
}

#[test]
fn go_offline_not_an_operator() {
    let mut p = operator_pallet();
    assert_eq!(p.go_offline(ALICE), Err(Error::NotAnOperator));
}

#[test]
fn go_online_success() {
    let mut p = operator_pallet();
    assert_eq!(p.join_operators(ALICE, 10_000), Ok(()));
    assert_eq!(p.go_offline(ALICE), Ok(()));
    assert_eq!(p.go_online(ALICE), Ok(()));
    assert_eq!(p.operator_info(ALICE).unwrap().status, OperatorStatus::Active);
    assert!(p.events.contains(&Event::OperatorWentOnline { who: ALICE }));
}

#[test]
fn leave_and_execute_returns_the_bond() {
    let mut p = operator_pallet();
    assert_eq!(p.join_operators(ALICE, 10_000), Ok(()));
    assert_eq!(p.ledger.free_balance(ALICE), 190_000);
    assert_eq!(p.schedule_leave_operators(ALICE, true), Ok(()));
    assert_eq!(p.execute_leave_operators(ALICE), Err(Error::LeavingRoundNotReached));
    p.set_current_round(10);
    assert_eq!(p.execute_leave_operators(ALICE), Ok(()));
    assert!(p.operator_info(ALICE).is_none());
    assert_eq!(p.ledger.free_balance(ALICE), 200_000);
    assert_eq!(p.ledger.reserved_balance(ALICE), 0);
}

#[test]
fn schedule_leave_refused_while_services_run() {
    let mut p = operator_pallet();
    assert_eq!(p.join_operators(ALICE, 10_000), Ok(()));
    assert_eq!(p.schedule_leave_operators(ALICE, false), Err(Error::CannotExit));
    assert_eq!(p.operator_info(ALICE).unwrap().status, OperatorStatus::Active);
}

#[test]
fn custom_assets_do_not_change_operator_funds() {
    let p = operator_pallet();
    assert_eq!(p.ledger.asset_balance(7, ALICE), 0);
    assert_eq!(Asset::Custom(0), Asset::default_asset());
}

/// Mints `amount` of custom asset `id` to `who` and deposits it.
fn mint_and_deposit(p: &mut MultiAssetDelegation, who: u64, id: u64, amount: u128) {
    p.ledger.mint_asset(id, who, amount);
    assert_eq!(p.deposit(who, Asset::Custom(id), amount, None, None, Some(u128::MAX)), Ok(()));
}

#[test]
fn slash_operator_success() {
    let mut p = operator_pallet();
    let operator_stake = 10_000;
    assert_eq!(p.join_operators(ALICE, operator_stake), Ok(()));
    let delegator1_stake = 5_000;
    let delegator2_stake = 3_000;
    let asset1 = Asset::Custom(1);
    let asset2 = Asset::Custom(2);
    let blueprint_id = 1;
    let service_id = 42;

    mint_and_deposit(&mut p, BOB, 1, delegator1_stake);
    assert_eq!(p.add_blueprint_id(BOB, blueprint_id), Ok(()));
    assert_eq!(
        p.delegate(
            BOB,
            ALICE,
            asset1,
            delegator1_stake,
            DelegatorBlueprintSelection::Fixed(vec![blueprint_id])
        ),
        Ok(())
    );
    mint_and_deposit(&mut p, EVE, 2, delegator2_stake);
    assert_eq!(
        p.delegate(EVE, ALICE, asset2, delegator2_stake, DelegatorBlueprintSelection::Fixed(vec![])),
        Ok(())
    );

    // A slash of half the stakes of the operator and of the delegators that
    // selected the blueprint.
    let slash = UnappliedSlash { operator: ALICE, slash_percent: 50, service_id, blueprint_id, era: 1 };
    assert_eq!(p.slash_operator(&slash, &vec![true, true]), Ok(()));

    let exposed_stake = operator_stake / 2;
    let exposed_delegation = delegator1_stake / 2;
    assert_eq!(p.operator_info(ALICE).unwrap().stake, operator_stake - exposed_stake);
    let d1 = p.delegators(BOB).unwrap();
    let del1 = d1.delegations.iter().find(|d| d.operator == ALICE && d.asset == asset1).unwrap();
    assert_eq!(del1.amount, delegator1_stake - exposed_delegation);
    let d2 = p.delegators(EVE).unwrap();
    let del2 = d2.delegations.iter().find(|d| d.operator == ALICE && d.asset == asset2).unwrap();
    assert_eq!(del2.amount, delegator2_stake);

    assert!(p.events.contains(&Event::OperatorSlashed {
        operator: ALICE,
        amount: exposed_stake,
        service_id,
        blueprint_id,
        era: 1,
    }));
    assert!(p.events.contains(&Event::DelegatorSlashed {
        delegator: BOB,
        amount: exposed_delegation,
        asset: asset1,
        service_id,
        blueprint_id,
        era: 1,
    }));
    // The slashed funds reach the slash recipient.
    assert_eq!(p.ledger.free_balance(999), exposed_stake);
    assert_eq!(p.ledger.asset_balance(1, 999), exposed_delegation);
}

#[test]
fn slash_operator_not_an_operator() {
    let mut p = operator_pallet();
    let slash = UnappliedSlash { operator: ALICE, slash_percent: 50, service_id: 42, blueprint_id: 1, era: 1 };
    assert_eq!(p.slash_operator(&slash, &vec![]), Err(Error::NotAnOperator));
}

#[test]
fn slash_operator_not_active() {
    let mut p = operator_pallet();
    assert_eq!(p.join_operators(ALICE, 10_000), Ok(()));
    assert_eq!(p.go_offline(ALICE), Ok(()));
    let slash = UnappliedSlash { operator: ALICE, slash_percent: 50, service_id: 42, blueprint_id: 1, era: 1 };
    assert_eq!(p.slash_operator(&slash, &vec![]), Err(Error::NotActiveOperator));
    assert_eq!(p.operator_info(ALICE).unwrap().stake, 10_000);
}

#[test]
fn slash_delegator_fixed_blueprint_not_selected() {
    let mut p = operator_pallet();
    assert_eq!(p.join_operators(ALICE, 10_000), Ok(()));
    let delegator_stake = 5_000;
    let asset = Asset::Custom(1);
    mint_and_deposit(&mut p, BOB, 1, delegator_stake);
    assert_eq!(p.add_blueprint_id(BOB, 1), Ok(()));
    assert_eq!(
        p.delegate(BOB, ALICE, asset, delegator_stake, DelegatorBlueprintSelection::Fixed(vec![2])),
        Ok(())
    );
    let slash = UnappliedSlash { operator: ALICE, slash_percent: 50, service_id: 42, blueprint_id: 1, era: 1 };
    assert_eq!(p.slash_operator(&slash, &vec![true]), Ok(()));
    let d = p.delegators(BOB).unwrap();
    let del = d.delegations.iter().find(|d| d.operator == ALICE).unwrap();
    assert_eq!(del.amount, delegator_stake);
}

#[test]
fn slash_of_more_than_all_takes_everything() {
    let mut p = operator_pallet();
    assert_eq!(p.join_operators(ALICE, 10_000), Ok(()));
    let slash = UnappliedSlash { operator: ALICE, slash_percent: 150, service_id: 1, blueprint_id: 1, era: 1 };
    assert_eq!(p.slash_operator(&slash, &vec![]), Ok(()));
    assert_eq!(p.operator_info(ALICE).unwrap().stake, 0);
}

#[test]
fn schedule_operator_unstake_of_more_than_the_stake_is_refused() {
    let mut p = operator_pallet();
    assert_eq!(p.join_operators(ALICE, 20_000), Ok(()));
    assert_eq!(p.schedule_operator_unstake(ALICE, 20_001, true), Err(Error::InsufficientBalance));
    assert_eq!(p.operator_info(ALICE).unwrap().request, None);
}
