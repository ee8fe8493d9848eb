#![allow(dead_code, unused_imports)]
use tangle_pallets::asset::{Asset, H160};
use tangle_pallets::ledger::{Ledger, LedgerError};
use tangle_pallets::multi_asset_delegation::pallet::{
    DelegationConfig, Error, Event, MultiAssetDelegation,
};
use tangle_pallets::multi_asset_delegation::types::{
    DelegatorBlueprintSelection, DelegatorStatus, LockMultiplier,
};

const ALICE: u64 = 1;
const BOB: u64 = 2;
const CHARLIE: u64 = 3;
const DAVE: u64 = 4;
const EVE: u64 = 5;
const PALLET: u64 = 1000;
const VDOT: u64 = 4;
const USDC: u64 = 1;
const WETH: u64 = 2;

fn config() -> DelegationConfig {
    DelegationConfig {
        min_operator_bond_amount: 10_000,
        min_delegate_amount: 100,
        leave_operators_delay: 10,
        operator_bond_less_delay: 1,
        leave_delegators_delay: 1,
        delegation_bond_less_delay: 5,
        max_delegations: 50,
        max_withdraw_requests: 50,
        max_unstake_requests: 50,
        max_delegator_blueprints: 50,
        pallet_account: PALLET,
        pallet_evm_address: H160([0xAA; 20]),
        slash_recipient: 999,
        slash_recipient_evm_address: H160([0xBB; 20]),
    }
}

/// Alice, Bob and Charlie hold 200_000; Dave, Eve and the pallet 1_000_000.
fn new_pallet() -> MultiAssetDelegation {
    let mut ledger = Ledger::new();
    for who in [ALICE, BOB, CHARLIE] {
        ledger.deposit_creating(who, 200_000);
    }
    for who in [DAVE, EVE, PALLET] {
        ledger.deposit_creating(who, 1_000_000);
    }
    MultiAssetDelegation::new(config(), ledger)
}

/// Deposits of a configured asset without a cap.
fn deposit(p: &mut MultiAssetDelegation, who: u64, asset: Asset, amount: u128) -> Result<(), Error> {
    p.deposit(who, asset, amount, None, None, Some(u128::MAX))
}

#[test]
fn deposit_should_work_for_fungible_asset() {
    let mut p = new_pallet();
    let who = 1;
    let amount = 200;
    p.ledger.mint_asset(VDOT, who, amount);
    assert_eq!(deposit(&mut p, who, Asset::Custom(VDOT), amount), Ok(()));
    let metadata = p.delegators(who).unwrap();
    assert_eq!(metadata.deposits.get(&Asset::Custom(VDOT)).map(|d| d.amount), Some(amount));
    assert_eq!(
        p.events.last(),
        Some(&Event::Deposited { who, amount, asset: Asset::Custom(VDOT) })
    );
    // The deposited asset moved to the pallet.
    assert_eq!(p.ledger.asset_balance(VDOT, who), 0);
    assert_eq!(p.ledger.asset_balance(VDOT, PALLET), amount);
}

#[test]
fn multiple_deposit_should_work() {
    let mut p = new_pallet();
    let who = 1;
    let amount = 200;
    p.ledger.mint_asset(VDOT, who, amount * 4);
    assert_eq!(deposit(&mut p, who, Asset::Custom(VDOT), amount), Ok(()));
    let metadata = p.delegators(who).unwrap();
    assert_eq!(metadata.deposits.get(&Asset::Custom(VDOT)).map(|d| d.amount), Some(amount));
    assert_eq!(
        p.events.last(),
        Some(&Event::Deposited { who, amount, asset: Asset::Custom(VDOT) })
    );
    assert_eq!(deposit(&mut p, who, Asset::Custom(VDOT), amount), Ok(()));
    let metadata = p.delegators(who).unwrap();
    assert_eq!(metadata.deposits.get(&Asset::Custom(VDOT)).map(|d| d.amount), Some(amount * 2));
    assert_eq!(
        p.events.last(),
        Some(&Event::Deposited { who, amount, asset: Asset::Custom(VDOT) })
    );
}

#[test]
fn deposit_should_fail_for_insufficient_balance() {
    let mut p = new_pallet();
    let who = 1;
    p.ledger.mint_asset(VDOT, who, 100);
    assert_eq!(
        deposit(&mut p, who, Asset::Custom(VDOT), 2000),
        Err(Error::Balances(LedgerError::InsufficientBalance))
    );
    assert!(p.delegators(who).is_none());
}

#[test]
fn deposit_should_fail_for_bond_too_low() {
    let mut p = new_pallet();
    let who = 1;
    let amount = 50;
    p.ledger.mint_asset(VDOT, who, amount);
    assert_eq!(deposit(&mut p, who, Asset::Custom(VDOT), amount), Err(Error::BondTooLow));
}

#[test]
fn deposit_checks_the_cap_and_the_configuration() {
    let mut p = new_pallet();
    p.ledger.mint_asset(VDOT, 1, 500);
    assert_eq!(
        p.deposit(1, Asset::Custom(VDOT), 200, None, None, None),
        Err(Error::AssetConfigNotFound)
    );
    assert_eq!(
        p.deposit(1, Asset::Custom(VDOT), 200, None, None, Some(150)),
        Err(Error::DepositExceedsCapForAsset)
    );
    assert_eq!(p.deposit(1, Asset::Custom(VDOT), 200, None, None, Some(200)), Ok(()));
}

#[test]
fn deposit_origin_rules() {
    let mut p = new_pallet();
    let token = Asset::Erc20(H160([0x23; 20]));
    // An ERC20 deposit comes through the pallet's account with an EVM address.
    assert_eq!(p.deposit(1, token, 200, None, None, Some(u128::MAX)), Err(Error::NotAuthorized));
    assert_eq!(p.deposit(1, token, 200, Some(2), None, Some(u128::MAX)), Err(Error::BadOrigin));
    assert_eq!(p.deposit(PALLET, token, 200, Some(2), None, Some(u128::MAX)), Ok(()));
    assert_eq!(p.delegators(2).unwrap().deposits.get(&token).map(|d| d.amount), Some(200));
    // A custom asset deposit with an EVM account must name the caller.
    p.ledger.mint_asset(VDOT, 1, 500);
    assert_eq!(
        p.deposit(1, Asset::Custom(VDOT), 200, Some(3), None, Some(u128::MAX)),
        Err(Error::BadOrigin)
    );
}

#[test]
fn schedule_unstake_should_work() {
    let mut p = new_pallet();
    let who = 1;
    let asset = Asset::Custom(VDOT);
    let amount = 100;
    p.ledger.mint_asset(VDOT, who, 100);
    assert_eq!(deposit(&mut p, who, asset, amount), Ok(()));
    assert_eq!(p.schedule_withdraw(who, asset, amount), Ok(()));
    let metadata = p.delegators(who).unwrap();
    // The whole deposit is now in the request.
    assert_eq!(metadata.deposits.get(&asset).map(|d| d.amount), Some(0));
    assert!(!metadata.withdraw_requests.is_empty());
    let request = metadata.withdraw_requests.first().unwrap();
    assert_eq!(request.asset, asset);
    assert_eq!(request.amount, amount);
    assert_eq!(
        p.events.last(),
        Some(&Event::ScheduledWithdraw { who, amount, asset, when: 1 })
    );
}

#[test]
fn schedule_unstake_should_fail_if_not_delegator() {
    let mut p = new_pallet();
    p.ledger.mint_asset(VDOT, 1, 100);
    assert_eq!(p.schedule_withdraw(1, Asset::Custom(VDOT), 100), Err(Error::NotDelegator));
}

#[test]
fn schedule_unstake_should_fail_for_insufficient_balance() {
    let mut p = new_pallet();
    let asset = Asset::Custom(VDOT);
    p.ledger.mint_asset(VDOT, 1, 100);
    assert_eq!(deposit(&mut p, 1, asset, 100), Ok(()));
    assert_eq!(p.schedule_withdraw(1, asset, 200), Err(Error::InsufficientBalance));
}

#[test]
fn schedule_unstake_should_fail_if_withdraw_request_exists() {
    let mut p = new_pallet();
    let asset = Asset::Custom(VDOT);
    p.ledger.mint_asset(VDOT, 1, 100);
    assert_eq!(deposit(&mut p, 1, asset, 100), Ok(()));
    assert_eq!(p.schedule_withdraw(1, asset, 100), Ok(()));
}

#[test]
fn execute_unstake_should_work() {
    let mut p = new_pallet();
    let who = 1;
    let asset = Asset::Custom(VDOT);
    p.ledger.mint_asset(VDOT, who, 100);
    assert_eq!(deposit(&mut p, who, asset, 100), Ok(()));
    assert_eq!(p.schedule_withdraw(who, asset, 100), Ok(()));
    p.set_current_round(1);
    assert_eq!(p.execute_withdraw(who, None, who), Ok(()));
    assert!(p.delegators(who).unwrap().withdraw_requests.is_empty());
    assert_eq!(p.events.last(), Some(&Event::ExecutedWithdraw { who }));
    // The asset came back from the pallet.
    assert_eq!(p.ledger.asset_balance(VDOT, who), 100);
    assert_eq!(p.ledger.asset_balance(VDOT, PALLET), 0);
}

#[test]
fn execute_unstake_should_fail_if_not_delegator() {
    let mut p = new_pallet();
    assert_eq!(p.execute_withdraw(1, None, 1), Err(Error::NotDelegator));
}

#[test]
fn execute_unstake_should_fail_if_no_withdraw_request() {
    let mut p = new_pallet();
    let asset = Asset::Custom(VDOT);
    p.ledger.mint_asset(VDOT, 1, 100);
    assert_eq!(deposit(&mut p, 1, asset, 100), Ok(()));
    assert_eq!(p.execute_withdraw(1, None, 1), Err(Error::NoWithdrawRequests));
}

#[test]
fn execute_unstake_should_fail_if_unstake_not_ready() {
    let mut p = new_pallet();
    let asset = Asset::Custom(VDOT);
    p.ledger.mint_asset(VDOT, 1, 100);
    assert_eq!(deposit(&mut p, 1, asset, 100), Ok(()));
    assert_eq!(p.schedule_withdraw(1, asset, 100), Ok(()));
    p.set_current_round(0);
    // Nothing is ready, so nothing is paid out.
    assert_eq!(p.execute_withdraw(1, None, 1), Ok(()));
    assert!(!p.delegators(1).unwrap().withdraw_requests.is_empty());
    assert_eq!(p.ledger.asset_balance(VDOT, 1), 0);
}

#[test]
fn execute_withdraw_through_an_evm_address_needs_the_pallet() {
    let mut p = new_pallet();
    assert_eq!(p.execute_withdraw(1, Some(H160([1; 20])), 1), Err(Error::BadOrigin));
}

#[test]
fn cancel_unstake_should_work() {
    let mut p = new_pallet();
    let who = 1;
    let asset = Asset::Custom(VDOT);
    let amount = 100;
    p.ledger.mint_asset(VDOT, who, 100);
    assert_eq!(deposit(&mut p, who, asset, amount), Ok(()));
    assert_eq!(p.schedule_withdraw(who, asset, amount), Ok(()));
    assert_eq!(p.cancel_withdraw(who, asset, amount), Ok(()));
    let metadata = p.delegators(who).unwrap();
    assert!(metadata.withdraw_requests.is_empty());
    assert_eq!(metadata.deposits.get(&asset).map(|d| d.amount), Some(amount));
    assert_eq!(metadata.status, DelegatorStatus::Active);
    assert_eq!(p.events.last(), Some(&Event::CancelledWithdraw { who, asset, amount }));
}

#[test]
fn cancel_unstake_should_fail_if_not_delegator() {
    let mut p = new_pallet();
    assert_eq!(p.cancel_withdraw(1, Asset::Custom(1), 1), Err(Error::NotDelegator));
}

#[test]
fn cancel_unstake_should_fail_if_no_withdraw_request() {
    let mut p = new_pallet();
    let asset = Asset::Custom(VDOT);
    p.ledger.mint_asset(VDOT, 1, 100);
    assert_eq!(deposit(&mut p, 1, asset, 100), Ok(()));
    assert_eq!(p.cancel_withdraw(1, asset, 100), Err(Error::NoMatchingwithdrawRequest));
}

#[test]
fn locked_deposit_cannot_be_withdrawn() {
    let mut p = new_pallet();
    let asset = Asset::Custom(VDOT);
    p.ledger.mint_asset(VDOT, 1, 300);
    assert_eq!(p.deposit(1, asset, 200, None, Some(LockMultiplier::OneMonth), Some(u128::MAX)), Ok(()));
    assert_eq!(deposit(&mut p, 1, asset, 100), Ok(()));
    // Only the unlocked hundred can leave while the lock holds.
    assert_eq!(p.schedule_withdraw(1, asset, 150), Err(Error::InsufficientBalance));
    assert_eq!(p.schedule_withdraw(1, asset, 100), Ok(()));
}
