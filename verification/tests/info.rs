#![allow(dead_code, unused_imports)]
use tangle_pallets::asset::{Asset, H160};
use tangle_pallets::ledger::{Ledger, LedgerError};
use tangle_pallets::multi_asset_delegation::pallet::{
    DelegationConfig, Error, Event, MultiAssetDelegation,
};
use tangle_pallets::multi_asset_delegation::types::{DelegatorBlueprintSelection, DelegatorStatus};

const ALICE: u64 = 1;
const BOB: u64 = 2;
const CHARLIE: u64 = 3;
const DAVE: u64 = 4;
const EVE: u64 = 5;
const PALLET: u64 = 1000;
const VDOT: u64 = 4;
const USDC: u64 = 1;
const WETH: u64 = 2;

fn config() -> DelegationConfig {
    DelegationConfig {
        min_operator_bond_amount: 10_000,
        min_delegate_amount: 100,
        leave_operators_delay: 10,
        operator_bond_less_delay: 1,
        leave_delegators_delay: 1,
        delegation_bond_less_delay: 5,
        max_delegations: 50,
        max_withdraw_requests: 50,
        max_unstake_requests: 50,
        max_delegator_blueprints: 50,
        pallet_account: PALLET,
        pallet_evm_address: H160([0xAA; 20]),
        slash_recipient: 999,
        slash_recipient_evm_address: H160([0xBB; 20]),
    }
}

/// Alice, Bob and Charlie hold 200_000; Dave, Eve and the pallet 1_000_000.
fn new_pallet() -> MultiAssetDelegation {
    let mut ledger = Ledger::new();
    for who in [ALICE, BOB, CHARLIE] {
        ledger.deposit_creating(who, 200_000);
    }
    for who in [DAVE, EVE, PALLET] {
        ledger.deposit_creating(who, 1_000_000);
    }
    MultiAssetDelegation::new(config(), ledger)
}

/// Deposits of a configured asset without a cap.
fn deposit(p: &mut MultiAssetDelegation, who: u64, asset: Asset, amount: u128) -> Result<(), Error> {
    p.deposit(who, asset, amount, None, None, Some(u128::MAX))
}
use tangle_pallets::key_order::{asset_less, bytes_less, key_less};
use tangle_pallets::keyed_map::KeyedMap;
use tangle_pallets::multi_asset_delegation::info::AssetType;
use tangle_pallets::multi_asset_delegation::migration::{
    migrate_metadata, OldBondInfoDelegator, OldBondLessRequest, OldDelegatorMetadata,
    OldWithdrawRequest, UpgradeReport,
};
use tangle_pallets::multi_asset_delegation::types::{Deposit, DepositError, LockMultiplier};

fn fixed_none() -> DelegatorBlueprintSelection {
    DelegatorBlueprintSelection::Fixed(vec![])
}

/// Alice operates; Bob delegates 100 of asset 4 and 150 of asset 1 to her.
fn populated() -> MultiAssetDelegation {
    let mut p = new_pallet();
    assert_eq!(p.join_operators(ALICE, 10_000), Ok(()));
    for (id, amount) in [(VDOT, 100u128), (USDC, 150u128)] {
        p.ledger.mint_asset(id, BOB, amount);
        assert_eq!(deposit(&mut p, BOB, Asset::Custom(id), amount), Ok(()));
        assert_eq!(p.delegate(BOB, ALICE, Asset::Custom(id), amount, fixed_none()), Ok(()));
    }
    p
}

#[test]
fn info_reads_the_stored_records() {
    let mut p = populated();
    p.set_current_round(3);
    assert_eq!(p.get_current_round(), 3);
    assert_eq!(p.get_operator_stake(ALICE), 10_000);
    assert_eq!(p.get_operator_stake(CHARLIE), 0);
    assert_eq!(p.get_total_delegation_by_asset(ALICE, Asset::Custom(VDOT)), 100);
    assert_eq!(p.get_total_delegation_by_asset(ALICE, Asset::Custom(USDC)), 150);
    assert_eq!(p.get_total_delegation_by_asset(ALICE, Asset::Custom(9)), 0);
    assert_eq!(p.get_total_delegation_by_asset(CHARLIE, Asset::Custom(VDOT)), 0);
    assert_eq!(
        p.get_delegators_for_operator(ALICE),
        vec![(BOB, 100, Asset::Custom(VDOT)), (BOB, 150, Asset::Custom(USDC))]
    );
    assert!(p.get_delegators_for_operator(CHARLIE).is_empty());
}

#[test]
fn user_deposits_by_asset_and_by_type() {
    let mut p = populated();
    let token = Asset::Erc20(H160([0x23; 20]));
    assert_eq!(p.deposit(PALLET, token, 300, Some(BOB), None, Some(u128::MAX)), Ok(()));
    let d = p.get_user_deposit_with_locks(BOB, Asset::Custom(VDOT)).unwrap();
    assert_eq!(d.unlocked_amount, 100);
    assert!(d.amount_with_locks.is_none());
    assert!(p.get_user_deposit_with_locks(BOB, Asset::Custom(9)).is_none());
    assert!(p.get_user_deposit_with_locks(CHARLIE, Asset::Custom(VDOT)).is_none());
    assert_eq!(p.get_user_deposit_by_asset_type(BOB, AssetType::Native(0)), Some(250));
    assert_eq!(p.get_user_deposit_by_asset_type(BOB, AssetType::Tnt), Some(250));
    assert_eq!(p.get_user_deposit_by_asset_type(BOB, AssetType::Evm(H160([0; 20]))), Some(300));
    assert_eq!(p.get_user_deposit_by_asset_type(CHARLIE, AssetType::Tnt), None);
}

#[test]
fn locked_deposit_reports_its_locks() {
    let mut p = new_pallet();
    p.set_block_number(10);
    p.ledger.mint_asset(VDOT, BOB, 500);
    assert_eq!(
        p.deposit(BOB, Asset::Custom(VDOT), 500, None, Some(LockMultiplier::TwoMonths), Some(u128::MAX)),
        Ok(())
    );
    let d = p.get_user_deposit_with_locks(BOB, Asset::Custom(VDOT)).unwrap();
    assert_eq!(d.unlocked_amount, 500);
    let locks = d.amount_with_locks.unwrap();
    assert_eq!(locks.len(), 1);
    assert_eq!(locks[0].amount, 500);
    assert_eq!(locks[0].lock_multiplier, LockMultiplier::TwoMonths);
    assert_eq!(locks[0].expiry_block, 10 + 2 * 432_000);
}

fn old_record() -> OldDelegatorMetadata {
    let mut deposits = KeyedMap::new();
    deposits.insert(Asset::Custom(VDOT), Deposit::new(100, None, 0));
    OldDelegatorMetadata {
        deposits,
        withdraw_requests: vec![
            OldWithdrawRequest { asset_id: Asset::Custom(VDOT), amount: 10, requested_round: 1 },
            OldWithdrawRequest { asset_id: Asset::Custom(VDOT), amount: 20, requested_round: 2 },
        ],
        delegations: vec![OldBondInfoDelegator {
            operator: ALICE,
            amount: 70,
            asset_id: Asset::Custom(VDOT),
            blueprint_selection: DelegatorBlueprintSelection::All,
        }],
        delegator_unstake_requests: vec![OldBondLessRequest {
            operator: ALICE,
            asset_id: Asset::Custom(VDOT),
            amount: 5,
            requested_round: 3,
            blueprint_selection: DelegatorBlueprintSelection::All,
        }],
        status: DelegatorStatus::Active,
    }
}

#[test]
fn migration_keeps_every_entry_and_marks_nothing_as_nomination() {
    let m = migrate_metadata(old_record(), 50, 50, 50);
    assert_eq!(m.deposits.get(&Asset::Custom(VDOT)).unwrap().amount, 100);
    assert_eq!(m.withdraw_requests.len(), 2);
    assert_eq!(m.withdraw_requests[1].asset, Asset::Custom(VDOT));
    assert_eq!(m.withdraw_requests[1].amount, 20);
    assert_eq!(m.withdraw_requests[1].requested_round, 2);
    assert_eq!(m.delegations.len(), 1);
    assert_eq!(m.delegations[0].operator, ALICE);
    assert_eq!(m.delegations[0].amount, 70);
    assert!(!m.delegations[0].is_nomination);
    assert_eq!(m.delegator_unstake_requests.len(), 1);
    assert_eq!(m.delegator_unstake_requests[0].amount, 5);
    assert!(!m.delegator_unstake_requests[0].is_nomination);
    assert_eq!(m.status, DelegatorStatus::Active);
}

#[test]
fn migration_keeps_the_first_entries_up_to_each_capacity() {
    let m = migrate_metadata(old_record(), 1, 0, 1);
    assert_eq!(m.withdraw_requests.len(), 1);
    assert_eq!(m.withdraw_requests[0].amount, 10);
    assert!(m.delegations.is_empty());
    assert_eq!(m.delegator_unstake_requests.len(), 1);
}

#[test]
fn migrate_delegator_stores_the_record() {
    let mut p = new_pallet();
    p.migrate_delegator(BOB, old_record());
    let m = p.delegators(BOB).unwrap();
    assert_eq!(m.withdraw_requests.len(), 2);
    assert_eq!(m.delegations[0].amount, 70);
}

#[test]
fn keys_order_by_account_then_asset() {
    let a = [1u8; 20];
    let mut b = [1u8; 20];
    b[19] = 2;
    assert!(bytes_less(&a, &b));
    assert!(!bytes_less(&b, &a));
    assert!(!bytes_less(&a, &a));
    assert!(asset_less(&Asset::Custom(1), &Asset::Custom(2)));
    assert!(asset_less(&Asset::Custom(u64::MAX), &Asset::Erc20(H160([0; 20]))));
    assert!(!asset_less(&Asset::Erc20(H160([0; 20])), &Asset::Custom(0)));
    assert!(asset_less(&Asset::Erc20(H160(a)), &Asset::Erc20(H160(b))));
    assert!(key_less(&(1, Asset::Erc20(H160(b))), &(2, Asset::Custom(0))));
    assert!(key_less(&(2, Asset::Custom(0)), &(2, Asset::Custom(1))));
    assert!(!key_less(&(2, Asset::Custom(1)), &(2, Asset::Custom(1))));
}

#[test]
fn assets_tell_their_kind() {
    let t = Asset::Erc20(H160([7; 20]));
    assert!(t.is_erc20());
    assert!(!t.is_custom());
    assert_eq!(t.erc20_address(), Some(H160([7; 20])));
    assert_eq!(t.custom_id(), None);
    assert_eq!(Asset::Custom(3).custom_id(), Some(&3));
    assert_eq!(Asset::default_asset(), Asset::Custom(0));
}

#[test]
fn migrate_records_migrates_what_reads_and_counts_the_rest() {
    let mut p = new_pallet();
    let report = p.migrate_records(vec![(BOB, Some(old_record())), (CHARLIE, None), (DAVE, Some(old_record()))]);
    assert_eq!(report, UpgradeReport { migrated: 2, failed: 1 });
    assert_eq!(p.delegators(BOB).unwrap().delegations[0].amount, 70);
    assert!(p.delegators(CHARLIE).is_none());
    assert_eq!(p.delegators(DAVE).unwrap().withdraw_requests.len(), 2);
    assert_eq!(p.migrate_records(vec![]), UpgradeReport { migrated: 0, failed: 0 });
}

#[test]
fn a_refused_deposit_decrease_changes_nothing() {
    let mut d = Deposit::new(100, None, 0);
    d.delegated_amount = 80;
    assert_eq!(d.decrease_deposited_amount(30, 0), Err(DepositError::DelegatedAboveAmount));
    assert_eq!(d.decrease_deposited_amount(101, 0), Err(DepositError::InsufficientFreeAmount));
    assert_eq!((d.amount, d.delegated_amount), (100, 80));
    assert_eq!(d.decrease_deposited_amount(20, 0), Ok(()));
    assert_eq!((d.amount, d.delegated_amount), (80, 80));
}
