use tangle_pallets::asset::H160;
use tangle_pallets::keyed_map::KeyedMap;
use tangle_pallets::ledger::{Ledger, LedgerError};

#[test]
fn transfer_conserves_the_sum_of_both_balances() {
    let mut l = Ledger::new();
    l.deposit_creating(1, 500);
    l.deposit_creating(2, 300);
    assert_eq!(l.transfer(1, 2, 200), Ok(()));
    assert_eq!(l.free_balance(1), 300);
    assert_eq!(l.free_balance(2), 500);
    assert_eq!(l.free_balance(1) + l.free_balance(2), 800);
    // A transfer to oneself changes nothing.
    assert_eq!(l.transfer(1, 1, 300), Ok(()));
    assert_eq!(l.free_balance(1), 300);
}

#[test]
fn transfer_refusals_leave_balances_alone() {
    let mut l = Ledger::new();
    l.deposit_creating(1, 500);
    l.deposit_creating(2, u128::MAX);
    assert_eq!(l.transfer(1, 3, 501), Err(LedgerError::InsufficientBalance));
    assert_eq!(l.transfer(1, 2, 1), Err(LedgerError::Overflow));
    assert_eq!(l.free_balance(1), 500);
    assert_eq!(l.free_balance(3), 0);
}

#[test]
fn reserve_and_unreserve_move_between_free_and_reserved() {
    let mut l = Ledger::new();
    l.deposit_creating(1, 500);
    assert_eq!(l.reserve(1, 600), Err(LedgerError::InsufficientBalance));
    assert_eq!(l.reserve(1, 200), Ok(()));
    assert_eq!((l.free_balance(1), l.reserved_balance(1)), (300, 200));
    // Unreserving more than is reserved frees what there is and returns the rest.
    assert_eq!(l.unreserve(1, 500), 300);
    assert_eq!((l.free_balance(1), l.reserved_balance(1)), (500, 0));
}

#[test]
fn locks_are_set_and_removed() {
    let mut l = Ledger::new();
    l.set_lock(1, 70);
    assert_eq!(l.locks.get(&1), Some(&70));
    l.set_lock(1, 30);
    assert_eq!(l.locks.get(&1), Some(&30));
    l.remove_lock(1);
    assert_eq!(l.locks.get(&1), None);
}

#[test]
fn assets_and_tokens_have_their_own_balances() {
    let mut l = Ledger::new();
    l.mint_asset(7, 1, 100);
    assert_eq!(l.asset_transfer(7, 1, 2, 40), Ok(()));
    assert_eq!((l.asset_balance(7, 1), l.asset_balance(7, 2)), (60, 40));
    assert_eq!(l.asset_transfer(7, 1, 2, 61), Err(LedgerError::InsufficientBalance));
    assert_eq!(l.asset_balance(8, 1), 0);
    let (t, a, b) = (H160([1; 20]), H160([2; 20]), H160([3; 20]));
    l.mint_token(t, a, 10);
    assert!(l.token_transfer(t, a, b, 4));
    assert!(!l.token_transfer(t, a, b, 7));
    assert_eq!((l.token_balance(t, a), l.token_balance(t, b)), (6, 4));
    assert_eq!(l.free_balance(1), 0);
}

#[test]
fn ledger_duplicate_is_an_independent_copy() {
    let mut l = Ledger::new();
    l.deposit_creating(1, 5);
    let copy = l.duplicate();
    l.deposit_creating(1, 5);
    assert_eq!(copy.free_balance(1), 5);
    assert_eq!(l.free_balance(1), 10);
}

#[test]
fn keyed_map_keeps_insertion_order() {
    let mut m: KeyedMap<u64, u128> = KeyedMap::new();
    assert_eq!(m.len(), 0);
    m.insert(5, 50);
    m.insert(3, 30);
    m.insert(5, 55);
    assert_eq!(m.len(), 2);
    assert_eq!((m.key_at(0), *m.value_at(0)), (5, 55));
    assert_eq!((m.key_at(1), *m.value_at(1)), (3, 30));
    assert!(m.contains_key(&3));
    assert_eq!(m.remove(&5), Some(55));
    assert_eq!(m.remove(&5), None);
    assert_eq!(m.get(&3), Some(&30));
    assert_eq!(m.key_at(0), 3);
    let d = m.duplicate();
    assert_eq!(d.get(&3), Some(&30));
}
