use std::sync::Arc;
use tangle_pallets::jobs::client::{Error as RpcError, JobsClient};
use tangle_pallets::jobs::rewards::{Error, Jobs};
use tangle_pallets::jobs::submitted::JobRole;
use tangle_pallets::ledger::{Ledger, LedgerError};

const REWARDS: u64 = 100;

fn jobs(max: u32) -> Jobs {
    let mut ledger = Ledger::new();
    ledger.deposit_creating(REWARDS, 1_000);
    ledger.deposit_creating(1, 50);
    Jobs::new(max, REWARDS, ledger)
}

#[test]
fn job_ids_count_up_from_zero() {
    let mut j = jobs(5);
    assert_eq!(j.get_next_job_id(), 0);
    assert_eq!(j.get_next_job_id(), 1);
    assert_eq!(j.get_next_job_id(), 2);
    assert_eq!(j.next_job_id, 3);
}

#[test]
fn validator_lookup_keeps_jobs_in_order_up_to_the_limit() {
    let mut j = jobs(2);
    assert_eq!(j.add_job_to_validator_lookup(7, JobRole::Tss(0), 10, 5), Ok(()));
    assert_eq!(j.add_job_to_validator_lookup(7, JobRole::Tss(1), 11, 5), Ok(()));
    assert_eq!(j.validator_job_id_lookup.get(&7), Some(&vec![(JobRole::Tss(0), 10), (JobRole::Tss(1), 11)]));
    assert_eq!(j.add_job_to_validator_lookup(7, JobRole::Tss(0), 12, 5), Err(Error::TooManyJobsForValidator));
    assert_eq!(j.validator_job_id_lookup.get(&7), Some(&vec![(JobRole::Tss(0), 10), (JobRole::Tss(1), 11)]));
    // Another validator has a lookup of its own.
    assert_eq!(j.add_job_to_validator_lookup(8, JobRole::Tss(0), 12, 5), Ok(()));
}

#[test]
fn validator_lookup_respects_the_role_limit() {
    let mut j = jobs(10);
    assert_eq!(j.add_job_to_validator_lookup(7, JobRole::Tss(0), 10, 1), Ok(()));
    assert_eq!(j.add_job_to_validator_lookup(7, JobRole::Tss(0), 11, 1), Err(Error::TooManyJobsForValidator));
    assert_eq!(j.validator_job_id_lookup.get(&7).map(|v| v.len()), Some(1));
}

#[test]
fn rewards_add_up_and_are_withdrawn_once() {
    let mut j = jobs(5);
    assert_eq!(j.withdraw_rewards(1), Err(Error::NoRewards));
    j.record_reward_to_validator(1, 30);
    j.record_reward_to_validator(1, 20);
    assert_eq!(j.validator_rewards.get(&1), Some(&50));
    assert_eq!(j.withdraw_rewards(1), Ok(()));
    assert_eq!(j.ledger.free_balance(1), 100);
    assert_eq!(j.ledger.free_balance(REWARDS), 950);
    assert_eq!(j.validator_rewards.get(&1), None);
    assert_eq!(j.withdraw_rewards(1), Err(Error::NoRewards));
}

#[test]
fn withdraw_beyond_the_rewards_account_is_refused() {
    let mut j = jobs(5);
    j.record_reward_to_validator(1, 5_000);
    assert_eq!(j.withdraw_rewards(1), Err(Error::Balances(LedgerError::InsufficientBalance)));
    assert_eq!(j.validator_rewards.get(&1), Some(&5_000));
    assert_eq!(j.ledger.free_balance(REWARDS), 1_000);
}

#[test]
fn refund_pays_the_job_creator_from_the_rewards_account() {
    let mut j = jobs(5);
    assert_eq!(j.refund_job_creator(1, 200), Ok(()));
    assert_eq!(j.ledger.free_balance(1), 250);
    assert_eq!(j.ledger.free_balance(REWARDS), 800);
    assert_eq!(j.refund_job_creator(1, 900), Err(Error::Balances(LedgerError::InsufficientBalance)));
    assert_eq!(j.ledger.free_balance(1), 250);
}

#[test]
fn jobs_client_holds_its_client() {
    let inner = Arc::new(42u32);
    let c: JobsClient<u32, (), ()> = JobsClient::new(inner.clone());
    assert!(Arc::ptr_eq(c.client(), &inner));
    assert_eq!(**c.client(), 42);
}

#[test]
fn rpc_errors_have_their_codes() {
    assert_eq!(i32::from(RpcError::RuntimeError), 1);
    assert_eq!(i32::from(RpcError::DecodeError), 2);
}
