use tangle_pallets::jobs::results::JobResultKind;
use tangle_pallets::jobs::rewards::{Error, Jobs};
use tangle_pallets::jobs::rpc::RpcResponseJobsData;
use tangle_pallets::jobs::submission::RoleAnswer;
use tangle_pallets::jobs::submitted::{
    FallbackOptions, JobInfo, JobKey, JobRole, JobSubmission, JobType, JobsEvent, PhaseResult,
};
use tangle_pallets::ledger::{Ledger, LedgerError};

const TEN: u64 = 10;
const REWARDS: u64 = 100;
const TSS: JobRole = JobRole::Tss(0);

fn jobs(max_jobs: u32) -> Jobs {
    let mut ledger = Ledger::new();
    ledger.deposit_creating(TEN, 100);
    ledger.deposit_creating(REWARDS, 1_000);
    Jobs::new(max_jobs, REWARDS, ledger)
}

fn dkg(expiry: u64) -> JobSubmission {
    JobSubmission {
        expiry,
        ttl: 20,
        job_type: JobType::DkgPhaseOne {
            participants: vec![1, 2, 3],
            threshold: 2,
            permitted_caller: Some(TEN),
            hd_wallet: false,
        },
        fallback: FallbackOptions::Destroy,
    }
}

fn validators(n: usize) -> Vec<RoleAnswer> {
    vec![RoleAnswer { is_validator: true, max_active_services: 5 }; n]
}

#[test]
fn a_submitted_job_is_stored_charged_and_looked_up() {
    let mut j = jobs(10);
    assert_eq!(j.submit_job(TEN, TSS, dkg(10), 5, &validators(3), true, 1), Ok(0));
    assert_eq!(j.next_job_id, 1);
    assert_eq!(j.ledger.free_balance(TEN), 95);
    assert_eq!(j.ledger.free_balance(REWARDS), 1_005);
    let stored = j.submitted_jobs.get(&JobKey { role: TSS, id: 0 }).unwrap();
    assert_eq!(stored.owner, TEN);
    assert_eq!(stored.fee, 5);
    for p in [1, 2, 3] {
        assert_eq!(j.validator_job_id_lookup.get(&p), Some(&vec![(TSS, 0)]));
    }
    assert_eq!(j.events, vec![JobsEvent::JobSubmitted { job_id: 0, role: TSS, details: dkg(10) }]);
    // The next job gets the next id.
    assert_eq!(j.submit_job(TEN, TSS, dkg(10), 5, &validators(3), true, 1), Ok(1));
}

#[test]
fn a_refused_submission_changes_nothing() {
    let mut j = jobs(10);
    let mut answers = validators(3);
    answers[2].is_validator = false;
    assert_eq!(j.submit_job(TEN, TSS, dkg(10), 5, &answers, true, 1), Err(Error::InvalidValidator));
    assert!(j.validator_job_id_lookup.get(&1).is_none());
    assert_eq!(j.next_job_id, 0);
    assert_eq!(j.submit_job(TEN, TSS, dkg(10), 5, &validators(3), false, 1), Err(Error::InvalidJobParams));
    assert_eq!(j.submit_job(TEN, TSS, dkg(10), 5, &validators(3), true, 10), Err(Error::JobAlreadyExpired));
    assert_eq!(
        j.submit_job(TEN, TSS, dkg(10), 101, &validators(3), true, 1),
        Err(Error::Balances(LedgerError::InsufficientBalance))
    );
    // Too few answers: a missing answer is a refusal.
    assert_eq!(j.submit_job(TEN, TSS, dkg(10), 5, &validators(2), true, 1), Err(Error::InvalidValidator));
    assert!(j.validator_job_id_lookup.get(&1).is_none());
    assert!(j.submitted_jobs.get(&JobKey { role: TSS, id: 0 }).is_none());
    assert_eq!(j.ledger.free_balance(TEN), 100);
    assert!(j.events.is_empty());
}

#[test]
fn a_validator_with_no_room_is_refused() {
    let mut j = jobs(1);
    assert_eq!(j.submit_job(TEN, TSS, dkg(10), 5, &validators(3), true, 1), Ok(0));
    assert_eq!(
        j.submit_job(TEN, TSS, dkg(10), 5, &validators(3), true, 1),
        Err(Error::TooManyJobsForValidator)
    );
}

#[test]
fn a_signing_job_needs_a_usable_key() {
    let mut j = jobs(10);
    let signing = JobSubmission {
        expiry: 10,
        ttl: 20,
        job_type: JobType::PhaseTwo { phase_one_id: 0, threshold: None },
        fallback: FallbackOptions::Destroy,
    };
    assert_eq!(
        j.submit_job(TEN, TSS, signing, 20, &validators(3), true, 1),
        Err(Error::PreviousResultNotFound)
    );
    j.known_results.insert(
        JobKey { role: TSS, id: 0 },
        PhaseResult {
            owner: TEN,
            expiry: 5,
            participants: Some(vec![1, 2, 3]),
            permitted_caller: Some(TEN),
            hd_wallet: false,
        },
    );
    j.next_job_id = 1;
    let signing = || JobSubmission {
        expiry: 10,
        ttl: 20,
        job_type: JobType::PhaseTwo { phase_one_id: 0, threshold: None },
        fallback: FallbackOptions::Destroy,
    };
    assert_eq!(j.submit_job(TEN, TSS, signing(), 20, &validators(3), true, 6), Err(Error::ResultExpired));
    assert_eq!(j.submit_job(7, TSS, signing(), 20, &validators(3), true, 1), Err(Error::InvalidJobParams));
    assert_eq!(j.submit_job(TEN, TSS, signing(), 20, &validators(3), true, 1), Ok(1));
    let stored: &JobInfo = j.submitted_jobs.get(&JobKey { role: TSS, id: 1 }).unwrap();
    assert_eq!(stored.job_type, JobType::PhaseTwo { phase_one_id: 0, threshold: None });
    assert_eq!(j.validator_job_id_lookup.get(&2), Some(&vec![(TSS, 1)]));
}

#[test]
fn jobs_rpc_tests() {
    let participants: Vec<u64> = vec![1, 2, 3, 4, 5];
    let mut j = jobs(10);
    let submission = JobSubmission {
        expiry: 10,
        ttl: 200,
        job_type: JobType::DkgPhaseOne {
            participants: participants.clone(),
            threshold: 3,
            permitted_caller: Some(TEN),
            hd_wallet: false,
        },
        fallback: FallbackOptions::Destroy,
    };
    assert_eq!(j.submit_job(TEN, TSS, submission, 5, &validators(5), true, 1), Ok(0));

    let stored = j.submitted_jobs.get(&JobKey { role: TSS, id: 0 }).unwrap();
    let expected = RpcResponseJobsData {
        job_id: 0,
        job_type: stored.job_type.copy(),
        ttl: stored.ttl,
        expiry: stored.expiry,
    };
    for validator in participants.iter() {
        let listed = j.query_jobs_by_validator(*validator).unwrap();
        assert_eq!(listed.len(), 1);
        assert_eq!(listed[0], expected);
    }
    assert_eq!(j.query_job_by_id(TSS, 0), Some(expected));
    assert_eq!(j.query_next_job_id(), 1);

    assert_eq!(j.submit_job_result(TSS, 0, JobResultKind::Dkg, 1, Ok(())), Ok(()));
    assert_eq!(j.query_job_by_id(TSS, 0), None);
    assert_eq!(j.query_next_job_id(), 1);
    let expected_result = j.known_results.get(&JobKey { role: TSS, id: 0 }).map(|p| p.copy());
    assert!(expected_result.is_some());
    assert_eq!(j.query_job_result(TSS, 0), expected_result);

    let signing = JobSubmission {
        expiry: 10,
        ttl: 0,
        job_type: JobType::PhaseTwo { phase_one_id: 0, threshold: None },
        fallback: FallbackOptions::Destroy,
    };
    assert_eq!(j.submit_job(TEN, TSS, signing, 5, &validators(5), true, 1), Ok(1));
    let stored = j.submitted_jobs.get(&JobKey { role: TSS, id: 1 }).unwrap();
    let expected = RpcResponseJobsData {
        job_id: 1,
        job_type: stored.job_type.copy(),
        ttl: stored.ttl,
        expiry: stored.expiry,
    };
    assert_eq!(j.query_job_by_id(TSS, 1), Some(expected));
    assert_eq!(j.query_next_job_id(), 2);
    let expected_result = j.known_results.get(&JobKey { role: TSS, id: 1 }).map(|p| p.copy());
    assert_eq!(j.query_job_result(TSS, 1), expected_result);
}

#[test]
fn a_validator_query_skips_jobs_that_are_gone() {
    let mut j = jobs(10);
    assert_eq!(j.query_jobs_by_validator(1), Some(vec![]));
    assert_eq!(j.submit_job(TEN, TSS, dkg(10), 5, &validators(3), true, 1), Ok(0));
    assert_eq!(j.submit_job(TEN, TSS, dkg(10), 5, &validators(3), true, 1), Ok(1));
    assert_eq!(j.submit_job_result(TSS, 0, JobResultKind::Dkg, 1, Ok(())), Ok(()));
    let listed = j.query_jobs_by_validator(2).unwrap();
    assert_eq!(listed.len(), 1);
    assert_eq!(listed[0].job_id, 1);
    assert_eq!(listed[0].ttl, 20);
    assert_eq!(listed[0].expiry, 10);
    assert_eq!(j.query_job_result(TSS, 1), None);
}
