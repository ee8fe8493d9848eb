use tangle_pallets::jobs::results::JobResultKind;
use tangle_pallets::jobs::rewards::{Error, Jobs};
use tangle_pallets::jobs::submitted::{
    FallbackOptions, JobInfo, JobKey, JobRole, JobType, JobsEvent, PhaseResult,
};
use tangle_pallets::ledger::{Ledger, LedgerError};

const ALICE: u64 = 1;
const BOB: u64 = 2;
const CHARLIE: u64 = 3;
const DAVE: u64 = 4;
const EVE: u64 = 5;
const TEN: u64 = 10;
const REWARDS: u64 = 100;
const TSS: JobRole = JobRole::Tss(0);

fn participants() -> Vec<u64> {
    vec![ALICE, BOB, CHARLIE, DAVE, EVE]
}

fn jobs() -> Jobs {
    let mut ledger = Ledger::new();
    ledger.deposit_creating(TEN, 100);
    ledger.deposit_creating(REWARDS, 1_000);
    ledger.deposit_creating(ALICE, 50);
    Jobs::new(10, REWARDS, ledger)
}

fn dkg_job(fallback: FallbackOptions, fee: u128) -> JobInfo {
    JobInfo {
        owner: TEN,
        expiry: 10,
        ttl: 200,
        job_type: JobType::DkgPhaseOne {
            participants: participants(),
            threshold: 3,
            permitted_caller: Some(TEN),
            hd_wallet: false,
        },
        fee,
        fallback,
    }
}

/// Submits `job` as job `id` the way a submission does: the creator pays the
/// fee into the rewards account.
fn submit(j: &mut Jobs, role: JobRole, job: JobInfo) -> u64 {
    let id = j.get_next_job_id();
    assert_eq!(j.ledger.transfer(job.owner, REWARDS, job.fee), Ok(()));
    j.submitted_jobs.insert(JobKey { role, id }, job);
    id
}

#[test]
fn try_validator_removal_from_job_with_destory_fallback_works() {
    let mut j = jobs();
    let creator_balance = j.ledger.free_balance(TEN);
    let id = submit(&mut j, TSS, dkg_job(FallbackOptions::Destroy, 5));
    assert!(j.ledger.free_balance(TEN) < creator_balance);
    assert_eq!(j.try_validator_removal_from_job(TSS, 0, ALICE, 0), Ok(()));
    assert_eq!(j.events, vec![JobsEvent::JobRefunded { job_id: 0, role: TSS }]);
    assert_eq!(j.ledger.free_balance(TEN), creator_balance);
    assert!(j.submitted_jobs.get(&JobKey { role: TSS, id }).is_none());
}

#[test]
fn try_validator_removal_from_job_with_retry_works_phase_one() {
    let mut j = jobs();
    let creator_balance = j.ledger.free_balance(TEN);
    submit(&mut j, TSS, dkg_job(FallbackOptions::RegenerateWithThreshold(3), 5));
    assert!(j.ledger.free_balance(TEN) < creator_balance);
    assert_eq!(j.try_validator_removal_from_job(TSS, 0, ALICE, 0), Ok(()));
    let new_job_info = dkg_job(FallbackOptions::Destroy, 5);
    assert_eq!(
        j.events,
        vec![JobsEvent::JobParticipantsUpdated { job_id: 0, role: TSS, details: new_job_info }]
    );
    let stored = j.submitted_jobs.get(&JobKey { role: TSS, id: 0 }).unwrap();
    assert_eq!(stored, &dkg_job(FallbackOptions::Destroy, 5));
}

#[test]
fn try_validator_removal_from_job_with_retry_works_phase_two() {
    let mut j = jobs();
    submit(&mut j, TSS, dkg_job(FallbackOptions::RegenerateWithThreshold(3), 5));
    assert_eq!(j.submit_job_result(TSS, 0, JobResultKind::Dkg, 1, Ok(())), Ok(()));
    for validator in participants() {
        assert_eq!(j.validator_rewards.get(&validator), Some(&1));
    }
    assert!(j.known_results.get(&JobKey { role: TSS, id: 0 }).is_some());
    assert!(j.submitted_jobs.get(&JobKey { role: TSS, id: 0 }).is_none());
    j.events.clear();
    let signing = JobInfo {
        owner: TEN,
        expiry: 10,
        ttl: 200,
        job_type: JobType::PhaseTwo { phase_one_id: 0, threshold: None },
        fee: 20,
        fallback: FallbackOptions::RegenerateWithThreshold(3),
    };
    assert_eq!(submit(&mut j, TSS, signing), 1);
    // Generating the first phase again for the four left costs four.
    assert_eq!(j.try_validator_removal_from_job(TSS, 1, ALICE, 4), Ok(()));
    let job_info = j.submitted_jobs.get(&JobKey { role: TSS, id: 2 }).unwrap();
    assert_eq!(
        job_info,
        &JobInfo {
            owner: TEN,
            expiry: 10,
            ttl: 200,
            job_type: JobType::DkgPhaseOne {
                participants: vec![BOB, CHARLIE, DAVE, EVE],
                threshold: 3,
                permitted_caller: Some(TEN),
                hd_wallet: false,
            },
            fee: 4,
            fallback: FallbackOptions::Destroy,
        }
    );
    assert_eq!(j.events.len(), 1);
    match &j.events[0] {
        JobsEvent::JobReSubmitted { job_id, role, details } => {
            assert_eq!(*job_id, 2);
            assert_eq!(*role, TSS);
            assert_eq!(details, job_info);
        },
        other => panic!("unexpected event {:?}", other),
    }
    assert!(j.known_results.get(&JobKey { role: TSS, id: 0 }).is_none());
    let job_info = j.submitted_jobs.get(&JobKey { role: TSS, id: 1 }).unwrap();
    assert_eq!(job_info.job_type, JobType::PhaseTwo { phase_one_id: 2, threshold: None });
    assert_eq!(job_info.fallback, FallbackOptions::Destroy);
    // The leaving validator paid the fee into the rewards account.
    assert_eq!(j.ledger.free_balance(ALICE), 46);
    assert_eq!(j.next_job_id, 3);
}

#[test]
fn removal_from_an_unknown_job_is_refused() {
    let mut j = jobs();
    assert_eq!(j.try_validator_removal_from_job(TSS, 7, ALICE, 0), Err(Error::JobNotFound));
    assert!(j.events.is_empty());
}

#[test]
fn removal_keeping_too_few_participants_is_refused() {
    let mut j = jobs();
    submit(&mut j, TSS, dkg_job(FallbackOptions::RegenerateWithThreshold(4), 5));
    // Four would be left, which is not more than the threshold of four.
    assert_eq!(j.try_validator_removal_from_job(TSS, 0, ALICE, 0), Err(Error::NotEnoughValidators));
    let stored = j.submitted_jobs.get(&JobKey { role: TSS, id: 0 }).unwrap();
    assert_eq!(stored.fallback, FallbackOptions::RegenerateWithThreshold(4));
    assert!(j.events.is_empty());
}

#[test]
fn removal_of_a_second_phase_job_without_its_result_is_refused() {
    let mut j = jobs();
    let signing = JobInfo {
        owner: TEN,
        expiry: 10,
        ttl: 200,
        job_type: JobType::PhaseTwo { phase_one_id: 0, threshold: Some(3) },
        fee: 20,
        fallback: FallbackOptions::Destroy,
    };
    submit(&mut j, TSS, signing);
    assert_eq!(
        j.try_validator_removal_from_job(TSS, 0, ALICE, 0),
        Err(Error::PhaseOneResultNotFound)
    );
}

#[test]
fn a_signing_job_that_can_still_sign_is_kept() {
    let mut j = jobs();
    j.known_results.insert(
        JobKey { role: TSS, id: 0 },
        PhaseResult {
            owner: TEN,
            expiry: 10,
            participants: Some(participants()),
            permitted_caller: None,
            hd_wallet: false,
        },
    );
    j.next_job_id = 1;
    let signing = JobInfo {
        owner: TEN,
        expiry: 10,
        ttl: 200,
        job_type: JobType::PhaseTwo { phase_one_id: 0, threshold: Some(3) },
        fee: 20,
        fallback: FallbackOptions::Destroy,
    };
    submit(&mut j, TSS, signing);
    let before = j.ledger.free_balance(TEN);
    assert_eq!(j.try_validator_removal_from_job(TSS, 1, ALICE, 0), Ok(()));
    // Still four of three: the job stays, but the first-phase result is gone.
    assert!(j.submitted_jobs.get(&JobKey { role: TSS, id: 1 }).is_some());
    assert!(j.known_results.get(&JobKey { role: TSS, id: 0 }).is_none());
    assert_eq!(j.ledger.free_balance(TEN), before);
    assert!(j.events.is_empty());
}

#[test]
fn regenerating_costs_the_leaving_validator_what_it_cannot_pay() {
    let mut j = jobs();
    j.known_results.insert(
        JobKey { role: TSS, id: 0 },
        PhaseResult {
            owner: TEN,
            expiry: 10,
            participants: Some(participants()),
            permitted_caller: None,
            hd_wallet: true,
        },
    );
    j.next_job_id = 1;
    let signing = JobInfo {
        owner: TEN,
        expiry: 10,
        ttl: 200,
        job_type: JobType::PhaseTwo { phase_one_id: 0, threshold: None },
        fee: 20,
        fallback: FallbackOptions::RegenerateWithThreshold(2),
    };
    submit(&mut j, TSS, signing);
    assert_eq!(
        j.try_validator_removal_from_job(TSS, 1, ALICE, 51),
        Err(Error::Balances(LedgerError::InsufficientBalance))
    );
    assert!(j.known_results.get(&JobKey { role: TSS, id: 0 }).is_some());
    assert_eq!(j.next_job_id, 2);
    assert!(j.events.is_empty());
}

#[test]
fn a_key_result_is_stored_and_the_fee_shared() {
    let mut j = jobs();
    submit(&mut j, TSS, dkg_job(FallbackOptions::Destroy, 12));
    assert_eq!(j.submit_job_result(TSS, 0, JobResultKind::Dkg, 1, Ok(())), Ok(()));
    // 12 among five participants is 2 each, rounded down.
    for validator in participants() {
        assert_eq!(j.validator_rewards.get(&validator), Some(&2));
    }
    let stored = j.known_results.get(&JobKey { role: TSS, id: 0 }).unwrap();
    assert_eq!(
        stored,
        &PhaseResult {
            owner: TEN,
            expiry: 10,
            participants: Some(participants()),
            permitted_caller: Some(TEN),
            hd_wallet: false,
        }
    );
    assert_eq!(j.events.len(), 6);
    assert_eq!(j.events[0], JobsEvent::ValidatorRewarded { id: ALICE, reward: 2 });
    assert_eq!(j.events[4], JobsEvent::ValidatorRewarded { id: EVE, reward: 2 });
    assert_eq!(j.events[5], JobsEvent::JobResultSubmitted { job_id: 0, role: TSS });
}

#[test]
fn a_signature_needs_an_unexpired_key_result() {
    let mut j = jobs();
    submit(&mut j, TSS, dkg_job(FallbackOptions::Destroy, 5));
    assert_eq!(j.submit_job_result(TSS, 0, JobResultKind::Dkg, 1, Ok(())), Ok(()));
    let signing = JobInfo {
        owner: TEN,
        expiry: 10,
        ttl: 200,
        job_type: JobType::PhaseTwo { phase_one_id: 0, threshold: Some(3) },
        fee: 20,
        fallback: FallbackOptions::Destroy,
    };
    assert_eq!(submit(&mut j, TSS, signing), 1);
    assert_eq!(
        j.submit_job_result(TSS, 1, JobResultKind::DkgSignature, 11, Ok(())),
        Err(Error::ResultExpired)
    );
    assert_eq!(
        j.submit_job_result(TSS, 1, JobResultKind::Dkg, 5, Ok(())),
        Err(Error::ResultNotExpectedType)
    );
    assert_eq!(
        j.submit_job_result(TSS, 1, JobResultKind::DkgSignature, 5, Err(Error::InvalidResult)),
        Err(Error::InvalidResult)
    );
    assert!(j.submitted_jobs.get(&JobKey { role: TSS, id: 1 }).is_some());
    assert_eq!(j.submit_job_result(TSS, 1, JobResultKind::DkgSignature, 10, Ok(())), Ok(()));
    // 20 among five is 4 each, on top of the 1 from the key.
    assert_eq!(j.validator_rewards.get(&ALICE), Some(&5));
    assert!(j.submitted_jobs.get(&JobKey { role: TSS, id: 1 }).is_none());
    assert_eq!(
        j.submit_job_result(TSS, 1, JobResultKind::DkgSignature, 10, Ok(())),
        Err(Error::JobNotFound)
    );
}

#[test]
fn a_signature_without_its_key_result_is_refused() {
    let mut j = jobs();
    let signing = JobInfo {
        owner: TEN,
        expiry: 10,
        ttl: 200,
        job_type: JobType::PhaseTwo { phase_one_id: 0, threshold: Some(3) },
        fee: 20,
        fallback: FallbackOptions::Destroy,
    };
    submit(&mut j, TSS, signing);
    assert_eq!(
        j.submit_job_result(TSS, 0, JobResultKind::DkgSignature, 1, Ok(())),
        Err(Error::PreviousResultNotFound)
    );
}

#[test]
fn a_report_on_a_participant_removes_it() {
    let mut j = jobs();
    let creator_balance = j.ledger.free_balance(TEN);
    submit(&mut j, TSS, dkg_job(FallbackOptions::Destroy, 5));
    assert_eq!(j.report_inactive_validator(TSS, 0, BOB, 0, Ok(())), Ok(()));
    assert_eq!(j.events, vec![JobsEvent::JobRefunded { job_id: 0, role: TSS }]);
    assert_eq!(j.ledger.free_balance(TEN), creator_balance);
    assert!(j.submitted_jobs.get(&JobKey { role: TSS, id: 0 }).is_none());
}

#[test]
fn a_refused_report_changes_nothing() {
    let mut j = jobs();
    assert_eq!(j.report_inactive_validator(TSS, 0, BOB, 0, Ok(())), Err(Error::JobNotFound));
    submit(&mut j, TSS, dkg_job(FallbackOptions::Destroy, 5));
    // Not a participant.
    assert_eq!(j.report_inactive_validator(TSS, 0, TEN, 0, Ok(())), Err(Error::JobNotFound));
    // The verification of the report failed.
    assert_eq!(
        j.report_inactive_validator(TSS, 0, BOB, 0, Err(Error::InvalidJobParams)),
        Err(Error::InvalidJobParams)
    );
    assert!(j.events.is_empty());
    assert!(j.submitted_jobs.get(&JobKey { role: TSS, id: 0 }).is_some());
    // A second-phase job whose first-phase result is missing.
    let signing = JobInfo {
        owner: TEN,
        expiry: 10,
        ttl: 200,
        job_type: JobType::PhaseTwo { phase_one_id: 0, threshold: None },
        fee: 5,
        fallback: FallbackOptions::Destroy,
    };
    submit(&mut j, TSS, signing);
    assert_eq!(
        j.report_inactive_validator(TSS, 1, BOB, 0, Ok(())),
        Err(Error::PhaseOneResultNotFound)
    );
}

#[test]
fn a_report_on_a_second_phase_job_checks_the_first_phase_participants() {
    let mut j = jobs();
    submit(&mut j, TSS, dkg_job(FallbackOptions::Destroy, 5));
    assert_eq!(j.submit_job_result(TSS, 0, JobResultKind::Dkg, 1, Ok(())), Ok(()));
    j.events.clear();
    let signing = JobInfo {
        owner: TEN,
        expiry: 10,
        ttl: 200,
        job_type: JobType::PhaseTwo { phase_one_id: 0, threshold: Some(3) },
        fee: 5,
        fallback: FallbackOptions::Destroy,
    };
    submit(&mut j, TSS, signing);
    assert_eq!(j.report_inactive_validator(TSS, 1, TEN, 0, Ok(())), Err(Error::JobNotFound));
    // Four of five remain, enough to sign at threshold three: the job stays
    // and the first-phase result is dropped.
    assert_eq!(j.report_inactive_validator(TSS, 1, BOB, 0, Ok(())), Ok(()));
    assert!(j.submitted_jobs.get(&JobKey { role: TSS, id: 1 }).is_some());
    assert!(j.known_results.get(&JobKey { role: TSS, id: 0 }).is_none());
}
