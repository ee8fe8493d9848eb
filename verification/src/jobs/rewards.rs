//! Job ids, the jobs each validator works on, and validator rewards.
use super::submitted::{
    JobInfo, JobInfoView, JobKey, JobRole, JobsEvent, PhaseResult, PhaseResultView,
};
use crate::keyed_map::KeyedMap;
use crate::ledger::{bal, moved, Ledger, LedgerError};
use vstd::prelude::*;

verus! {

/// An account.
pub type AccountId = u64;

/// An amount of the native currency.
pub type Balance = u128;

/// The id of a job.
pub type JobId = u64;

/// The role under which a job runs.
pub type RoleType = JobRole;

/// Why a jobs call was refused.
#[derive(Clone, Copy, Debug, PartialEq, Eq)]
pub enum Error {
    TooManyJobsForValidator,
    NoRewards,
    JobNotFound,
    NotEnoughValidators,
    PhaseOneResultNotFound,
    InvalidJobPhase,
    TooManyParticipants,
    ResultNotExpectedType,
    PreviousResultNotFound,
    ResultExpired,
    ValidatorMetadataNotFound,
    InvalidValidator,
    /// The result did not pass verification.
    InvalidResult,
    InvalidJobParams,
    JobAlreadyExpired,
    /// A balance operation was refused.
    Balances(LedgerError),
}

/// The storage of the jobs pallet that ids, lookups and rewards use.
#[derive(Debug)]
pub struct Jobs {
    /// The id the next job gets.
    pub next_job_id: JobId,
    /// The jobs of each validator, with their roles.
    pub validator_job_id_lookup: KeyedMap<AccountId, Vec<(RoleType, JobId)>>,
    /// The rewards each validator has earned.
    pub validator_rewards: KeyedMap<AccountId, Balance>,
    /// The most jobs a validator's lookup can hold.
    pub max_active_jobs_per_validator: u32,
    /// The account that holds the rewards.
    pub rewards_account: AccountId,
    /// The balances of all accounts.
    pub ledger: Ledger,
    /// The jobs waiting for a result.
    pub submitted_jobs: KeyedMap<JobKey, JobInfo>,
    /// The results of finished first-phase jobs.
    pub known_results: KeyedMap<JobKey, PhaseResult>,
    /// The most participants a job can have.
    pub max_participants: u32,
    /// The events deposited so far.
    pub events: Vec<JobsEvent>,
}

/// The jobs stored for `v`; none where nothing is stored.
pub open spec fn jobs_at(m: Map<AccountId, Seq<(RoleType, JobId)>>, v: AccountId) -> Seq<(RoleType, JobId)> {
    if m.contains_key(v) {
        m[v]
    } else {
        Seq::empty()
    }
}

impl Jobs {
    /// Empty storage; `rewards_account` holds the rewards. Jobs may have up
    /// to `u32::MAX` participants until `max_participants` is set.
    pub fn new(max_active_jobs_per_validator: u32, rewards_account: AccountId, ledger: Ledger) -> (r: Jobs)
        ensures
            r.submitted_jobs@ == Map::<JobKey, JobInfoView>::empty(),
            r.known_results@ == Map::<JobKey, PhaseResultView>::empty(),
            r.max_participants == u32::MAX,
            r.events@ == Seq::<JobsEvent>::empty(),
            r.next_job_id == 0,
            r.validator_job_id_lookup@ == Map::<AccountId, Seq<(RoleType, JobId)>>::empty(),
            r.validator_rewards@ == Map::<AccountId, Balance>::empty(),
            r.max_active_jobs_per_validator == max_active_jobs_per_validator,
            r.rewards_account == rewards_account,
            r.ledger == ledger,
    {
        Jobs {
            next_job_id: 0,
            validator_job_id_lookup: KeyedMap::new(),
            validator_rewards: KeyedMap::new(),
            max_active_jobs_per_validator,
            rewards_account,
            ledger,
            submitted_jobs: KeyedMap::new(),
            known_results: KeyedMap::new(),
            max_participants: u32::MAX,
            events: Vec::new(),
        }
    }

    /// Hands out the next job id and advances the counter.
    pub fn get_next_job_id(&mut self) -> (r: JobId)
        requires
            old(self).next_job_id < u64::MAX,
        ensures
            r == old(self).next_job_id,
            final(self).next_job_id == old(self).next_job_id + 1,
            final(self).validator_job_id_lookup@ == old(self).validator_job_id_lookup@,
            final(self).validator_rewards@ == old(self).validator_rewards@,
            final(self).ledger == old(self).ledger,
            final(self).submitted_jobs@ == old(self).submitted_jobs@,
            final(self).known_results@ == old(self).known_results@,
            final(self).events@ == old(self).events@,
            final(self).rewards_account == old(self).rewards_account,
            final(self).max_participants == old(self).max_participants,
    {
        let current = self.next_job_id;
        self.next_job_id = current + 1;
        current
    }

    /// Records that `validator` works on job `job_id` under `role_type`;
    /// `max_allowed` is the number of services the roles system allows the
    /// validator. Refused where the lookup is full or would exceed it.
    pub fn add_job_to_validator_lookup(
        &mut self,
        validator: AccountId,
        role_type: RoleType,
        job_id: JobId,
        max_allowed: u32,
    ) -> (r: Result<(), Error>)
        ensures
            ({
                let jobs = jobs_at(old(self).validator_job_id_lookup@, validator);
                &&& r is Ok <==> jobs.len() < old(self).max_active_jobs_per_validator && jobs.len()
                    + 1 <= max_allowed
                &&& r is Err ==> r == Err::<(), Error>(Error::TooManyJobsForValidator)
                    && final(self).validator_job_id_lookup@ == old(self).validator_job_id_lookup@
                &&& r is Ok ==> final(self).validator_job_id_lookup@ == old(
                    self,
                ).validator_job_id_lookup@.insert(validator, jobs.push((role_type, job_id)))
                &&& final(self).next_job_id == old(self).next_job_id
                &&& final(self).validator_rewards@ == old(self).validator_rewards@
                &&& final(self).ledger == old(self).ledger
            }),
            final(self).submitted_jobs@ == old(self).submitted_jobs@,
            final(self).known_results@ == old(self).known_results@,
            final(self).events@ == old(self).events@,
            final(self).rewards_account == old(self).rewards_account,
            final(self).max_participants == old(self).max_participants,
            final(self).max_active_jobs_per_validator == old(self).max_active_jobs_per_validator,
    {
        let mut jobs: Vec<(RoleType, JobId)> = Vec::new();
        match self.validator_job_id_lookup.get(&validator) {
            None => {},
            Some(v) => {
                let mut i: usize = 0;
                while i < v.len()
                    invariant
                        i <= v@.len(),
                        jobs@ == v@.take(i as int),
                    decreases v@.len() - i,
                {
                    jobs.push(v[i]);
                    proof {
                        assert(v@.take(i as int + 1) =~= v@.take(i as int).push(v@[i as int]));
                    }
                    i = i + 1;
                }
                proof {
                    assert(v@.take(v@.len() as int) =~= v@);
                }
            },
        }
        if jobs.len() >= self.max_active_jobs_per_validator as usize {
            return Err(Error::TooManyJobsForValidator);
        }
        jobs.push((role_type, job_id));
        if jobs.len() > max_allowed as usize {
            return Err(Error::TooManyJobsForValidator);
        }
        self.validator_job_id_lookup.insert(validator, jobs);
        Ok(())
    }

    /// Adds `reward` to what `validator` has earned.
    pub fn record_reward_to_validator(&mut self, validator: AccountId, reward: Balance)
        requires
            bal(old(self).validator_rewards@, validator) + reward <= u128::MAX,
        ensures
            final(self).validator_rewards@ == old(self).validator_rewards@.insert(
                validator,
                (bal(old(self).validator_rewards@, validator) + reward) as u128,
            ),
            final(self).validator_job_id_lookup@ == old(self).validator_job_id_lookup@,
            final(self).next_job_id == old(self).next_job_id,
            final(self).ledger == old(self).ledger,
            final(self).submitted_jobs@ == old(self).submitted_jobs@,
            final(self).known_results@ == old(self).known_results@,
            final(self).events@ == old(self).events@,
            final(self).rewards_account == old(self).rewards_account,
            final(self).max_participants == old(self).max_participants,
    {
        let existing = match self.validator_rewards.get(&validator) {
            None => 0,
            Some(x) => *x,
        };
        self.validator_rewards.insert(validator, existing + reward);
    }

    /// Pays `fee` back to a job's creator from the rewards account.
    pub fn refund_job_creator(&mut self, owner: AccountId, fee: Balance) -> (r: Result<(), Error>)
        ensures
            ({
                let free = old(self).ledger.free@;
                let from = old(self).rewards_account;
                &&& r is Ok <==> bal(free, from) >= fee && (from == owner || bal(free, owner) + fee
                    <= u128::MAX)
                &&& r is Err ==> final(self).ledger.free@ == free
                &&& r is Ok ==> final(self).ledger.free@ == moved(free, from, owner, fee)
                &&& final(self).ledger.reserved@ == old(self).ledger.reserved@
                &&& final(self).validator_rewards@ == old(self).validator_rewards@
                &&& final(self).validator_job_id_lookup@ == old(self).validator_job_id_lookup@
                &&& final(self).next_job_id == old(self).next_job_id
            }),
            final(self).submitted_jobs@ == old(self).submitted_jobs@,
            final(self).known_results@ == old(self).known_results@,
            final(self).events@ == old(self).events@,
            final(self).rewards_account == old(self).rewards_account,
            final(self).max_participants == old(self).max_participants,
    {
        let from = self.rewards_account;
        match self.ledger.transfer(from, owner, fee) {
            Ok(()) => Ok(()),
            Err(e) => Err(Error::Balances(e)),
        }
    }

    /// `withdraw_rewards`: pays `caller` everything it has earned from the
    /// rewards account and forgets the record.
    pub fn withdraw_rewards(&mut self, caller: AccountId) -> (r: Result<(), Error>)
        ensures
            ({
                let rewards = old(self).validator_rewards@;
                let free = old(self).ledger.free@;
                let from = old(self).rewards_account;
                let amount = rewards[caller];
                let ok = bal(free, from) >= amount && (from == caller || bal(free, caller) + amount
                    <= u128::MAX);
                &&& !rewards.contains_key(caller) ==> r == Err::<(), Error>(Error::NoRewards)
                &&& r is Ok <==> rewards.contains_key(caller) && ok
                &&& r is Err ==> final(self).ledger.free@ == free && final(self).validator_rewards@
                    == rewards
                &&& r is Ok ==> final(self).ledger.free@ == moved(free, from, caller, amount)
                    && final(self).validator_rewards@ == rewards.remove(caller)
                &&& final(self).ledger.reserved@ == old(self).ledger.reserved@
                &&& final(self).validator_job_id_lookup@ == old(self).validator_job_id_lookup@
                &&& final(self).next_job_id == old(self).next_job_id
            }),
            final(self).submitted_jobs@ == old(self).submitted_jobs@,
            final(self).known_results@ == old(self).known_results@,
            final(self).events@ == old(self).events@,
            final(self).rewards_account == old(self).rewards_account,
            final(self).max_participants == old(self).max_participants,
    {
        let amount = match self.validator_rewards.get(&caller) {
            None => {
                return Err(Error::NoRewards);
            },
            Some(x) => *x,
        };
        let from = self.rewards_account;
        match self.ledger.transfer(from, caller, amount) {
            Err(e) => {
                return Err(Error::Balances(e));
            },
            Ok(()) => {},
        }
        self.validator_rewards.remove(&caller);
        Ok(())
    }
}

} // verus!
