//! Submitting a job: its participants must be validators of its role, each
//! participant's lookup records the job, a second-phase job needs a usable
//! first-phase result, and the caller pays the job's fee into the rewards
//! account.
use super::removal::{phase_one_id_of, transfer_outcome};
use super::rewards::{jobs_at, AccountId, Balance, Error, JobId, Jobs};
use super::submitted::{
    copy_accounts, is_phase_one, participants_of, JobInfo, JobInfoView, JobKey, JobRole,
    JobSubmission, JobSubmissionView, JobsEvent, PhaseResultView,
};
use vstd::prelude::*;

verus! {

/// What the roles system answers for a participant: whether it is a
/// validator of the job's role, and how many services it may take on.
#[derive(Clone, Copy, Debug, PartialEq, Eq)]
pub struct RoleAnswer {
    pub is_validator: bool,
    pub max_active_services: u32,
}

/// The answer for the participant at `i`; a missing answer is a refusal.
pub open spec fn answer_at(answers: Seq<RoleAnswer>, i: int) -> RoleAnswer {
    if 0 <= i < answers.len() {
        answers[i]
    } else {
        RoleAnswer { is_validator: false, max_active_services: 0 }
    }
}

/// The lookups after recording job `id` of `role` for the first `n`
/// participants in turn, or why a participant is refused.
pub open spec fn lookups_added(
    lookup: Map<AccountId, Seq<(JobRole, JobId)>>,
    ps: Seq<AccountId>,
    answers: Seq<RoleAnswer>,
    role: JobRole,
    id: JobId,
    max_jobs: u32,
    n: int,
) -> Result<Map<AccountId, Seq<(JobRole, JobId)>>, Error>
    decreases n,
{
    if n <= 0 {
        Ok(lookup)
    } else {
        match lookups_added(lookup, ps, answers, role, id, max_jobs, n - 1) {
            Err(e) => Err(e),
            Ok(m) => {
                let p = ps[n - 1];
                let ans = answer_at(answers, n - 1);
                let jobs = jobs_at(m, p);
                if !ans.is_validator {
                    Err(Error::InvalidValidator)
                } else if jobs.len() < max_jobs && jobs.len() + 1 <= ans.max_active_services {
                    Ok(m.insert(p, jobs.push((role, id))))
                } else {
                    Err(Error::TooManyJobsForValidator)
                }
            },
        }
    }
}

proof fn lemma_lookups_err(
    lookup: Map<AccountId, Seq<(JobRole, JobId)>>,
    ps: Seq<AccountId>,
    answers: Seq<RoleAnswer>,
    role: JobRole,
    id: JobId,
    max_jobs: u32,
    n: int,
    len: int,
)
    requires
        0 <= n <= len,
        lookups_added(lookup, ps, answers, role, id, max_jobs, n) is Err,
    ensures
        lookups_added(lookup, ps, answers, role, id, max_jobs, len) == lookups_added(
            lookup,
            ps,
            answers,
            role,
            id,
            max_jobs,
            n,
        ),
    decreases len - n,
{
    if n < len {
        lemma_lookups_err(lookup, ps, answers, role, id, max_jobs, n, len - 1);
    }
}

/// The parts of the jobs storage that a submission changes.
pub struct SubmitState {
    pub lookup: Map<AccountId, Seq<(JobRole, JobId)>>,
    pub submitted: Map<JobKey, JobInfoView>,
    pub free: Map<AccountId, u128>,
    pub next_job_id: JobId,
}

/// The storage after `caller` submits `job` under `role` at block `now`,
/// paying `fee`, with the new job's id, or why that is refused. A
/// first-phase job needs participants, each a validator with room for one
/// more job, and parameters that pass the job type's own check
/// (`params_ok`); a second-phase job needs its first-phase result, not
/// expired, whose participants are each a validator with room, and which
/// the caller may use. The job must not have expired.
pub open spec fn submission(
    st: SubmitState,
    known: Map<JobKey, PhaseResultView>,
    rewards: AccountId,
    max_jobs: u32,
    caller: AccountId,
    role: JobRole,
    job: JobSubmissionView,
    fee: Balance,
    answers: Seq<RoleAnswer>,
    params_ok: bool,
    now: u64,
) -> Result<(SubmitState, JobId), Error> {
    let id = st.next_job_id;
    let checked = if is_phase_one(job.job_type) {
        let ps = participants_of(job.job_type);
        if ps.len() == 0 {
            Err(Error::InvalidJobPhase)
        } else {
            match lookups_added(st.lookup, ps, answers, role, id, max_jobs, ps.len() as int) {
                Err(e) => Err(e),
                Ok(m) => if !params_ok {
                    Err(Error::InvalidJobParams)
                } else {
                    Ok(m)
                },
            }
        }
    } else {
        let p1key = JobKey { role, id: phase_one_id_of(job.job_type) };
        let p1 = known[p1key];
        if !known.contains_key(p1key) {
            Err(Error::PreviousResultNotFound)
        } else if p1.expiry < now {
            Err(Error::ResultExpired)
        } else if p1.participants is None {
            Err(Error::InvalidJobPhase)
        } else {
            let ps = p1.participants->0;
            match lookups_added(st.lookup, ps, answers, role, id, max_jobs, ps.len() as int) {
                Err(e) => Err(e),
                Ok(m) => if p1.permitted_caller matches Some(pc) && pc != caller {
                    Err(Error::InvalidJobParams)
                } else {
                    Ok(m)
                },
            }
        }
    };
    match checked {
        Err(e) => Err(e),
        Ok(m) => if job.expiry <= now {
            Err(Error::JobAlreadyExpired)
        } else {
            match transfer_outcome(st.free, caller, rewards, fee) {
                Err(e) => Err(Error::Balances(e)),
                Ok(free) => Ok(
                    (
                        SubmitState {
                            lookup: m,
                            submitted: st.submitted.insert(
                                JobKey { role, id },
                                JobInfoView {
                                    owner: caller,
                                    expiry: job.expiry,
                                    ttl: job.ttl,
                                    job_type: job.job_type,
                                    fee,
                                    fallback: job.fallback,
                                },
                            ),
                            free,
                            next_job_id: (id + 1) as u64,
                        },
                        id,
                    ),
                ),
            }
        },
    }
}

impl Jobs {
    /// The parts of the storage that a submission changes.
    pub open spec fn submit_state(&self) -> SubmitState {
        SubmitState {
            lookup: self.validator_job_id_lookup@,
            submitted: self.submitted_jobs@,
            free: self.ledger.free@,
            next_job_id: self.next_job_id,
        }
    }

    /// Records job `id` of `role` for each of `ps` in turn; on refusal the
    /// lookups may hold the records made before it.
    fn add_participants(
        &mut self,
        ps: &Vec<AccountId>,
        answers: &Vec<RoleAnswer>,
        role: JobRole,
        id: JobId,
    ) -> (r: Result<(), Error>)
        ensures
            match lookups_added(
                old(self).validator_job_id_lookup@,
                ps@,
                answers@,
                role,
                id,
                old(self).max_active_jobs_per_validator,
                ps@.len() as int,
            ) {
                Ok(m) => r is Ok && final(self).validator_job_id_lookup@ == m,
                Err(e) => r == Err::<(), Error>(e),
            },
            final(self).next_job_id == old(self).next_job_id,
            final(self).validator_rewards@ == old(self).validator_rewards@,
            final(self).ledger == old(self).ledger,
            final(self).submitted_jobs@ == old(self).submitted_jobs@,
            final(self).known_results@ == old(self).known_results@,
            final(self).events@ == old(self).events@,
            final(self).rewards_account == old(self).rewards_account,
            final(self).max_participants == old(self).max_participants,
            final(self).max_active_jobs_per_validator == old(self).max_active_jobs_per_validator,
    {
        let ghost l0 = self.validator_job_id_lookup@;
        let max_jobs = self.max_active_jobs_per_validator;
        let mut i: usize = 0;
        while i < ps.len()
            invariant
                i <= ps@.len(),
                max_jobs == self.max_active_jobs_per_validator,
                max_jobs == old(self).max_active_jobs_per_validator,
                l0 == old(self).validator_job_id_lookup@,
                lookups_added(l0, ps@, answers@, role, id, max_jobs, i as int) == Ok::<
                    Map<AccountId, Seq<(JobRole, JobId)>>,
                    Error,
                >(self.validator_job_id_lookup@),
                self.next_job_id == old(self).next_job_id,
                self.validator_rewards@ == old(self).validator_rewards@,
                self.ledger == old(self).ledger,
                self.submitted_jobs@ == old(self).submitted_jobs@,
                self.known_results@ == old(self).known_results@,
                self.events@ == old(self).events@,
                self.rewards_account == old(self).rewards_account,
                self.max_participants == old(self).max_participants,
            decreases ps@.len() - i,
        {
            let p = ps[i];
            let ans = if i < answers.len() {
                answers[i]
            } else {
                RoleAnswer { is_validator: false, max_active_services: 0 }
            };
            assert(ans == answer_at(answers@, i as int));
            if !ans.is_validator {
                proof {
                    lemma_lookups_err(l0, ps@, answers@, role, id, max_jobs, i as int + 1, ps@.len() as int);
                }
                return Err(Error::InvalidValidator);
            }
            match self.add_job_to_validator_lookup(p, role, id, ans.max_active_services) {
                Err(e) => {
                    proof {
                        lemma_lookups_err(
                            l0,
                            ps@,
                            answers@,
                            role,
                            id,
                            max_jobs,
                            i as int + 1,
                            ps@.len() as int,
                        );
                    }
                    return Err(e);
                },
                Ok(()) => {},
            }
            i = i + 1;
        }
        Ok(())
    }

    /// Submits `job` under `role` for `caller` at block `now`. `fee` is what
    /// the job costs, `answers` what the roles system answers for each
    /// participant in order, and `params_ok` whether a first-phase job's
    /// parameters pass its type's check. On success the job is stored under
    /// the next id, the fee moves to the rewards account, each participant's
    /// lookup records the job, and the submission is reported; on refusal
    /// nothing changes.
    pub fn submit_job(
        &mut self,
        caller: AccountId,
        role: JobRole,
        job: JobSubmission,
        fee: Balance,
        answers: &Vec<RoleAnswer>,
        params_ok: bool,
        now: u64,
    ) -> (r: Result<JobId, Error>)
        requires
            old(self).next_job_id < u64::MAX,
        ensures
            match submission(
                old(self).submit_state(),
                old(self).known_results@,
                old(self).rewards_account,
                old(self).max_active_jobs_per_validator,
                caller,
                role,
                job@,
                fee,
                answers@,
                params_ok,
                now,
            ) {
                Ok((st, id)) => {
                    &&& r == Ok::<JobId, Error>(id)
                    &&& final(self).submit_state() == st
                    &&& final(self).events@.len() == old(self).events@.len() + 1
                    &&& final(self).events@.take(old(self).events@.len() as int) == old(
                        self,
                    ).events@
                    &&& final(self).events@.last() matches JobsEvent::JobSubmitted {
                        job_id,
                        role: ro,
                        details,
                    } && job_id == id && ro == role && details@ == job@
                },
                Err(e) => r == Err::<JobId, Error>(e) && final(self).submit_state() == old(
                    self,
                ).submit_state() && final(self).events@ == old(self).events@,
            },
            final(self).known_results@ == old(self).known_results@,
            final(self).validator_rewards@ == old(self).validator_rewards@,
            final(self).ledger.reserved@ == old(self).ledger.reserved@,
            final(self).rewards_account == old(self).rewards_account,
            final(self).max_participants == old(self).max_participants,
    {
        let ghost s0 = self.submit_state();
        let ghost job_view = job@;
        let id = self.next_job_id;
        let rewards = self.rewards_account;
        let saved = self.validator_job_id_lookup.duplicate();
        let phase_one = match &job.job_type {
            super::submitted::JobType::PhaseTwo { .. } => false,
            _ => true,
        };
        if phase_one {
            let ps = match &job.job_type {
                super::submitted::JobType::DkgPhaseOne { participants, .. } => copy_accounts(
                    participants,
                ),
                super::submitted::JobType::ZkSaaSPhaseOne { participants, .. } => copy_accounts(
                    participants,
                ),
                super::submitted::JobType::PhaseTwo { .. } => Vec::new(),
            };
            if ps.len() == 0 {
                return Err(Error::InvalidJobPhase);
            }
            match self.add_participants(&ps, answers, role, id) {
                Err(e) => {
                    self.validator_job_id_lookup = saved;
                    return Err(e);
                },
                Ok(()) => {},
            }
            if !params_ok {
                self.validator_job_id_lookup = saved;
                return Err(Error::InvalidJobParams);
            }
        } else {
            let p1id = match &job.job_type {
                super::submitted::JobType::PhaseTwo { phase_one_id, .. } => *phase_one_id,
                _ => 0,
            };
            let p1key = JobKey { role, id: p1id };
            let (ps, permitted) = match self.known_results.get(&p1key) {
                None => {
                    return Err(Error::PreviousResultNotFound);
                },
                Some(p1) => {
                    if p1.expiry < now {
                        return Err(Error::ResultExpired);
                    }
                    match &p1.participants {
                        None => {
                            return Err(Error::InvalidJobPhase);
                        },
                        Some(ps) => (copy_accounts(ps), p1.permitted_caller),
                    }
                },
            };
            match self.add_participants(&ps, answers, role, id) {
                Err(e) => {
                    self.validator_job_id_lookup = saved;
                    return Err(e);
                },
                Ok(()) => {},
            }
            if let Some(pc) = permitted {
                if pc != caller {
                    self.validator_job_id_lookup = saved;
                    return Err(Error::InvalidJobParams);
                }
            }
        }
        if job.expiry <= now {
            self.validator_job_id_lookup = saved;
            return Err(Error::JobAlreadyExpired);
        }
        match self.ledger.transfer(caller, rewards, fee) {
            Err(e) => {
                self.validator_job_id_lookup = saved;
                return Err(Error::Balances(e));
            },
            Ok(()) => {},
        }
        self.next_job_id = id + 1;
        let info = JobInfo {
            owner: caller,
            expiry: job.expiry,
            ttl: job.ttl,
            job_type: job.job_type.copy(),
            fee,
            fallback: job.fallback,
        };
        self.submitted_jobs.insert(JobKey { role, id }, info);
        let ghost e0 = self.events@;
        self.events.push(JobsEvent::JobSubmitted { job_id: id, role, details: job });
        proof {
            assert(self.events@.take(e0.len() as int) =~= e0);
        }
        Ok(id)
    }
}

} // verus!
