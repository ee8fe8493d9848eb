//! Removing a validator from a submitted job: the job is refunded and
//! dropped, or generated again without the validator, as its fallback says.
use super::rewards::{AccountId, Balance, Error, JobId, Jobs};
use super::submitted::{
    is_phase_one, participants_of, participants_without, without, FallbackOptions, JobInfo,
    JobInfoView, JobKey, JobRole, JobType, JobTypeView, JobsEvent, PhaseResultView,
};
use crate::ledger::{bal, moved, LedgerError};
use vstd::prelude::*;

verus! {

/// The parts of the jobs storage that a removal changes.
pub struct JobsState {
    pub submitted: Map<JobKey, JobInfoView>,
    pub known: Map<JobKey, PhaseResultView>,
    pub free: Map<AccountId, u128>,
    pub next_job_id: JobId,
}

/// What a removal reports.
pub enum RemovalEvent {
    /// Nothing: the job can still be carried out without the validator.
    Silent,
    /// The job's fee went back to its creator and the job was dropped.
    Refunded,
    /// The job was kept, with the given new record.
    ParticipantsUpdated(JobInfoView),
    /// A new first-phase job with the given id and record was submitted.
    ReSubmitted(JobId, JobInfoView),
}

/// The free balances after moving `amount` from `from` to `to`, or why that
/// is refused.
pub open spec fn transfer_outcome(free: Map<AccountId, u128>, from: AccountId, to: AccountId, amount: Balance) -> Result<
    Map<AccountId, u128>,
    LedgerError,
> {
    if bal(free, from) < amount {
        Err(LedgerError::InsufficientBalance)
    } else if from != to && bal(free, to) + amount > u128::MAX {
        Err(LedgerError::Overflow)
    } else {
        Ok(moved(free, from, to, amount))
    }
}

/// The job's first-phase id, where it is of its second phase.
pub open spec fn phase_one_id_of(t: JobTypeView) -> JobId {
    match t {
        JobTypeView::PhaseTwo { phase_one_id, .. } => phase_one_id,
        _ => 0,
    }
}

/// The threshold a second-phase job gives, where it gives one.
pub open spec fn threshold_of(t: JobTypeView) -> Option<u8> {
    match t {
        JobTypeView::PhaseTwo { threshold, .. } => threshold,
        _ => None,
    }
}

/// Refunding the job at `key` to its creator from the rewards account and
/// dropping it.
pub open spec fn refunded(st: JobsState, rewards: AccountId, key: JobKey) -> Result<
    (JobsState, RemovalEvent),
    Error,
> {
    let job = st.submitted[key];
    match transfer_outcome(st.free, rewards, job.owner, job.fee) {
        Err(e) => Err(Error::Balances(e)),
        Ok(free) => Ok(
            (
                JobsState { submitted: st.submitted.remove(key), free, ..st },
                RemovalEvent::Refunded,
            ),
        ),
    }
}

/// The new first-phase job type for a second-phase job generated again
/// with `left` and threshold `t`: key generation for a threshold-signature
/// role, the same proving system for a zero-knowledge role (where the
/// first-phase job is still stored as one), none otherwise.
pub open spec fn regenerated_type(
    st: JobsState,
    role: JobRole,
    p1key: JobKey,
    p1: PhaseResultView,
    left: Seq<AccountId>,
    t: u8,
) -> Option<JobTypeView> {
    match role {
        JobRole::Tss(_) => Some(
            JobTypeView::DkgPhaseOne {
                participants: left,
                threshold: t,
                permitted_caller: p1.permitted_caller,
                hd_wallet: p1.hd_wallet,
            },
        ),
        JobRole::ZkSaaS(_) => if st.submitted.contains_key(p1key) {
            match st.submitted[p1key].job_type {
                JobTypeView::ZkSaaSPhaseOne { system, .. } => Some(
                    JobTypeView::ZkSaaSPhaseOne {
                        participants: left,
                        permitted_caller: p1.permitted_caller,
                        system,
                    },
                ),
                _ => None,
            }
        } else {
            None
        },
        JobRole::Other(_) => None,
    }
}

/// The storage after removing `validator` from job `job_id` of `role`, with
/// what is reported, or why that is refused. A second-phase job generated
/// again costs the validator `fee`, paid to the rewards account.
pub open spec fn removal(
    st: JobsState,
    rewards: AccountId,
    max_participants: u32,
    role: JobRole,
    job_id: JobId,
    validator: AccountId,
    fee: Balance,
) -> Result<(JobsState, RemovalEvent), Error> {
    let key = JobKey { role, id: job_id };
    let job = st.submitted[key];
    if !st.submitted.contains_key(key) {
        Err(Error::JobNotFound)
    } else if is_phase_one(job.job_type) {
        match job.fallback {
            FallbackOptions::Destroy => refunded(st, rewards, key),
            FallbackOptions::RegenerateWithThreshold(t) => {
                let left = without(participants_of(job.job_type), validator);
                if left.len() <= t || t == 0 {
                    Err(Error::NotEnoughValidators)
                } else {
                    let kept = JobInfoView { fallback: FallbackOptions::Destroy, ..job };
                    Ok(
                        (
                            JobsState { submitted: st.submitted.insert(key, kept), ..st },
                            RemovalEvent::ParticipantsUpdated(kept),
                        ),
                    )
                }
            },
        }
    } else {
        let p1key = JobKey { role, id: phase_one_id_of(job.job_type) };
        let p1 = st.known[p1key];
        if !st.known.contains_key(p1key) {
            Err(Error::PhaseOneResultNotFound)
        } else if p1.participants is None {
            Err(Error::InvalidJobPhase)
        } else {
            let left = without(p1.participants->0, validator);
            let st1 = JobsState { known: st.known.remove(p1key), ..st };
            if left.len() > max_participants {
                Err(Error::TooManyParticipants)
            } else {
                match job.fallback {
                    FallbackOptions::Destroy => if role is Tss && left.len() >= threshold_of(
                        job.job_type,
                    )->0 {
                        Ok((st1, RemovalEvent::Silent))
                    } else {
                        refunded(st1, rewards, key)
                    },
                    FallbackOptions::RegenerateWithThreshold(t) => {
                        let new_id = st.next_job_id;
                        let nt = regenerated_type(st, role, p1key, p1, left, t);
                        if t == 0 {
                            Err(Error::NotEnoughValidators)
                        } else if nt is None {
                            Err(Error::JobNotFound)
                        } else {
                            match transfer_outcome(st.free, validator, rewards, fee) {
                                Err(e) => Err(Error::Balances(e)),
                                Ok(free) => {
                                    let info = JobInfoView {
                                        owner: p1.owner,
                                        expiry: job.expiry,
                                        ttl: job.ttl,
                                        job_type: nt->0,
                                        fee,
                                        fallback: FallbackOptions::Destroy,
                                    };
                                    let updated = JobInfoView {
                                        job_type: JobTypeView::PhaseTwo {
                                            phase_one_id: new_id,
                                            threshold: threshold_of(job.job_type),
                                        },
                                        fallback: FallbackOptions::Destroy,
                                        ..job
                                    };
                                    let new_key = JobKey { role, id: new_id };
                                    Ok(
                                        (
                                            JobsState {
                                                submitted: st.submitted.insert(new_key, info).insert(
                                                    key,
                                                    updated,
                                                ),
                                                known: st.known.remove(p1key).remove(new_key),
                                                free,
                                                next_job_id: (new_id + 1) as u64,
                                            },
                                            RemovalEvent::ReSubmitted(new_id, info),
                                        ),
                                    )
                                },
                            }
                        }
                    },
                }
            }
        }
    }
}

/// Where a removal would stop the chain: a second-phase job of a
/// threshold-signature role that is dropped needs a threshold, and one that
/// is generated again needs a fresh job id and a role that can be generated
/// again.
pub open spec fn removal_would_panic(
    st: JobsState,
    max_participants: u32,
    role: JobRole,
    job_id: JobId,
    validator: AccountId,
) -> bool {
    let key = JobKey { role, id: job_id };
    let job = st.submitted[key];
    let p1key = JobKey { role, id: phase_one_id_of(job.job_type) };
    let p1 = st.known[p1key];
    &&& st.submitted.contains_key(key)
    &&& !is_phase_one(job.job_type)
    &&& st.known.contains_key(p1key)
    &&& p1.participants is Some
    &&& without(p1.participants->0, validator).len() <= max_participants
    &&& match job.fallback {
        FallbackOptions::Destroy => role is Tss && threshold_of(job.job_type) is None,
        FallbackOptions::RegenerateWithThreshold(t) => st.next_job_id == u64::MAX || (t != 0
            && role is Other),
    }
}

/// The events after a removal that reported `ev`.
pub open spec fn events_after(
    now: Seq<JobsEvent>,
    before: Seq<JobsEvent>,
    role: JobRole,
    job_id: JobId,
    ev: RemovalEvent,
) -> bool {
    match ev {
        RemovalEvent::Silent => now == before,
        RemovalEvent::Refunded => now == before.push(JobsEvent::JobRefunded { job_id, role }),
        RemovalEvent::ParticipantsUpdated(v) => {
            &&& now.len() == before.len() + 1
            &&& now.take(before.len() as int) == before
            &&& now.last() matches JobsEvent::JobParticipantsUpdated { job_id: j, role: ro, details }
                && j == job_id && ro == role && details@ == v
        },
        RemovalEvent::ReSubmitted(id, v) => {
            &&& now.len() == before.len() + 1
            &&& now.take(before.len() as int) == before
            &&& now.last() matches JobsEvent::JobReSubmitted { job_id: j, role: ro, details } && j
                == id && ro == role && details@ == v
        },
    }
}

impl Jobs {
    /// The parts of the storage that a removal changes.
    pub open spec fn removal_state(&self) -> JobsState {
        JobsState {
            submitted: self.submitted_jobs@,
            known: self.known_results@,
            free: self.ledger.free@,
            next_job_id: self.next_job_id,
        }
    }

    /// Removes `validator` from job `job_id` of `role`. A first-phase job is
    /// refunded and dropped, or kept once more with the fallback set to
    /// dropping where enough other participants remain. A second-phase job
    /// loses its first-phase result; it is kept where a threshold-signature
    /// job can still sign, else refunded and dropped, or its first phase is
    /// submitted again without the validator, who pays `fee` for it. On
    /// refusal nothing changes.
    pub fn try_validator_removal_from_job(
        &mut self,
        role: JobRole,
        job_id: JobId,
        validator: AccountId,
        fee: Balance,
    ) -> (r: Result<(), Error>)
        requires
            !removal_would_panic(
                old(self).removal_state(),
                old(self).max_participants,
                role,
                job_id,
                validator,
            ),
        ensures
            match removal(
                old(self).removal_state(),
                old(self).rewards_account,
                old(self).max_participants,
                role,
                job_id,
                validator,
                fee,
            ) {
                Ok((st, ev)) => r is Ok && final(self).removal_state() == st && events_after(
                    final(self).events@,
                    old(self).events@,
                    role,
                    job_id,
                    ev,
                ),
                Err(e) => r == Err::<(), Error>(e) && final(self).removal_state() == old(
                    self,
                ).removal_state() && final(self).events@ == old(self).events@,
            },
            final(self).ledger.reserved@ == old(self).ledger.reserved@,
            final(self).validator_rewards@ == old(self).validator_rewards@,
            final(self).validator_job_id_lookup@ == old(self).validator_job_id_lookup@,
            final(self).rewards_account == old(self).rewards_account,
            final(self).max_participants == old(self).max_participants,
    {
        let key = JobKey { role, id: job_id };
        let rewards = self.rewards_account;
        let (phase_one, fallback, owner, job_fee) = match self.submitted_jobs.get(&key) {
            None => {
                return Err(Error::JobNotFound);
            },
            Some(j) => (
                match &j.job_type {
                    JobType::PhaseTwo { .. } => false,
                    _ => true,
                },
                j.fallback,
                j.owner,
                j.fee,
            ),
        };
        if phase_one {
            match fallback {
                FallbackOptions::Destroy => {
                    match self.ledger.transfer(rewards, owner, job_fee) {
                        Err(e) => {
                            return Err(Error::Balances(e));
                        },
                        Ok(()) => {},
                    }
                    self.events.push(JobsEvent::JobRefunded { job_id, role });
                    self.submitted_jobs.remove(&key);
                    return Ok(());
                },
                FallbackOptions::RegenerateWithThreshold(t) => {
                    let ghost job = self.submitted_jobs@[key];
                    let left_len = match self.submitted_jobs.get(&key) {
                        None => 0,
                        Some(j) => match &j.job_type {
                            JobType::DkgPhaseOne { participants, .. } => participants_without(
                                participants,
                                validator,
                            ).len(),
                            JobType::ZkSaaSPhaseOne { participants, .. } => participants_without(
                                participants,
                                validator,
                            ).len(),
                            JobType::PhaseTwo { .. } => 0,
                        },
                    };
                    assert(left_len == without(participants_of(job.job_type), validator).len());
                    if left_len <= t as usize || t == 0 {
                        return Err(Error::NotEnoughValidators);
                    }
                    let ghost s0 = self.submitted_jobs@;
                    let ghost e0 = self.events@;
                    let mut j = self.submitted_jobs.remove(&key).unwrap();
                    j.fallback = FallbackOptions::Destroy;
                    let details = j.copy();
                    let ghost kept = j@;
                    self.submitted_jobs.insert(key, j);
                    self.events.push(JobsEvent::JobParticipantsUpdated { job_id, role, details });
                    proof {
                        assert(kept == JobInfoView { fallback: FallbackOptions::Destroy, ..s0[key] });
                        assert(self.submitted_jobs@ =~= s0.insert(key, kept));
                        assert(self.events@.take(e0.len() as int) =~= e0);
                    }
                    return Ok(());
                },
            }
        }
        let (p1id, threshold, expiry, ttl) = match self.submitted_jobs.get(&key) {
            None => (0, None, 0, 0),
            Some(j) => match &j.job_type {
                JobType::PhaseTwo { phase_one_id, threshold } => (
                    *phase_one_id,
                    *threshold,
                    j.expiry,
                    j.ttl,
                ),
                _ => (0, None, j.expiry, j.ttl),
            },
        };
        let p1key = JobKey { role, id: p1id };
        let (p1owner, p1caller, p1hd, left) = match self.known_results.get(&p1key) {
            None => {
                return Err(Error::PhaseOneResultNotFound);
            },
            Some(p1) => match &p1.participants {
                None => {
                    return Err(Error::InvalidJobPhase);
                },
                Some(ps) => (
                    p1.owner,
                    p1.permitted_caller,
                    p1.hd_wallet,
                    participants_without(ps, validator),
                ),
            },
        };
        if left.len() > self.max_participants as usize {
            return Err(Error::TooManyParticipants);
        }
        match fallback {
            FallbackOptions::Destroy => {
                let keep = match role {
                    JobRole::Tss(_) => left.len() >= threshold.unwrap() as usize,
                    _ => false,
                };
                if keep {
                    self.known_results.remove(&p1key);
                    return Ok(());
                }
                match self.ledger.transfer(rewards, owner, job_fee) {
                    Err(e) => {
                        return Err(Error::Balances(e));
                    },
                    Ok(()) => {},
                }
                self.known_results.remove(&p1key);
                self.events.push(JobsEvent::JobRefunded { job_id, role });
                self.submitted_jobs.remove(&key);
                Ok(())
            },
            FallbackOptions::RegenerateWithThreshold(t) => {
                let new_id = self.next_job_id;
                if t == 0 {
                    return Err(Error::NotEnoughValidators);
                }
                let ghost left_view = left@;
                let new_type = match role {
                    JobRole::Tss(_) => JobType::DkgPhaseOne {
                        participants: left,
                        threshold: t,
                        permitted_caller: p1caller,
                        hd_wallet: p1hd,
                    },
                    JobRole::ZkSaaS(_) => {
                        let system = match self.submitted_jobs.get(&p1key) {
                            None => {
                                return Err(Error::JobNotFound);
                            },
                            Some(pj) => match &pj.job_type {
                                JobType::ZkSaaSPhaseOne { system, .. } => *system,
                                _ => {
                                    return Err(Error::JobNotFound);
                                },
                            },
                        };
                        JobType::ZkSaaSPhaseOne {
                            participants: left,
                            permitted_caller: p1caller,
                            system,
                        }
                    },
                    JobRole::Other(_) => {
                        return Err(Error::JobNotFound);
                    },
                };
                proof {
                    let p1 = self.known_results@[p1key];
                    assert(p1.participants == Some(p1.participants->0));
                    assert(new_type@ == regenerated_type(
                        self.removal_state(),
                        role,
                        p1key,
                        p1,
                        left_view,
                        t,
                    )->0);
                }
                match self.ledger.transfer(validator, rewards, fee) {
                    Err(e) => {
                        return Err(Error::Balances(e));
                    },
                    Ok(()) => {},
                }
                self.next_job_id = new_id + 1;
                let info = JobInfo {
                    owner: p1owner,
                    expiry,
                    ttl,
                    job_type: new_type,
                    fee,
                    fallback: FallbackOptions::Destroy,
                };
                let details = info.copy();
                let ghost info_view = info@;
                let new_key = JobKey { role, id: new_id };
                let ghost s0 = self.submitted_jobs@;
                let ghost k0 = self.known_results@;
                let ghost e0 = self.events@;
                let mut j = self.submitted_jobs.remove(&key).unwrap();
                self.submitted_jobs.insert(new_key, info);
                j.job_type = JobType::PhaseTwo { phase_one_id: new_id, threshold };
                j.fallback = FallbackOptions::Destroy;
                let ghost updated = j@;
                self.submitted_jobs.insert(key, j);
                self.known_results.remove(&p1key);
                self.known_results.remove(&new_key);
                self.events.push(JobsEvent::JobReSubmitted { job_id: new_id, role, details });
                proof {
                    assert(updated == JobInfoView {
                        job_type: JobTypeView::PhaseTwo {
                            phase_one_id: new_id,
                            threshold: threshold_of(s0[key].job_type),
                        },
                        fallback: FallbackOptions::Destroy,
                        ..s0[key]
                    });
                    assert(self.submitted_jobs@ =~= s0.insert(new_key, info_view).insert(key, updated));
                    assert(self.known_results@ =~= k0.remove(p1key).remove(new_key));
                    assert(self.events@.take(e0.len() as int) =~= e0);
                }
                Ok(())
            },
        }
    }
}

} // verus!
