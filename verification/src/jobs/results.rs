//! Settling the result submitted for a job: the result is checked against
//! the job, a key-generation result is stored for later phases, the job's
//! fee is shared among its participants as rewards, and the job is done.
use super::rewards::{AccountId, Balance, Error, JobId, Jobs};
use super::submitted::{
    copy_accounts, participants_of, JobKey, JobRole, JobType, JobTypeView, JobsEvent, PhaseResult,
    PhaseResultView,
};
use super::removal::phase_one_id_of;
use crate::ledger::bal;
use vstd::prelude::*;

verus! {

/// The kind of a submitted result.
#[derive(Clone, Copy, Debug, PartialEq, Eq)]
pub enum JobResultKind {
    /// A generated threshold key.
    Dkg,
    /// A signature made with a generated key.
    DkgSignature,
    /// A zero-knowledge circuit or proof.
    ZkSaaS,
}

/// The participants to reward for a result of `kind` for job `job_id` of
/// `role`, with the result to store for later phases, or why the result does
/// not fit the job. A signature needs the key's result, unexpired at `now`.
pub open spec fn result_checked(
    submitted: Map<JobKey, super::submitted::JobInfoView>,
    known: Map<JobKey, PhaseResultView>,
    role: JobRole,
    job_id: JobId,
    kind: JobResultKind,
    now: u64,
) -> Result<(Seq<AccountId>, Option<PhaseResultView>), Error> {
    let key = JobKey { role, id: job_id };
    let job = submitted[key];
    if !submitted.contains_key(key) {
        Err(Error::JobNotFound)
    } else {
        match kind {
            JobResultKind::Dkg => match job.job_type {
                JobTypeView::DkgPhaseOne { participants, permitted_caller, hd_wallet, .. } => Ok(
                    (
                        participants,
                        Some(
                            PhaseResultView {
                                owner: job.owner,
                                expiry: job.expiry,
                                participants: Some(participants),
                                permitted_caller,
                                hd_wallet,
                            },
                        ),
                    ),
                ),
                _ => Err(Error::ResultNotExpectedType),
            },
            JobResultKind::DkgSignature => if job.job_type is PhaseTwo && role is Tss {
                let p1key = JobKey { role, id: phase_one_id_of(job.job_type) };
                let p1 = known[p1key];
                if !known.contains_key(p1key) {
                    Err(Error::PreviousResultNotFound)
                } else if p1.expiry < now {
                    Err(Error::ResultExpired)
                } else if p1.participants is None {
                    Err(Error::InvalidJobPhase)
                } else {
                    Ok((p1.participants->0, None))
                }
            } else {
                Err(Error::ResultNotExpectedType)
            },
            JobResultKind::ZkSaaS => Err(Error::ResultNotExpectedType),
        }
    }
}

/// The rewards after crediting `per` to each of `ps` in turn.
pub open spec fn credited(m: Map<AccountId, Balance>, ps: Seq<AccountId>, per: Balance) -> Map<
    AccountId,
    Balance,
>
    decreases ps.len(),
{
    if ps.len() == 0 {
        m
    } else {
        let prev = credited(m, ps.drop_last(), per);
        prev.insert(ps.last(), (bal(prev, ps.last()) + per) as u128)
    }
}

/// Whether crediting `per` to each of `ps` in turn keeps every reward a
/// balance.
pub open spec fn credits_fit(m: Map<AccountId, Balance>, ps: Seq<AccountId>, per: Balance) -> bool
    decreases ps.len(),
{
    if ps.len() == 0 {
        true
    } else {
        credits_fit(m, ps.drop_last(), per) && bal(credited(m, ps.drop_last(), per), ps.last())
            + per <= u128::MAX
    }
}

pub proof fn lemma_credits_fit_prefix(m: Map<AccountId, Balance>, ps: Seq<AccountId>, per: Balance, k: int)
    requires
        0 <= k <= ps.len(),
        credits_fit(m, ps, per),
    ensures
        credits_fit(m, ps.take(k), per),
    decreases ps.len(),
{
    if k == ps.len() {
        assert(ps.take(k) =~= ps);
    } else {
        assert(ps.drop_last().take(k) =~= ps.take(k));
        lemma_credits_fit_prefix(m, ps.drop_last(), per, k);
    }
}

/// The events that reward each of `ps` with `per`.
pub open spec fn rewarded_events(ps: Seq<AccountId>, per: Balance) -> Seq<JobsEvent> {
    ps.map_values(|p: AccountId| JobsEvent::ValidatorRewarded { id: p, reward: per })
}

/// Where settling would stop the chain: a result of a kind that cannot be
/// settled, a job without participants to share the fee among, or a reward
/// that would overflow.
pub open spec fn settlement_would_panic(
    j: &Jobs,
    role: JobRole,
    job_id: JobId,
    kind: JobResultKind,
    now: u64,
) -> bool {
    let key = JobKey { role, id: job_id };
    let c = result_checked(j.submitted_jobs@, j.known_results@, role, job_id, kind, now);
    ||| j.submitted_jobs@.contains_key(key) && kind == JobResultKind::ZkSaaS
    ||| c is Ok && c->Ok_0.0.len() == 0
    ||| c is Ok && c->Ok_0.0.len() > 0 && !credits_fit(
        j.validator_rewards@,
        c->Ok_0.0,
        (j.submitted_jobs@[key].fee / c->Ok_0.0.len() as u128) as u128,
    )
}

impl Jobs {
    /// Settles a result of `kind` submitted for job `job_id` of `role` at
    /// block `now`. `verification` is the outcome of checking the result:
    /// looking up the participants' keys and verifying it with them. On
    /// success a generated key's result is stored, the job's fee is shared
    /// equally (rounded down) among the participants as rewards, in their
    /// order, and the job is removed. On refusal nothing changes.
    pub fn submit_job_result(
        &mut self,
        role: JobRole,
        job_id: JobId,
        kind: JobResultKind,
        now: u64,
        verification: Result<(), Error>,
    ) -> (r: Result<(), Error>)
        requires
            !settlement_would_panic(old(self), role, job_id, kind, now),
        ensures
            ({
                let key = JobKey { role, id: job_id };
                let c = result_checked(
                    old(self).submitted_jobs@,
                    old(self).known_results@,
                    role,
                    job_id,
                    kind,
                    now,
                );
                let ps = c->Ok_0.0;
                let per = (old(self).submitted_jobs@[key].fee / ps.len() as u128) as u128;
                &&& c is Err ==> r == Err::<(), Error>(c->Err_0)
                &&& c is Ok && verification is Err ==> r == verification
                &&& r is Ok <==> c is Ok && verification is Ok
                &&& r is Err ==> {
                    &&& final(self).submitted_jobs@ == old(self).submitted_jobs@
                    &&& final(self).known_results@ == old(self).known_results@
                    &&& final(self).validator_rewards@ == old(self).validator_rewards@
                    &&& final(self).events@ == old(self).events@
                }
                &&& r is Ok ==> {
                    &&& final(self).submitted_jobs@ == old(self).submitted_jobs@.remove(key)
                    &&& final(self).known_results@ == match c->Ok_0.1 {
                        Some(res) => old(self).known_results@.insert(key, res),
                        None => old(self).known_results@,
                    }
                    &&& final(self).validator_rewards@ == credited(
                        old(self).validator_rewards@,
                        ps,
                        per,
                    )
                    &&& final(self).events@ == (old(self).events@ + rewarded_events(ps, per)).push(
                        JobsEvent::JobResultSubmitted { job_id, role },
                    )
                }
            }),
            final(self).ledger == old(self).ledger,
            final(self).next_job_id == old(self).next_job_id,
            final(self).validator_job_id_lookup@ == old(self).validator_job_id_lookup@,
            final(self).rewards_account == old(self).rewards_account,
            final(self).max_participants == old(self).max_participants,
    {
        let key = JobKey { role, id: job_id };
        let ghost c = result_checked(
            self.submitted_jobs@,
            self.known_results@,
            role,
            job_id,
            kind,
            now,
        );
        let (participants, stored, fee) = match self.submitted_jobs.get(&key) {
            None => {
                return Err(Error::JobNotFound);
            },
            Some(job) => match kind {
                JobResultKind::Dkg => match &job.job_type {
                    JobType::DkgPhaseOne { participants, permitted_caller, hd_wallet, .. } => (
                        copy_accounts(participants),
                        Some(
                            PhaseResult {
                                owner: job.owner,
                                expiry: job.expiry,
                                participants: Some(copy_accounts(participants)),
                                permitted_caller: *permitted_caller,
                                hd_wallet: *hd_wallet,
                            },
                        ),
                        job.fee,
                    ),
                    _ => {
                        return Err(Error::ResultNotExpectedType);
                    },
                },
                JobResultKind::DkgSignature => {
                    let p1id = match &job.job_type {
                        JobType::PhaseTwo { phase_one_id, .. } => *phase_one_id,
                        _ => {
                            return Err(Error::ResultNotExpectedType);
                        },
                    };
                    match role {
                        JobRole::Tss(_) => {},
                        _ => {
                            return Err(Error::ResultNotExpectedType);
                        },
                    }
                    let p1key = JobKey { role, id: p1id };
                    match self.known_results.get(&p1key) {
                        None => {
                            return Err(Error::PreviousResultNotFound);
                        },
                        Some(p1) => {
                            if p1.expiry < now {
                                return Err(Error::ResultExpired);
                            }
                            match &p1.participants {
                                None => {
                                    return Err(Error::InvalidJobPhase);
                                },
                                Some(ps) => (copy_accounts(ps), None, job.fee),
                            }
                        },
                    }
                },
                JobResultKind::ZkSaaS => {
                    return Err(Error::ResultNotExpectedType);
                },
            },
        };
        proof {
            assert(participants@ == c->Ok_0.0);
            assert(match stored {
                Some(res) => c->Ok_0.1 == Some(res@),
                None => c->Ok_0.1 is None,
            });
        }
        match verification {
            Err(e) => {
                return Err(e);
            },
            Ok(()) => {},
        }
        let ghost ps = participants@;
        let ghost r0 = self.validator_rewards@;
        let ghost e0 = self.events@;
        let per = fee / participants.len() as u128;
        match stored {
            Some(res) => {
                self.known_results.insert(key, res);
            },
            None => {},
        }
        let mut i: usize = 0;
        while i < participants.len()
            invariant
                i <= ps.len(),
                ps == participants@,
                ps.len() > 0,
                credits_fit(r0, ps, per),
                self.validator_rewards@ == credited(r0, ps.take(i as int), per),
                self.events@ == e0 + rewarded_events(ps.take(i as int), per),
                self.submitted_jobs@ == old(self).submitted_jobs@,
                self.ledger == old(self).ledger,
                self.next_job_id == old(self).next_job_id,
                self.validator_job_id_lookup@ == old(self).validator_job_id_lookup@,
                self.rewards_account == old(self).rewards_account,
                self.max_participants == old(self).max_participants,
                self.known_results@ == match c->Ok_0.1 {
                    Some(res) => old(self).known_results@.insert(key, res),
                    None => old(self).known_results@,
                },
            decreases ps.len() - i,
        {
            let p = participants[i];
            proof {
                lemma_credits_fit_prefix(r0, ps, per, i as int + 1);
                assert(ps.take(i as int + 1).drop_last() =~= ps.take(i as int));
                assert(ps.take(i as int + 1).last() == p);
            }
            self.record_reward_to_validator(p, per);
            self.events.push(JobsEvent::ValidatorRewarded { id: p, reward: per });
            proof {
                assert(rewarded_events(ps.take(i as int + 1), per) =~= rewarded_events(
                    ps.take(i as int),
                    per,
                ).push(JobsEvent::ValidatorRewarded { id: p, reward: per }));
                assert(self.events@ =~= e0 + rewarded_events(ps.take(i as int + 1), per));
            }
            i = i + 1;
        }
        proof {
            assert(ps.take(ps.len() as int) =~= ps);
        }
        self.submitted_jobs.remove(&key);
        self.events.push(JobsEvent::JobResultSubmitted { job_id, role });
        Ok(())
    }
}

} // verus!
