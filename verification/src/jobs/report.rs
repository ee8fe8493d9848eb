//! Reporting an inactive validator of a submitted job: the validator must
//! take part in the job, the report must pass verification, and the
//! validator is then removed from the job.
use super::removal::{events_after, phase_one_id_of, removal, removal_would_panic, JobsState};
use super::rewards::{AccountId, Balance, Error, JobId, Jobs};
use super::submitted::{is_phase_one, participants_of, JobKey, JobRole, JobType};
use vstd::prelude::*;

verus! {

/// Why a report on `validator` for job `job_id` of `role` is refused before
/// it is verified: the job is not stored, a second-phase job's first-phase
/// result is missing, or the validator does not take part in the job.
pub open spec fn report_error(st: JobsState, role: JobRole, job_id: JobId, validator: AccountId) -> Option<Error> {
    let key = JobKey { role, id: job_id };
    let job = st.submitted[key];
    let p1key = JobKey { role, id: phase_one_id_of(job.job_type) };
    if !st.submitted.contains_key(key) {
        Some(Error::JobNotFound)
    } else if is_phase_one(job.job_type) {
        if participants_of(job.job_type).contains(validator) {
            None
        } else {
            Some(Error::JobNotFound)
        }
    } else if !st.known.contains_key(p1key) {
        Some(Error::PhaseOneResultNotFound)
    } else if st.known[p1key].participants matches Some(ps) && ps.contains(validator) {
        None
    } else {
        Some(Error::JobNotFound)
    }
}

/// Whether `a` is in `v`.
fn lists_account(v: &Vec<AccountId>, a: AccountId) -> (r: bool)
    ensures
        r == v@.contains(a),
{
    let mut i: usize = 0;
    while i < v.len()
        invariant
            i <= v@.len(),
            forall|j: int| 0 <= j < i ==> v@[j] != a,
        decreases v@.len() - i,
    {
        if v[i] == a {
            assert(v@[i as int] == a);
            return true;
        }
        i = i + 1;
    }
    false
}

impl Jobs {
    /// Reports `validator` as inactive in job `job_id` of `role`.
    /// `verification` is the outcome of verifying the report's signatures;
    /// `fee` is what the validator pays where the job's first phase is
    /// submitted again. Once the report is accepted, the validator is removed
    /// from the job as `try_validator_removal_from_job` does. On refusal
    /// nothing changes.
    pub fn report_inactive_validator(
        &mut self,
        role: JobRole,
        job_id: JobId,
        validator: AccountId,
        fee: Balance,
        verification: Result<(), Error>,
    ) -> (r: Result<(), Error>)
        requires
            report_error(old(self).removal_state(), role, job_id, validator) is None && verification is Ok
                ==> !removal_would_panic(
                old(self).removal_state(),
                old(self).max_participants,
                role,
                job_id,
                validator,
            ),
        ensures
            match report_error(old(self).removal_state(), role, job_id, validator) {
                Some(e) => r == Err::<(), Error>(e) && final(self).removal_state() == old(
                    self,
                ).removal_state() && final(self).events@ == old(self).events@,
                None => match verification {
                    Err(e) => r == Err::<(), Error>(e) && final(self).removal_state() == old(
                        self,
                    ).removal_state() && final(self).events@ == old(self).events@,
                    Ok(()) => match removal(
                        old(self).removal_state(),
                        old(self).rewards_account,
                        old(self).max_participants,
                        role,
                        job_id,
                        validator,
                        fee,
                    ) {
                        Ok((st, ev)) => r is Ok && final(self).removal_state() == st && events_after(
                            final(self).events@,
                            old(self).events@,
                            role,
                            job_id,
                            ev,
                        ),
                        Err(e) => r == Err::<(), Error>(e) && final(self).removal_state() == old(
                            self,
                        ).removal_state() && final(self).events@ == old(self).events@,
                    },
                },
            },
            final(self).ledger.reserved@ == old(self).ledger.reserved@,
            final(self).validator_rewards@ == old(self).validator_rewards@,
            final(self).validator_job_id_lookup@ == old(self).validator_job_id_lookup@,
            final(self).rewards_account == old(self).rewards_account,
            final(self).max_participants == old(self).max_participants,
    {
        let listed = match self.submitted_jobs.get(&JobKey { role, id: job_id }) {
            None => {
                return Err(Error::JobNotFound);
            },
            Some(info) => match &info.job_type {
                JobType::DkgPhaseOne { participants, .. } => lists_account(participants, validator),
                JobType::ZkSaaSPhaseOne { participants, .. } => lists_account(participants, validator),
                JobType::PhaseTwo { phase_one_id, .. } => match self.known_results.get(
                    &JobKey { role, id: *phase_one_id },
                ) {
                    None => {
                        return Err(Error::PhaseOneResultNotFound);
                    },
                    Some(p1) => match &p1.participants {
                        None => false,
                        Some(ps) => lists_account(ps, validator),
                    },
                },
            },
        };
        if !listed {
            return Err(Error::JobNotFound);
        }
        match verification {
            Err(e) => Err(e),
            Ok(()) => self.try_validator_removal_from_job(role, job_id, validator, fee),
        }
    }
}

} // verus!
