//! Read-only queries of the jobs storage: the jobs a validator works on, a
//! job by its key, the result of a first-phase job, and the next job id.
use super::rewards::{jobs_at, AccountId, JobId, Jobs};
use super::submitted::{JobInfoView, JobKey, JobRole, JobType, JobTypeView, PhaseResult};
use vstd::prelude::*;

verus! {

/// What a query reports of a submitted job.
#[derive(Debug, PartialEq, Eq)]
pub struct RpcResponseJobsData {
    pub job_id: JobId,
    pub job_type: JobType,
    pub ttl: u64,
    pub expiry: u64,
}

/// The abstract value of an [`RpcResponseJobsData`].
pub struct RpcResponseJobsDataView {
    pub job_id: JobId,
    pub job_type: JobTypeView,
    pub ttl: u64,
    pub expiry: u64,
}

impl View for RpcResponseJobsData {
    type V = RpcResponseJobsDataView;

    open spec fn view(&self) -> RpcResponseJobsDataView {
        RpcResponseJobsDataView {
            job_id: self.job_id,
            job_type: self.job_type@,
            ttl: self.ttl,
            expiry: self.expiry,
        }
    }
}

/// What a query reports of job `id`, stored as `info`.
pub open spec fn response_of(id: JobId, info: JobInfoView) -> RpcResponseJobsDataView {
    RpcResponseJobsDataView { job_id: id, job_type: info.job_type, ttl: info.ttl, expiry: info.expiry }
}

/// The reports of the jobs that `entries` names, in order, skipping those
/// that are no longer stored.
pub open spec fn responses(
    entries: Seq<(JobRole, JobId)>,
    submitted: Map<JobKey, JobInfoView>,
) -> Seq<RpcResponseJobsDataView>
    decreases entries.len(),
{
    if entries.len() == 0 {
        Seq::empty()
    } else {
        let prev = responses(entries.drop_last(), submitted);
        let key = JobKey { role: entries.last().0, id: entries.last().1 };
        if submitted.contains_key(key) {
            prev.push(response_of(key.id, submitted[key]))
        } else {
            prev
        }
    }
}

/// The abstract values of a list of reports.
pub open spec fn views_of(v: Seq<RpcResponseJobsData>) -> Seq<RpcResponseJobsDataView> {
    v.map_values(|d: RpcResponseJobsData| d@)
}

impl Jobs {
    /// The submitted jobs that `validator` works on, in the order of its
    /// lookup; jobs that are no longer stored are skipped.
    pub fn query_jobs_by_validator(&self, validator: AccountId) -> (r: Option<Vec<RpcResponseJobsData>>)
        ensures
            r is Some,
            views_of(r->0@) == responses(
                jobs_at(self.validator_job_id_lookup@, validator),
                self.submitted_jobs@,
            ),
    {
        let mut jobs: Vec<RpcResponseJobsData> = Vec::new();
        if let Some(list) = self.validator_job_id_lookup.get(&validator) {
            let ghost entries = list@;
            let mut i: usize = 0;
            while i < list.len()
                invariant
                    i <= entries.len(),
                    entries == list@,
                    entries == jobs_at(self.validator_job_id_lookup@, validator),
                    views_of(jobs@) == responses(entries.take(i as int), self.submitted_jobs@),
                decreases entries.len() - i,
            {
                let (role, id) = list[i];
                proof {
                    assert(entries.take(i as int + 1).drop_last() =~= entries.take(i as int));
                }
                if let Some(info) = self.submitted_jobs.get(&JobKey { role, id }) {
                    jobs.push(
                        RpcResponseJobsData {
                            job_id: id,
                            job_type: info.job_type.copy(),
                            ttl: info.ttl,
                            expiry: info.expiry,
                        },
                    );
                    proof {
                        assert(views_of(jobs@) =~= responses(entries.take(i as int), self.submitted_jobs@).push(
                            response_of(id, self.submitted_jobs@[JobKey { role, id }]),
                        ));
                    }
                }
                i = i + 1;
            }
            proof {
                assert(entries.take(entries.len() as int) =~= entries);
            }
        } else {
            proof {
                assert(views_of(jobs@) =~= Seq::<RpcResponseJobsDataView>::empty());
            }
        }
        Some(jobs)
    }

    /// The submitted job `id` of role `role`, where it is stored.
    pub fn query_job_by_id(&self, role: JobRole, id: JobId) -> (r: Option<RpcResponseJobsData>)
        ensures
            match r {
                Some(d) => self.submitted_jobs@.contains_key(JobKey { role, id }) && d@ == response_of(
                    id,
                    self.submitted_jobs@[JobKey { role, id }],
                ),
                None => !self.submitted_jobs@.contains_key(JobKey { role, id }),
            },
    {
        match self.submitted_jobs.get(&JobKey { role, id }) {
            None => None,
            Some(info) => Some(
                RpcResponseJobsData {
                    job_id: id,
                    job_type: info.job_type.copy(),
                    ttl: info.ttl,
                    expiry: info.expiry,
                },
            ),
        }
    }

    /// The stored result of first-phase job `id` of role `role`, where there
    /// is one.
    pub fn query_job_result(&self, role: JobRole, id: JobId) -> (r: Option<PhaseResult>)
        ensures
            match r {
                Some(p) => self.known_results@.contains_key(JobKey { role, id }) && p@
                    == self.known_results@[JobKey { role, id }],
                None => !self.known_results@.contains_key(JobKey { role, id }),
            },
    {
        match self.known_results.get(&JobKey { role, id }) {
            None => None,
            Some(p) => Some(p.copy()),
        }
    }

    /// The id the next submitted job gets.
    pub fn query_next_job_id(&self) -> (r: JobId)
        ensures
            r == self.next_job_id,
    {
        self.next_job_id
    }
}

} // verus!
