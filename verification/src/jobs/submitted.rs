//! Submitted jobs and the results of their first phase, as far as the
//! removal of a validator reads them.
use super::rewards::{AccountId, Balance, JobId};
use crate::keyed_map::{Duplicate, MapKey};
use vstd::prelude::*;

verus! {

/// The role a job runs under: threshold signatures, zero-knowledge proving,
/// or another role; each with the number of its scheme.
#[derive(Clone, Copy, Debug, PartialEq, Eq, Structural)]
pub enum JobRole {
    Tss(u64),
    ZkSaaS(u64),
    Other(u64),
}

/// The key of a stored job or result: its role and its id.
#[derive(Clone, Copy, Debug, PartialEq, Eq)]
pub struct JobKey {
    pub role: JobRole,
    pub id: JobId,
}

impl MapKey for JobKey {
    fn same(&self, other: &Self) -> (r: bool) {
        self.role == other.role && self.id == other.id
    }
}

/// What happens to a job when one of its validators leaves.
#[derive(Clone, Copy, Debug, PartialEq, Eq, Structural)]
pub enum FallbackOptions {
    /// The job is dropped and its fee refunded.
    Destroy,
    /// The job is generated again with the given threshold.
    RegenerateWithThreshold(u8),
}

/// The kind of a job, with what its phase needs.
#[derive(Debug, PartialEq, Eq)]
pub enum JobType {
    /// Key generation for threshold signatures.
    DkgPhaseOne {
        participants: Vec<AccountId>,
        threshold: u8,
        permitted_caller: Option<AccountId>,
        hd_wallet: bool,
    },
    /// Circuit setup for zero-knowledge proving; `system` is the proving system.
    ZkSaaSPhaseOne { participants: Vec<AccountId>, permitted_caller: Option<AccountId>, system: u64 },
    /// A job that uses the result of an earlier job; the threshold is the one
    /// the job type gives, where it gives one.
    PhaseTwo { phase_one_id: JobId, threshold: Option<u8> },
}

/// The abstract value of a [`JobType`].
pub enum JobTypeView {
    DkgPhaseOne {
        participants: Seq<AccountId>,
        threshold: u8,
        permitted_caller: Option<AccountId>,
        hd_wallet: bool,
    },
    ZkSaaSPhaseOne { participants: Seq<AccountId>, permitted_caller: Option<AccountId>, system: u64 },
    PhaseTwo { phase_one_id: JobId, threshold: Option<u8> },
}

impl View for JobType {
    type V = JobTypeView;

    open spec fn view(&self) -> JobTypeView {
        match self {
            JobType::DkgPhaseOne { participants, threshold, permitted_caller, hd_wallet } =>
                JobTypeView::DkgPhaseOne {
                participants: participants@,
                threshold: *threshold,
                permitted_caller: *permitted_caller,
                hd_wallet: *hd_wallet,
            },
            JobType::ZkSaaSPhaseOne { participants, permitted_caller, system } =>
                JobTypeView::ZkSaaSPhaseOne {
                participants: participants@,
                permitted_caller: *permitted_caller,
                system: *system,
            },
            JobType::PhaseTwo { phase_one_id, threshold } => JobTypeView::PhaseTwo {
                phase_one_id: *phase_one_id,
                threshold: *threshold,
            },
        }
    }
}

/// Whether a job is of its first phase.
pub open spec fn is_phase_one(t: JobTypeView) -> bool {
    !(t is PhaseTwo)
}

/// The participants a first-phase job names.
pub open spec fn participants_of(t: JobTypeView) -> Seq<AccountId> {
    match t {
        JobTypeView::DkgPhaseOne { participants, .. } => participants,
        JobTypeView::ZkSaaSPhaseOne { participants, .. } => participants,
        JobTypeView::PhaseTwo { .. } => Seq::empty(),
    }
}

/// A submitted job.
#[derive(Debug, PartialEq, Eq)]
pub struct JobInfo {
    pub owner: AccountId,
    pub expiry: u64,
    pub ttl: u64,
    pub job_type: JobType,
    pub fee: Balance,
    pub fallback: FallbackOptions,
}

/// The abstract value of a [`JobInfo`].
pub struct JobInfoView {
    pub owner: AccountId,
    pub expiry: u64,
    pub ttl: u64,
    pub job_type: JobTypeView,
    pub fee: Balance,
    pub fallback: FallbackOptions,
}

impl View for JobInfo {
    type V = JobInfoView;

    open spec fn view(&self) -> JobInfoView {
        JobInfoView {
            owner: self.owner,
            expiry: self.expiry,
            ttl: self.ttl,
            job_type: self.job_type@,
            fee: self.fee,
            fallback: self.fallback,
        }
    }
}

/// The stored result of a first-phase job: its owner, the block until which
/// it can be used, its participants where the result names them, who may use
/// it, and whether its key is a hierarchical wallet key.
#[derive(Debug, PartialEq, Eq)]
pub struct PhaseResult {
    pub owner: AccountId,
    pub expiry: u64,
    pub participants: Option<Vec<AccountId>>,
    pub permitted_caller: Option<AccountId>,
    pub hd_wallet: bool,
}

/// The abstract value of a [`PhaseResult`].
pub struct PhaseResultView {
    pub owner: AccountId,
    pub expiry: u64,
    pub participants: Option<Seq<AccountId>>,
    pub permitted_caller: Option<AccountId>,
    pub hd_wallet: bool,
}

impl View for PhaseResult {
    type V = PhaseResultView;

    open spec fn view(&self) -> PhaseResultView {
        PhaseResultView {
            owner: self.owner,
            expiry: self.expiry,
            participants: match &self.participants {
                Some(v) => Some(v@),
                None => None,
            },
            permitted_caller: self.permitted_caller,
            hd_wallet: self.hd_wallet,
        }
    }
}

/// What the job calls report.
#[derive(Debug, PartialEq, Eq)]
pub enum JobsEvent {
    JobRefunded { job_id: JobId, role: JobRole },
    JobParticipantsUpdated { job_id: JobId, role: JobRole, details: JobInfo },
    JobReSubmitted { job_id: JobId, role: JobRole, details: JobInfo },
    ValidatorRewarded { id: AccountId, reward: Balance },
    JobSubmitted { job_id: JobId, role: JobRole, details: JobSubmission },
    JobResultSubmitted { job_id: JobId, role: JobRole },
}

/// A job as it is submitted.
#[derive(Debug, PartialEq, Eq)]
pub struct JobSubmission {
    pub expiry: u64,
    pub ttl: u64,
    pub job_type: JobType,
    pub fallback: FallbackOptions,
}

/// The abstract value of a [`JobSubmission`].
pub struct JobSubmissionView {
    pub expiry: u64,
    pub ttl: u64,
    pub job_type: JobTypeView,
    pub fallback: FallbackOptions,
}

impl View for JobSubmission {
    type V = JobSubmissionView;

    open spec fn view(&self) -> JobSubmissionView {
        JobSubmissionView {
            expiry: self.expiry,
            ttl: self.ttl,
            job_type: self.job_type@,
            fallback: self.fallback,
        }
    }
}

impl Duplicate for Vec<(JobRole, JobId)> {
    fn duplicate(&self) -> (r: Vec<(JobRole, JobId)>) {
        let mut r: Vec<(JobRole, JobId)> = Vec::new();
        let mut i: usize = 0;
        while i < self.len()
            invariant
                i <= self@.len(),
                r@ == self@.take(i as int),
            decreases self@.len() - i,
        {
            r.push(self[i]);
            proof {
                assert(self@.take(i as int + 1) =~= self@.take(i as int).push(self@[i as int]));
            }
            i = i + 1;
        }
        proof {
            assert(self@.take(self@.len() as int) =~= self@);
        }
        r
    }
}

/// `s` without the entries equal to `v`, in order.
pub open spec fn without(s: Seq<AccountId>, v: AccountId) -> Seq<AccountId>
    decreases s.len(),
{
    if s.len() == 0 {
        s
    } else if s.last() == v {
        without(s.drop_last(), v)
    } else {
        without(s.drop_last(), v).push(s.last())
    }
}

/// The entries of `s` other than `v`, in order.
pub fn participants_without(s: &Vec<AccountId>, v: AccountId) -> (r: Vec<AccountId>)
    ensures
        r@ == without(s@, v),
{
    let mut r: Vec<AccountId> = Vec::new();
    let mut i: usize = 0;
    while i < s.len()
        invariant
            i <= s@.len(),
            r@ == without(s@.take(i as int), v),
        decreases s@.len() - i,
    {
        proof {
            assert(s@.take(i as int + 1).drop_last() =~= s@.take(i as int));
        }
        if s[i] != v {
            r.push(s[i]);
        }
        i = i + 1;
    }
    proof {
        assert(s@.take(s@.len() as int) =~= s@);
    }
    r
}

/// A copy of a list of accounts.
pub fn copy_accounts(s: &Vec<AccountId>) -> (r: Vec<AccountId>)
    ensures
        r@ == s@,
{
    let mut r: Vec<AccountId> = Vec::new();
    let mut i: usize = 0;
    while i < s.len()
        invariant
            i <= s@.len(),
            r@ == s@.take(i as int),
        decreases s@.len() - i,
    {
        r.push(s[i]);
        proof {
            assert(s@.take(i as int + 1) =~= s@.take(i as int).push(s@[i as int]));
        }
        i = i + 1;
    }
    proof {
        assert(s@.take(s@.len() as int) =~= s@);
    }
    r
}

impl JobType {
    /// A copy of the job type.
    pub fn copy(&self) -> (r: JobType)
        ensures
            r@ == self@,
    {
        match self {
            JobType::DkgPhaseOne { participants, threshold, permitted_caller, hd_wallet } =>
                JobType::DkgPhaseOne {
                participants: copy_accounts(participants),
                threshold: *threshold,
                permitted_caller: *permitted_caller,
                hd_wallet: *hd_wallet,
            },
            JobType::ZkSaaSPhaseOne { participants, permitted_caller, system } =>
                JobType::ZkSaaSPhaseOne {
                participants: copy_accounts(participants),
                permitted_caller: *permitted_caller,
                system: *system,
            },
            JobType::PhaseTwo { phase_one_id, threshold } => JobType::PhaseTwo {
                phase_one_id: *phase_one_id,
                threshold: *threshold,
            },
        }
    }
}

impl JobInfo {
    /// A copy of the job.
    pub fn copy(&self) -> (r: JobInfo)
        ensures
            r@ == self@,
    {
        JobInfo {
            owner: self.owner,
            expiry: self.expiry,
            ttl: self.ttl,
            job_type: self.job_type.copy(),
            fee: self.fee,
            fallback: self.fallback,
        }
    }
}

impl PhaseResult {
    /// A copy of the result.
    pub fn copy(&self) -> (r: PhaseResult)
        ensures
            r@ == self@,
    {
        PhaseResult {
            owner: self.owner,
            expiry: self.expiry,
            participants: match &self.participants {
                Some(v) => Some(copy_accounts(v)),
                None => None,
            },
            permitted_caller: self.permitted_caller,
            hd_wallet: self.hd_wallet,
        }
    }
}

} // verus!
