//! Scheduling, cancelling and looking up delegation requests.
use crate::keyed_map::KeyedMap;
use crate::seq_search::{first_match, lemma_first_match};
use vstd::prelude::*;

verus! {

/// An account.
pub type AccountId = u64;

/// An amount of the native currency.
pub type Balance = u128;

/// A round of the staking system.
pub type RoundIndex = u32;

/// An action that can be performed upon a delegation.
#[derive(Clone, Copy, Debug, PartialEq, Eq)]
pub enum DelegationAction<B> {
    Revoke(B),
    Decrease(B),
}

impl<B: Copy> DelegationAction<B> {
    /// The wrapped amount.
    pub fn amount(&self) -> (r: B)
        ensures
            r == action_amount(*self),
    {
        match self {
            DelegationAction::Revoke(amount) => *amount,
            DelegationAction::Decrease(amount) => *amount,
        }
    }
}

/// The amount of an action.
pub open spec fn action_amount<B>(a: DelegationAction<B>) -> B {
    match a {
        DelegationAction::Revoke(amount) => amount,
        DelegationAction::Decrease(amount) => amount,
    }
}

/// A request that defines a [`DelegationAction`]; executable once the round
/// `when_executable` is reached.
#[derive(Clone, Copy, Debug, PartialEq, Eq)]
pub struct ScheduledRequest<A, B> {
    pub delegator: A,
    pub when_executable: RoundIndex,
    pub action: DelegationAction<B>,
}

/// A cancelled request, as reported in an event.
#[derive(Clone, Copy, Debug, PartialEq, Eq)]
pub struct CancelledScheduledRequest<B> {
    pub when_executable: RoundIndex,
    pub action: DelegationAction<B>,
}

impl<A, B> From<ScheduledRequest<A, B>> for CancelledScheduledRequest<B> {
    fn from(request: ScheduledRequest<A, B>) -> (r: CancelledScheduledRequest<B>) {
        CancelledScheduledRequest {
            when_executable: request.when_executable,
            action: request.action,
        }
    }
}

impl<A, B> vstd::std_specs::convert::FromSpecImpl<ScheduledRequest<A, B>> for CancelledScheduledRequest<B> {
    open spec fn obeys_from_spec() -> bool {
        true
    }

    open spec fn from_spec(request: ScheduledRequest<A, B>) -> CancelledScheduledRequest<B> {
        CancelledScheduledRequest {
            when_executable: request.when_executable,
            action: request.action,
        }
    }
}

/// A bond of a delegator to a collator.
#[derive(Clone, Copy, Debug, PartialEq, Eq)]
pub struct Bond {
    pub owner: AccountId,
    pub amount: Balance,
}

/// The status of a delegator.
#[derive(Clone, Copy, Debug, PartialEq, Eq)]
pub enum DelegatorStatus {
    Active,
    Leaving(RoundIndex),
}

/// A delegator: its bonds, its total and the total of its pending requests.
#[derive(Clone, Debug, PartialEq, Eq)]
pub struct Delegator {
    pub id: AccountId,
    pub delegations: Vec<Bond>,
    pub total: Balance,
    pub less_total: Balance,
    pub status: DelegatorStatus,
}

/// The abstract value of a [`Delegator`].
pub struct DelegatorView {
    pub id: AccountId,
    pub delegations: Seq<Bond>,
    pub total: Balance,
    pub less_total: Balance,
    pub status: DelegatorStatus,
}

impl View for Delegator {
    type V = DelegatorView;

    open spec fn view(&self) -> DelegatorView {
        DelegatorView {
            id: self.id,
            delegations: self.delegations@,
            total: self.total,
            less_total: self.less_total,
            status: self.status,
        }
    }
}

/// The bond to `collator`.
pub open spec fn bond_to(collator: AccountId) -> spec_fn(Bond) -> bool {
    |b: Bond| b.owner == collator
}

/// The amount bonded to `collator`, if any.
pub open spec fn bond_amount(d: DelegatorView, collator: AccountId) -> Option<Balance> {
    match first_match(d.delegations, bond_to(collator)) {
        Some(i) => Some(d.delegations[i].amount),
        None => None,
    }
}

impl Delegator {
    /// The amount bonded to `collator`, if any.
    pub fn get_bond_amount(&self, collator: AccountId) -> (r: Option<Balance>)
        ensures
            r == bond_amount(self@, collator),
    {
        let ghost p = bond_to(collator);
        let mut i: usize = 0;
        while i < self.delegations.len()
            invariant
                p == bond_to(collator),
                i <= self.delegations@.len(),
                forall|j: int| 0 <= j < i ==> !p(#[trigger] self.delegations@[j]),
            decreases self.delegations@.len() - i,
        {
            if self.delegations[i].owner == collator {
                proof {
                    lemma_first_match(self.delegations@, p, Some(i as int));
                }
                return Some(self.delegations[i].amount);
            }
            i = i + 1;
        }
        proof {
            lemma_first_match(self.delegations@, p, None);
        }
        None
    }

    /// A copy of the delegator.
    pub fn copy(&self) -> (r: Delegator)
        ensures
            r@ == self@,
    {
        let mut ds: Vec<Bond> = Vec::new();
        let mut i: usize = 0;
        while i < self.delegations.len()
            invariant
                i <= self.delegations@.len(),
                ds@ == self.delegations@.take(i as int),
            decreases self.delegations@.len() - i,
        {
            ds.push(self.delegations[i]);
            proof {
                assert(self.delegations@.take(i as int + 1) =~= self.delegations@.take(i as int).push(
                    self.delegations@[i as int],
                ));
            }
            i = i + 1;
        }
        proof {
            assert(self.delegations@.take(self.delegations@.len() as int) =~= self.delegations@);
        }
        Delegator {
            id: self.id,
            delegations: ds,
            total: self.total,
            less_total: self.less_total,
            status: self.status,
        }
    }

    /// The delegator's total.
    pub fn total(&self) -> (r: Balance)
        ensures
            r == self.total,
    {
        self.total
    }
}

/// A request of `delegator`.
pub open spec fn request_of(delegator: AccountId) -> spec_fn(ScheduledRequest<AccountId, Balance>) -> bool {
    |r: ScheduledRequest<AccountId, Balance>| r.delegator == delegator
}

/// A revoke request of `delegator`.
pub open spec fn revoke_of(delegator: AccountId) -> spec_fn(ScheduledRequest<AccountId, Balance>) -> bool {
    |r: ScheduledRequest<AccountId, Balance>| r.delegator == delegator && r.action is Revoke
}

/// `a - b`, or zero.
pub open spec fn sat_sub(a: Balance, b: Balance) -> Balance {
    if a >= b {
        (a - b) as u128
    } else {
        0
    }
}

/// `a + b`, saturated.
pub open spec fn sat_add(a: Balance, b: Balance) -> Balance {
    if a + b > u128::MAX {
        u128::MAX
    } else {
        (a + b) as u128
    }
}

/// The first request of `delegator`.
pub(crate) fn find_request(requests: &Vec<ScheduledRequest<AccountId, Balance>>, delegator: AccountId, revoke: bool) -> (r: Option<usize>)
    ensures
        first_match(
            requests@,
            if revoke {
                revoke_of(delegator)
            } else {
                request_of(delegator)
            },
        ) == match r {
            Some(i) => Some(i as int),
            None => None::<int>,
        },
        r is Some ==> r->0 < requests@.len(),
{
    let ghost p = if revoke {
        revoke_of(delegator)
    } else {
        request_of(delegator)
    };
    let mut i: usize = 0;
    while i < requests.len()
        invariant
            p == (if revoke {
                revoke_of(delegator)
            } else {
                request_of(delegator)
            }),
            i <= requests@.len(),
            forall|j: int| 0 <= j < i ==> !p(#[trigger] requests@[j]),
        decreases requests@.len() - i,
    {
        let q = requests[i];
        let hit = q.delegator == delegator && (!revoke || match q.action {
            DelegationAction::Revoke(_) => true,
            DelegationAction::Decrease(_) => false,
        });
        if hit {
            proof {
                lemma_first_match(requests@, p, Some(i as int));
            }
            return Some(i);
        }
        i = i + 1;
    }
    proof {
        lemma_first_match(requests@, p, None);
    }
    None
}

/// Removes the first request of `delegator` and lowers the delegator's
/// pending total by its amount (saturating); returns the request.
pub fn cancel_request_with_state(
    delegator: &AccountId,
    state: &mut Delegator,
    scheduled_requests: &mut Vec<ScheduledRequest<AccountId, Balance>>,
) -> (r: Option<ScheduledRequest<AccountId, Balance>>)
    ensures
        match first_match(old(scheduled_requests)@, request_of(*delegator)) {
            None => r is None && final(scheduled_requests)@ == old(scheduled_requests)@
                && final(state)@ == old(state)@,
            Some(i) => {
                let q = old(scheduled_requests)@[i];
                &&& r == Some(q)
                &&& final(scheduled_requests)@ == old(scheduled_requests)@.remove(i)
                &&& final(state)@ == (DelegatorView {
                    less_total: sat_sub(old(state).less_total, action_amount(q.action)),
                    ..old(state)@
                })
            },
        },
{
    match find_request(scheduled_requests, *delegator, false) {
        None => None,
        Some(idx) => {
            let request = scheduled_requests.remove(idx);
            let amount = request.action.amount();
            state.less_total = state.less_total.saturating_sub(amount);
            Some(request)
        },
    }
}

/// The constants of the staking system that requests depend on.
#[derive(Clone, Copy, Debug, PartialEq, Eq)]
pub struct StakingConfig {
    /// Rounds before a revocation can be executed.
    pub revoke_delegation_delay: RoundIndex,
    /// Rounds before a decrease can be executed.
    pub delegation_bond_less_delay: RoundIndex,
    /// The minimum amount of a delegation.
    pub min_delegation: Balance,
    /// The minimum total stake of a delegator.
    pub min_delegator_stk: Balance,
}

/// Why a request call was refused.
#[derive(Clone, Copy, Debug, PartialEq, Eq)]
pub enum Error {
    DelegatorDNE,
    DelegationDNE,
    PendingDelegationRequestAlreadyExists,
    DelegatorBondBelowMin,
    DelegationBelowMin,
    PendingDelegationRequestDNE,
    PendingDelegationRequestNotDueYet,
    CandidateDNE,
}

/// What the request calls report.
#[derive(Clone, Copy, Debug, PartialEq, Eq)]
pub enum Event {
    DelegationRevocationScheduled {
        round: RoundIndex,
        delegator: AccountId,
        candidate: AccountId,
        scheduled_exit: RoundIndex,
    },
    DelegationDecreaseScheduled {
        delegator: AccountId,
        candidate: AccountId,
        amount_to_decrease: Balance,
        execute_round: RoundIndex,
    },
    CancelledDelegationRequest {
        delegator: AccountId,
        collator: AccountId,
        cancelled_request: CancelledScheduledRequest<Balance>,
    },
    DelegationRevoked { delegator: AccountId, candidate: AccountId, unstaked_amount: Balance },
    DelegatorLeft { delegator: AccountId, unstaked_amount: Balance },
    DelegationDecreased { delegator: AccountId, candidate: AccountId, amount: Balance },
}

/// The storage that delegation requests read and change.
#[derive(Debug)]
pub struct DelegationRequests {
    pub config: StakingConfig,
    /// The current round.
    pub round: RoundIndex,
    /// Delegators by account.
    pub delegator_state: KeyedMap<AccountId, Delegator>,
    /// The scheduled requests towards each collator.
    pub scheduled_requests: KeyedMap<AccountId, Vec<ScheduledRequest<AccountId, Balance>>>,
    /// The stake counted for each candidate.
    pub candidate_totals: KeyedMap<AccountId, Balance>,
    /// The total staked.
    pub total: Balance,
    /// The events deposited so far.
    pub events: Vec<Event>,
}

/// The requests stored towards `collator`; none where nothing is stored.
pub open spec fn requests_at(
    m: Map<AccountId, Seq<ScheduledRequest<AccountId, Balance>>>,
    collator: AccountId,
) -> Seq<ScheduledRequest<AccountId, Balance>> {
    if m.contains_key(collator) {
        m[collator]
    } else {
        Seq::empty()
    }
}

/// `round + delay`, saturated.
pub open spec fn round_after(round: RoundIndex, delay: RoundIndex) -> RoundIndex {
    if round + delay > u32::MAX {
        u32::MAX
    } else {
        (round + delay) as u32
    }
}

/// Why scheduling a decrease is refused, given the delegator and its bond.
pub open spec fn decrease_error(d: DelegatorView, bonded: Balance, amount: Balance, cfg: StakingConfig) -> Option<Error> {
    if !(bonded > amount) {
        Some(Error::DelegatorBondBelowMin)
    } else if bonded - amount < cfg.min_delegation {
        Some(Error::DelegationBelowMin)
    } else if amount > sat_sub(sat_sub(d.total, d.less_total), cfg.min_delegator_stk) {
        Some(Error::DelegatorBondBelowMin)
    } else {
        None
    }
}

impl DelegationRequests {
    /// Empty storage with the given configuration.
    pub fn new(config: StakingConfig) -> (r: DelegationRequests)
        ensures
            r.config == config,
            r.round == 0,
            r.delegator_state@ == Map::<AccountId, DelegatorView>::empty(),
            r.scheduled_requests@ == Map::<
                AccountId,
                Seq<ScheduledRequest<AccountId, Balance>>,
            >::empty(),
            r.candidate_totals@ == Map::<AccountId, Balance>::empty(),
            r.total == 0,
            r.events@ == Seq::<Event>::empty(),
    {
        DelegationRequests {
            config,
            round: 0,
            delegator_state: KeyedMap::new(),
            scheduled_requests: KeyedMap::new(),
            candidate_totals: KeyedMap::new(),
            total: 0,
            events: Vec::new(),
        }
    }

    /// Copies the requests stored towards `collator`.
    pub(crate) fn requests_of(&self, collator: AccountId) -> (r: Vec<ScheduledRequest<AccountId, Balance>>)
        ensures
            r@ == requests_at(self.scheduled_requests@, collator),
    {
        match self.scheduled_requests.get(&collator) {
            None => Vec::new(),
            Some(v) => {
                let mut out: Vec<ScheduledRequest<AccountId, Balance>> = Vec::new();
                let mut i: usize = 0;
                while i < v.len()
                    invariant
                        i <= v@.len(),
                        out@ == v@.take(i as int),
                    decreases v@.len() - i,
                {
                    out.push(v[i]);
                    proof {
                        assert(v@.take(i as int + 1) =~= v@.take(i as int).push(v@[i as int]));
                    }
                    i = i + 1;
                }
                proof {
                    assert(v@.take(v@.len() as int) =~= v@);
                }
                out
            },
        }
    }

    /// Schedules revoking the whole delegation of `delegator` to `collator`.
    pub fn delegation_schedule_revoke(&mut self, collator: AccountId, delegator: AccountId) -> (r:
        Result<(), Error>)
        ensures
            ({
                let states = old(self).delegator_state@;
                let d = states[delegator];
                let qs = requests_at(old(self).scheduled_requests@, collator);
                let when = round_after(old(self).round, old(self).config.revoke_delegation_delay);
                let bonded = bond_amount(d, collator);
                &&& !states.contains_key(delegator) ==> r == Err::<(), Error>(Error::DelegatorDNE)
                &&& states.contains_key(delegator) && first_match(qs, request_of(delegator)) is Some
                    ==> r == Err::<(), Error>(Error::PendingDelegationRequestAlreadyExists)
                &&& states.contains_key(delegator) && first_match(qs, request_of(delegator)) is None
                    && bonded is None ==> r == Err::<(), Error>(Error::DelegationDNE)
                &&& r is Ok <==> states.contains_key(delegator) && first_match(
                    qs,
                    request_of(delegator),
                ) is None && bonded is Some
                &&& r is Err ==> final(self).delegator_state@ == states
                    && final(self).scheduled_requests@ == old(self).scheduled_requests@
                    && final(self).events@ == old(self).events@
                &&& r is Ok ==> {
                    &&& final(self).scheduled_requests@ == old(self).scheduled_requests@.insert(
                        collator,
                        qs.push(
                            ScheduledRequest {
                                delegator,
                                action: DelegationAction::Revoke(bonded->0),
                                when_executable: when,
                            },
                        ),
                    )
                    &&& final(self).delegator_state@ == states.insert(
                        delegator,
                        DelegatorView { less_total: sat_add(d.less_total, bonded->0), ..d },
                    )
                    &&& final(self).events@ == old(self).events@.push(
                        Event::DelegationRevocationScheduled {
                            round: old(self).round,
                            delegator,
                            candidate: collator,
                            scheduled_exit: when,
                        },
                    )
                }
                &&& final(self).config == old(self).config
                &&& final(self).round == old(self).round
                &&& final(self).candidate_totals@ == old(self).candidate_totals@
                &&& final(self).total == old(self).total
            }),
    {
        let mut state = match self.delegator_state.get(&delegator) {
            None => {
                return Err(Error::DelegatorDNE);
            },
            Some(s) => s.copy(),
        };
        let mut requests = self.requests_of(collator);
        if find_request(&requests, delegator, false).is_some() {
            return Err(Error::PendingDelegationRequestAlreadyExists);
        }
        let bonded = match state.get_bond_amount(collator) {
            None => {
                return Err(Error::DelegationDNE);
            },
            Some(b) => b,
        };
        let now = self.round;
        let when = now.saturating_add(self.config.revoke_delegation_delay);
        requests.push(
            ScheduledRequest {
                delegator,
                action: DelegationAction::Revoke(bonded),
                when_executable: when,
            },
        );
        state.less_total = state.less_total.saturating_add(bonded);
        self.scheduled_requests.insert(collator, requests);
        self.delegator_state.insert(delegator, state);
        self.events.push(
            Event::DelegationRevocationScheduled {
                round: now,
                delegator,
                candidate: collator,
                scheduled_exit: when,
            },
        );
        Ok(())
    }
}

impl DelegationRequests {
    /// Schedules decreasing the delegation of `delegator` to `collator` by
    /// `decrease_amount`; what is left of the bond, and of the delegator's
    /// total after its pending requests, must stay above the minimums.
    pub fn delegation_schedule_bond_decrease(
        &mut self,
        collator: AccountId,
        delegator: AccountId,
        decrease_amount: Balance,
    ) -> (r: Result<(), Error>)
        ensures
            ({
                let states = old(self).delegator_state@;
                let d = states[delegator];
                let qs = requests_at(old(self).scheduled_requests@, collator);
                let when = round_after(old(self).round, old(self).config.delegation_bond_less_delay);
                let bonded = bond_amount(d, collator);
                let e = if !states.contains_key(delegator) {
                    Some(Error::DelegatorDNE)
                } else if first_match(qs, request_of(delegator)) is Some {
                    Some(Error::PendingDelegationRequestAlreadyExists)
                } else if bonded is None {
                    Some(Error::DelegationDNE)
                } else {
                    decrease_error(d, bonded->0, decrease_amount, old(self).config)
                };
                &&& e is Some ==> r == Err::<(), Error>(e->0)
                    && final(self).delegator_state@ == states
                    && final(self).scheduled_requests@ == old(self).scheduled_requests@
                    && final(self).events@ == old(self).events@
                &&& e is None ==> {
                    &&& r is Ok
                    &&& final(self).scheduled_requests@ == old(self).scheduled_requests@.insert(
                        collator,
                        qs.push(
                            ScheduledRequest {
                                delegator,
                                action: DelegationAction::Decrease(decrease_amount),
                                when_executable: when,
                            },
                        ),
                    )
                    &&& final(self).delegator_state@ == states.insert(
                        delegator,
                        DelegatorView { less_total: sat_add(d.less_total, decrease_amount), ..d },
                    )
                    &&& final(self).events@ == old(self).events@.push(
                        Event::DelegationDecreaseScheduled {
                            delegator,
                            candidate: collator,
                            amount_to_decrease: decrease_amount,
                            execute_round: when,
                        },
                    )
                }
                &&& final(self).config == old(self).config
                &&& final(self).round == old(self).round
                &&& final(self).candidate_totals@ == old(self).candidate_totals@
                &&& final(self).total == old(self).total
            }),
    {
        let mut state = match self.delegator_state.get(&delegator) {
            None => {
                return Err(Error::DelegatorDNE);
            },
            Some(s) => s.copy(),
        };
        let mut requests = self.requests_of(collator);
        if find_request(&requests, delegator, false).is_some() {
            return Err(Error::PendingDelegationRequestAlreadyExists);
        }
        let bonded = match state.get_bond_amount(collator) {
            None => {
                return Err(Error::DelegationDNE);
            },
            Some(b) => b,
        };
        if !(bonded > decrease_amount) {
            return Err(Error::DelegatorBondBelowMin);
        }
        let new_amount = bonded - decrease_amount;
        if new_amount < self.config.min_delegation {
            return Err(Error::DelegationBelowMin);
        }
        let net_total = state.total().saturating_sub(state.less_total);
        let max_subtracted_amount = net_total.saturating_sub(self.config.min_delegator_stk);
        if decrease_amount > max_subtracted_amount {
            return Err(Error::DelegatorBondBelowMin);
        }
        let now = self.round;
        let when = now.saturating_add(self.config.delegation_bond_less_delay);
        requests.push(
            ScheduledRequest {
                delegator,
                action: DelegationAction::Decrease(decrease_amount),
                when_executable: when,
            },
        );
        state.less_total = state.less_total.saturating_add(decrease_amount);
        self.scheduled_requests.insert(collator, requests);
        self.delegator_state.insert(delegator, state);
        self.events.push(
            Event::DelegationDecreaseScheduled {
                delegator,
                candidate: collator,
                amount_to_decrease: decrease_amount,
                execute_round: when,
            },
        );
        Ok(())
    }

    /// Cancels the pending request of `delegator` towards `collator`.
    pub fn delegation_cancel_request(&mut self, collator: AccountId, delegator: AccountId) -> (r:
        Result<(), Error>)
        ensures
            ({
                let states = old(self).delegator_state@;
                let d = states[delegator];
                let qs = requests_at(old(self).scheduled_requests@, collator);
                let i = first_match(qs, request_of(delegator));
                &&& !states.contains_key(delegator) ==> r == Err::<(), Error>(Error::DelegatorDNE)
                &&& states.contains_key(delegator) && i is None ==> r == Err::<(), Error>(
                    Error::PendingDelegationRequestDNE,
                )
                &&& r is Ok <==> states.contains_key(delegator) && i is Some
                &&& r is Err ==> final(self).delegator_state@ == states
                    && final(self).scheduled_requests@ == old(self).scheduled_requests@
                    && final(self).events@ == old(self).events@
                &&& r is Ok ==> {
                    let q = qs[i->0];
                    &&& final(self).scheduled_requests@ == old(self).scheduled_requests@.insert(
                        collator,
                        qs.remove(i->0),
                    )
                    &&& final(self).delegator_state@ == states.insert(
                        delegator,
                        DelegatorView { less_total: sat_sub(d.less_total, action_amount(q.action)), ..d },
                    )
                    &&& final(self).events@ == old(self).events@.push(
                        Event::CancelledDelegationRequest {
                            delegator,
                            collator,
                            cancelled_request: CancelledScheduledRequest {
                                when_executable: q.when_executable,
                                action: q.action,
                            },
                        },
                    )
                }
                &&& final(self).config == old(self).config
                &&& final(self).round == old(self).round
                &&& final(self).candidate_totals@ == old(self).candidate_totals@
                &&& final(self).total == old(self).total
            }),
    {
        let mut state = match self.delegator_state.get(&delegator) {
            None => {
                return Err(Error::DelegatorDNE);
            },
            Some(s) => s.copy(),
        };
        let mut requests = self.requests_of(collator);
        let request = match cancel_request_with_state(&delegator, &mut state, &mut requests) {
            None => {
                return Err(Error::PendingDelegationRequestDNE);
            },
            Some(q) => q,
        };
        self.scheduled_requests.insert(collator, requests);
        self.delegator_state.insert(delegator, state);
        let cancelled = CancelledScheduledRequest::from(request);
        self.events.push(
            Event::CancelledDelegationRequest { delegator, collator, cancelled_request: cancelled },
        );
        Ok(())
    }

    /// Removes the pending request of `delegator` towards `collator`, if
    /// any, lowering the pending total of `state`; `state` is not stored.
    pub fn delegation_remove_request_with_state(
        &mut self,
        collator: AccountId,
        delegator: AccountId,
        state: &mut Delegator,
    )
        ensures
            ({
                let qs = requests_at(old(self).scheduled_requests@, collator);
                match first_match(qs, request_of(delegator)) {
                    None => final(self).scheduled_requests@ == old(self).scheduled_requests@
                        && final(state)@ == old(state)@,
                    Some(i) => {
                        &&& final(self).scheduled_requests@ == old(
                            self,
                        ).scheduled_requests@.insert(collator, qs.remove(i))
                        &&& final(state)@ == (DelegatorView {
                            less_total: sat_sub(old(state).less_total, action_amount(qs[i].action)),
                            ..old(state)@
                        })
                    },
                }
            }),
            final(self).delegator_state@ == old(self).delegator_state@,
            final(self).events@ == old(self).events@,
            final(self).config == old(self).config,
            final(self).round == old(self).round,
            final(self).candidate_totals@ == old(self).candidate_totals@,
            final(self).total == old(self).total,
    {
        let mut requests = self.requests_of(collator);
        if let Some(idx) = find_request(&requests, delegator, false) {
            let request = requests.remove(idx);
            let amount = request.action.amount();
            state.less_total = state.less_total.saturating_sub(amount);
            self.scheduled_requests.insert(collator, requests);
        }
    }

    /// Whether `delegator` has a pending request towards `collator`.
    pub fn delegation_request_exists(&self, collator: AccountId, delegator: AccountId) -> (r: bool)
        ensures
            r == first_match(requests_at(self.scheduled_requests@, collator), request_of(delegator))
                is Some,
    {
        let requests = self.requests_of(collator);
        find_request(&requests, delegator, false).is_some()
    }

    /// Whether `delegator` has a pending revoke request towards `collator`.
    pub fn delegation_request_revoke_exists(&self, collator: AccountId, delegator: AccountId) -> (r:
        bool)
        ensures
            r == first_match(requests_at(self.scheduled_requests@, collator), revoke_of(delegator))
                is Some,
    {
        let requests = self.requests_of(collator);
        find_request(&requests, delegator, true).is_some()
    }
}

/// Cancelling a request right after scheduling it gives the requests and
/// the delegator's pending total back, where the delegator had no request
/// towards the collator and the pending total did not saturate.
pub proof fn law_schedule_then_cancel(
    qs: Seq<ScheduledRequest<AccountId, Balance>>,
    request: ScheduledRequest<AccountId, Balance>,
    less_total: Balance,
)
    requires
        first_match(qs, request_of(request.delegator)) is None,
        less_total + action_amount(request.action) <= u128::MAX,
    ensures
        first_match(qs.push(request), request_of(request.delegator)) == Some(qs.len() as int),
        qs.push(request).remove(qs.len() as int) == qs,
        sat_sub(sat_add(less_total, action_amount(request.action)), action_amount(request.action))
            == less_total,
{
    let p = request_of(request.delegator);
    let pushed = qs.push(request);
    assert forall|j: int| 0 <= j < qs.len() implies !p(#[trigger] pushed[j]) by {
        assert(pushed[j] == qs[j]);
        if p(qs[j]) {
            crate::multi_asset_delegation::laws::lemma_first_match_found(qs, p, j);
        }
    }
    lemma_first_match(pushed, p, Some(qs.len() as int));
    assert(pushed.remove(qs.len() as int) =~= qs);
}

} // verus!
