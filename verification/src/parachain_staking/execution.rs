//! Executing a scheduled delegation request once its round is reached: a
//! revocation removes the delegation (and the delegator with its last one),
//! a decrease lowers it; the candidate's counted stake and the staked total
//! go down by the amount.
use super::delegation_requests::{
    action_amount, bond_to, find_request, request_of, requests_at, sat_sub, AccountId, Balance,
    Bond, DelegationAction, DelegationRequests, Delegator, DelegatorView, Error, Event,
    RoundIndex, ScheduledRequest, StakingConfig,
};
use crate::seq_search::{first_match, lemma_first_match};
use vstd::prelude::*;

verus! {

/// `s` without its bonds to `collator`, in order.
pub open spec fn without_bonds_to(s: Seq<Bond>, collator: AccountId) -> Seq<Bond>
    decreases s.len(),
{
    if s.len() == 0 {
        s
    } else if s.last().owner == collator {
        without_bonds_to(s.drop_last(), collator)
    } else {
        without_bonds_to(s.drop_last(), collator).push(s.last())
    }
}

/// The amount of the last bond of `s` to `collator`, if any.
pub open spec fn last_bond_to(s: Seq<Bond>, collator: AccountId) -> Option<Balance>
    decreases s.len(),
{
    if s.len() == 0 {
        None
    } else if s.last().owner == collator {
        Some(s.last().amount)
    } else {
        last_bond_to(s.drop_last(), collator)
    }
}

/// The delegator after removing its delegation to `collator`: the bonds to
/// `collator` go and the total drops by the bond's amount; unchanged where
/// there is no such bond.
pub open spec fn delegation_removed(d: DelegatorView, collator: AccountId) -> DelegatorView {
    match last_bond_to(d.delegations, collator) {
        None => d,
        Some(a) => DelegatorView {
            delegations: without_bonds_to(d.delegations, collator),
            total: (d.total - a) as u128,
            ..d
        },
    }
}

impl Delegator {
    /// Removes the delegation to `collator`, lowering the total by its
    /// amount; returns the new total, or `None` where there was none.
    pub fn rm_delegation(&mut self, collator: AccountId) -> (r: Option<Balance>)
        requires
            last_bond_to(old(self).delegations@, collator) matches Some(a) ==> a <= old(
                self,
            ).total,
        ensures
            final(self)@ == delegation_removed(old(self)@, collator),
            r == match last_bond_to(old(self).delegations@, collator) {
                None => None::<Balance>,
                Some(a) => Some((old(self).total - a) as u128),
            },
    {
        let ghost s = self.delegations@;
        let mut kept: Vec<Bond> = Vec::new();
        let mut amt: Option<Balance> = None;
        let mut i: usize = 0;
        while i < self.delegations.len()
            invariant
                s == self.delegations@,
                i <= s.len(),
                kept@ == without_bonds_to(s.take(i as int), collator),
                amt == last_bond_to(s.take(i as int), collator),
            decreases s.len() - i,
        {
            let b = self.delegations[i];
            proof {
                assert(s.take(i as int + 1).drop_last() =~= s.take(i as int));
                assert(s.take(i as int + 1).last() == b);
            }
            if b.owner == collator {
                amt = Some(b.amount);
            } else {
                kept.push(b);
            }
            i = i + 1;
        }
        proof {
            assert(s.take(s.len() as int) =~= s);
        }
        match amt {
            None => None,
            Some(a) => {
                self.delegations = kept;
                self.total = self.total - a;
                Some(self.total)
            },
        }
    }
}

/// The first bond to `collator`.
fn find_bond(ds: &Vec<Bond>, collator: AccountId) -> (r: Option<usize>)
    ensures
        first_match(ds@, bond_to(collator)) == match r {
            Some(i) => Some(i as int),
            None => None::<int>,
        },
        r is Some ==> r->0 < ds@.len(),
{
    let ghost p = bond_to(collator);
    let mut i: usize = 0;
    while i < ds.len()
        invariant
            p == bond_to(collator),
            i <= ds@.len(),
            forall|j: int| 0 <= j < i ==> !p(#[trigger] ds@[j]),
        decreases ds@.len() - i,
    {
        if ds[i].owner == collator {
            proof {
                lemma_first_match(ds@, p, Some(i as int));
            }
            return Some(i);
        }
        i = i + 1;
    }
    proof {
        lemma_first_match(ds@, p, None);
    }
    None
}

/// The parts of the staking storage that executing a request changes.
pub struct ExecState {
    pub delegators: Map<AccountId, DelegatorView>,
    pub requests: Map<AccountId, Seq<ScheduledRequest<AccountId, Balance>>>,
    pub candidates: Map<AccountId, Balance>,
    pub total: Balance,
}

/// The storage after executing the request of `delegator` towards
/// `collator` at round `round`, with the events it reports, or why that is
/// refused. The request is executable once its round is reached. A
/// revocation needs the delegator to keep the minimum stake unless it is
/// its last delegation, in which case the delegator leaves; a decrease
/// needs the bond to stay above the amount and the delegator's total to
/// stay at the minimums.
pub open spec fn execution(
    st: ExecState,
    cfg: StakingConfig,
    round: RoundIndex,
    collator: AccountId,
    delegator: AccountId,
) -> Result<(ExecState, Seq<Event>), Error> {
    let qs = requests_at(st.requests, collator);
    let d = st.delegators[delegator];
    if !st.delegators.contains_key(delegator) {
        Err(Error::DelegatorDNE)
    } else {
        match first_match(qs, request_of(delegator)) {
            None => Err(Error::PendingDelegationRequestDNE),
            Some(i) => {
                let q = qs[i];
                let a = action_amount(q.action);
                let requests = st.requests.insert(collator, qs.remove(i));
                let d1 = DelegatorView { less_total: sat_sub(d.less_total, a), ..d };
                let candidates = st.candidates.insert(collator, sat_sub(st.candidates[collator], a));
                if q.when_executable > round {
                    Err(Error::PendingDelegationRequestNotDueYet)
                } else if q.action is Revoke {
                    let leaving = d.delegations.len() == 1;
                    if !leaving && sat_sub(d.total, cfg.min_delegator_stk) < a {
                        Err(Error::DelegatorBondBelowMin)
                    } else if !st.candidates.contains_key(collator) {
                        Err(Error::CandidateDNE)
                    } else {
                        let revoked = Event::DelegationRevoked {
                            delegator,
                            candidate: collator,
                            unstaked_amount: a,
                        };
                        Ok(
                            (
                                ExecState {
                                    delegators: if leaving {
                                        st.delegators.remove(delegator)
                                    } else {
                                        st.delegators.insert(
                                            delegator,
                                            delegation_removed(d1, collator),
                                        )
                                    },
                                    requests,
                                    candidates,
                                    total: sat_sub(st.total, a),
                                },
                                if leaving {
                                    seq![
                                        revoked,
                                        Event::DelegatorLeft { delegator, unstaked_amount: a },
                                    ]
                                } else {
                                    seq![revoked]
                                },
                            ),
                        )
                    }
                } else {
                    match first_match(d.delegations, bond_to(collator)) {
                        None => Err(Error::DelegationDNE),
                        Some(j) => {
                            let b = d.delegations[j];
                            let new_total = sat_sub(d.total, a);
                            if !(b.amount > a) {
                                Err(Error::DelegationBelowMin)
                            } else if !st.candidates.contains_key(collator) {
                                Err(Error::CandidateDNE)
                            } else if new_total < cfg.min_delegation {
                                Err(Error::DelegationBelowMin)
                            } else if new_total < cfg.min_delegator_stk {
                                Err(Error::DelegatorBondBelowMin)
                            } else {
                                let d2 = DelegatorView {
                                    delegations: d.delegations.update(
                                        j,
                                        Bond { amount: (b.amount - a) as u128, ..b },
                                    ),
                                    total: new_total,
                                    ..d1
                                };
                                Ok(
                                    (
                                        ExecState {
                                            delegators: st.delegators.insert(delegator, d2),
                                            requests,
                                            candidates,
                                            total: sat_sub(st.total, a),
                                        },
                                        seq![
                                            Event::DelegationDecreased {
                                                delegator,
                                                candidate: collator,
                                                amount: a,
                                            },
                                        ],
                                    ),
                                )
                            }
                        },
                    }
                }
            },
        }
    }
}

/// Where executing would stop the chain: a revocation that removes a bond
/// larger than the delegator's total.
pub open spec fn execution_would_panic(
    st: ExecState,
    cfg: StakingConfig,
    round: RoundIndex,
    collator: AccountId,
    delegator: AccountId,
) -> bool {
    let qs = requests_at(st.requests, collator);
    let d = st.delegators[delegator];
    let i = first_match(qs, request_of(delegator))->0;
    &&& st.delegators.contains_key(delegator)
    &&& first_match(qs, request_of(delegator)) is Some
    &&& qs[i].when_executable <= round
    &&& qs[i].action is Revoke
    &&& (d.delegations.len() == 1 || sat_sub(d.total, cfg.min_delegator_stk) >= action_amount(
        qs[i].action,
    ))
    &&& last_bond_to(d.delegations, collator) matches Some(b) && b > d.total
}

/// A pending request is executable exactly once its round is reached: for
/// a delegator with a request towards `collator`, execution is refused as
/// not due exactly when the request's round lies after `round`.
pub proof fn law_executable_once_due(
    st: ExecState,
    cfg: StakingConfig,
    round: RoundIndex,
    collator: AccountId,
    delegator: AccountId,
)
    requires
        st.delegators.contains_key(delegator),
        first_match(requests_at(st.requests, collator), request_of(delegator)) is Some,
    ensures
        ({
            let qs = requests_at(st.requests, collator);
            let q = qs[first_match(qs, request_of(delegator))->0];
            execution(st, cfg, round, collator, delegator) == Err::<(ExecState, Seq<Event>), Error>(
                Error::PendingDelegationRequestNotDueYet,
            ) <==> q.when_executable > round
        }),
{
}

impl DelegationRequests {
    /// The parts of the storage that executing a request changes.
    pub open spec fn exec_state(&self) -> ExecState {
        ExecState {
            delegators: self.delegator_state@,
            requests: self.scheduled_requests@,
            candidates: self.candidate_totals@,
            total: self.total,
        }
    }

    /// Executes the pending request of `delegator` towards `collator` once
    /// its round is reached; on refusal nothing changes.
    pub fn delegation_execute_scheduled_request(&mut self, collator: AccountId, delegator: AccountId) -> (r:
        Result<(), Error>)
        requires
            !execution_would_panic(
                old(self).exec_state(),
                old(self).config,
                old(self).round,
                collator,
                delegator,
            ),
        ensures
            match execution(
                old(self).exec_state(),
                old(self).config,
                old(self).round,
                collator,
                delegator,
            ) {
                Ok((st, evs)) => r is Ok && final(self).exec_state() == st && final(self).events@
                    == old(self).events@ + evs,
                Err(e) => r == Err::<(), Error>(e) && final(self).exec_state() == old(
                    self,
                ).exec_state() && final(self).events@ == old(self).events@,
            },
            final(self).config == old(self).config,
            final(self).round == old(self).round,
    {
        let ghost st0 = self.exec_state();
        let ghost e0 = self.events@;
        let mut state = match self.delegator_state.get(&delegator) {
            None => {
                return Err(Error::DelegatorDNE);
            },
            Some(s) => s.copy(),
        };
        let ghost d0 = state@;
        let mut requests = self.requests_of(collator);
        let ghost qs = requests@;
        let idx = match find_request(&requests, delegator, false) {
            None => {
                return Err(Error::PendingDelegationRequestDNE);
            },
            Some(i) => i,
        };
        let request = requests[idx];
        if request.when_executable > self.round {
            return Err(Error::PendingDelegationRequestNotDueYet);
        }
        let amount = request.action.amount();
        match request.action {
            DelegationAction::Revoke(_) => {
                let leaving = state.delegations.len() == 1;
                if !leaving && state.total().saturating_sub(self.config.min_delegator_stk) < amount {
                    return Err(Error::DelegatorBondBelowMin);
                }
                requests.remove(idx);
                state.less_total = state.less_total.saturating_sub(amount);
                let ghost d1 = state@;
                let _ = state.rm_delegation(collator);
                let counted = match self.candidate_totals.get(&collator) {
                    None => {
                        return Err(Error::CandidateDNE);
                    },
                    Some(t) => *t,
                };
                self.candidate_totals.insert(collator, counted.saturating_sub(amount));
                self.total = self.total.saturating_sub(amount);
                self.events.push(
                    Event::DelegationRevoked {
                        delegator,
                        candidate: collator,
                        unstaked_amount: amount,
                    },
                );
                self.scheduled_requests.insert(collator, requests);
                if leaving {
                    self.delegator_state.remove(&delegator);
                    self.events.push(Event::DelegatorLeft { delegator, unstaked_amount: amount });
                } else {
                    self.delegator_state.insert(delegator, state);
                }
                proof {
                    assert(d1 == DelegatorView { less_total: sat_sub(d0.less_total, amount), ..d0 });
                    let evs = execution(st0, self.config, self.round, collator, delegator)->Ok_0.1;
                    assert(self.events@ =~= e0 + evs);
                }
                Ok(())
            },
            DelegationAction::Decrease(_) => {
                requests.remove(idx);
                state.less_total = state.less_total.saturating_sub(amount);
                let j = match find_bond(&state.delegations, collator) {
                    None => {
                        return Err(Error::DelegationDNE);
                    },
                    Some(j) => j,
                };
                let b = state.delegations[j];
                if !(b.amount > amount) {
                    return Err(Error::DelegationBelowMin);
                }
                state.delegations.set(j, Bond { amount: b.amount - amount, ..b });
                let counted = match self.candidate_totals.get(&collator) {
                    None => {
                        return Err(Error::CandidateDNE);
                    },
                    Some(t) => *t,
                };
                let new_total = state.total.saturating_sub(amount);
                if new_total < self.config.min_delegation {
                    return Err(Error::DelegationBelowMin);
                }
                if new_total < self.config.min_delegator_stk {
                    return Err(Error::DelegatorBondBelowMin);
                }
                state.total = new_total;
                self.candidate_totals.insert(collator, counted.saturating_sub(amount));
                self.total = self.total.saturating_sub(amount);
                self.scheduled_requests.insert(collator, requests);
                self.delegator_state.insert(delegator, state);
                self.events.push(Event::DelegationDecreased { delegator, candidate: collator, amount });
                proof {
                    let evs = execution(st0, self.config, self.round, collator, delegator)->Ok_0.1;
                    assert(self.events@ =~= e0 + evs);
                }
                Ok(())
            },
        }
    }
}

} // verus!
