//! Operators: joining with a bond, leaving, changing the bond, going offline
//! and online.
use super::pallet::{same_ledger, Error, Event, MultiAssetDelegation};
use super::types::{
    AccountId, Balance, OperatorBondLessRequest, OperatorMetadata, OperatorMetadataView,
    OperatorStatus,
};
use crate::ledger::{bal, Ledger, LedgerError};
use vstd::prelude::*;

verus! {

/// `after` is `before` with `amount` of the free balance of `who` moved to
/// its reserve, and nothing else changed.
pub open spec fn reserved_in(after: Ledger, before: Ledger, who: AccountId, amount: Balance) -> bool {
    &&& after.free@ == before.free@.insert(who, (bal(before.free@, who) - amount) as u128)
    &&& after.reserved@ == before.reserved@.insert(who, (bal(before.reserved@, who) + amount) as u128)
    &&& after.locks@ == before.locks@
    &&& after.assets@ == before.assets@
    &&& after.tokens@ == before.tokens@
}

/// `after` is `before` with up to `amount` of the reserve of `who` returned
/// to its free balance (saturated), and nothing else changed.
pub open spec fn unreserved_in(after: Ledger, before: Ledger, who: AccountId, amount: Balance) -> bool {
    let moved = if amount <= bal(before.reserved@, who) {
        amount as int
    } else {
        bal(before.reserved@, who)
    };
    &&& after.reserved@ == before.reserved@.insert(who, (bal(before.reserved@, who) - moved) as u128)
    &&& after.free@ == before.free@.insert(
        who,
        (if bal(before.free@, who) + moved > u128::MAX {
            u128::MAX as int
        } else {
            bal(before.free@, who) + moved
        }) as u128,
    )
    &&& after.locks@ == before.locks@
    &&& after.assets@ == before.assets@
    &&& after.tokens@ == before.tokens@
}

/// The record of an operator that has just joined with `stake`.
pub open spec fn fresh_operator(stake: Balance) -> OperatorMetadataView {
    OperatorMetadataView {
        stake,
        delegation_count: 0,
        request: None,
        delegations: Seq::empty(),
        status: OperatorStatus::Active,
        blueprint_ids: Seq::empty(),
    }
}

/// `m` with another status.
pub open spec fn with_status(m: OperatorMetadataView, status: OperatorStatus) -> OperatorMetadataView {
    OperatorMetadataView { status, ..m }
}

impl MultiAssetDelegation {
    /// Only the operators, the ledger and the events may differ.
    pub open spec fn keeps_all_but_operators(&self, old: &Self) -> bool {
        &&& self.same_settings(old)
        &&& self.delegators@ == old.delegators@
        &&& self.at_stake@ == old.at_stake@
    }

    /// Replaces the status of an existing operator.
    fn set_operator_status(&mut self, who: AccountId, status: OperatorStatus)
        requires
            old(self).operators@.contains_key(who),
        ensures
            final(self).operators@ == old(self).operators@.insert(
                who,
                with_status(old(self).operators@[who], status),
            ),
            final(self).keeps_all_but_operators(old(self)),
            same_ledger(final(self).ledger, old(self).ledger),
            final(self).events@ == old(self).events@,
    {
        let mut m = self.operators.remove(&who).unwrap();
        m.status = status;
        self.operators.insert(who, m);
        proof {
            assert(self.operators@ =~= old(self).operators@.insert(
                who,
                with_status(old(self).operators@[who], status),
            ));
        }
    }

    /// Registers `who` as an operator, reserving `bond_amount` of its balance.
    pub fn handle_deposit_and_create_operator(&mut self, who: AccountId, bond_amount: Balance) -> (r:
        Result<(), Error>)
        ensures
            r == Err::<(), Error>(Error::AlreadyOperator) <==> old(self).operators@.contains_key(
                who,
            ),
            r == Err::<(), Error>(Error::BondTooLow) <==> !old(self).operators@.contains_key(who)
                && bond_amount < old(self).config.min_operator_bond_amount,
            r == Err::<(), Error>(Error::Balances(LedgerError::InsufficientBalance)) <==> !old(
                self,
            ).operators@.contains_key(who) && bond_amount >= old(
                self,
            ).config.min_operator_bond_amount && bal(old(self).ledger.free@, who) < bond_amount,
            r is Ok <==> !old(self).operators@.contains_key(who) && bond_amount >= old(
                self,
            ).config.min_operator_bond_amount && bal(old(self).ledger.free@, who) >= bond_amount
                && bal(old(self).ledger.reserved@, who) + bond_amount <= u128::MAX,
            r is Err ==> final(self).same_state(old(self)),
            r is Ok ==> {
                &&& final(self).operators@ == old(self).operators@.insert(
                    who,
                    fresh_operator(bond_amount),
                )
                &&& final(self).ledger.free@ == old(self).ledger.free@.insert(
                    who,
                    (bal(old(self).ledger.free@, who) - bond_amount) as u128,
                )
                &&& final(self).ledger.reserved@ == old(self).ledger.reserved@.insert(
                    who,
                    (bal(old(self).ledger.reserved@, who) + bond_amount) as u128,
                )
                &&& final(self).ledger.locks@ == old(self).ledger.locks@
                &&& final(self).ledger.assets@ == old(self).ledger.assets@
                &&& final(self).ledger.tokens@ == old(self).ledger.tokens@
                &&& final(self).keeps_all_but_operators(old(self))
                &&& final(self).events@ == old(self).events@
            },
    {
        if self.operators.contains_key(&who) {
            return Err(Error::AlreadyOperator);
        }
        if bond_amount < self.config.min_operator_bond_amount {
            return Err(Error::BondTooLow);
        }
        match self.ledger.reserve(who, bond_amount) {
            Err(e) => {
                return Err(Error::Balances(e));
            },
            Ok(()) => {},
        }
        self.operators.insert(who, OperatorMetadata::new_with_stake(bond_amount));
        Ok(())
    }

    /// `join_operators`: registers `who` as an operator with `bond_amount`
    /// and reports `OperatorJoined`.
    pub fn join_operators(&mut self, who: AccountId, bond_amount: Balance) -> (r: Result<(), Error>)
        ensures
            r == Err::<(), Error>(Error::AlreadyOperator) <==> old(self).operators@.contains_key(
                who,
            ),
            r == Err::<(), Error>(Error::BondTooLow) <==> !old(self).operators@.contains_key(who)
                && bond_amount < old(self).config.min_operator_bond_amount,
            r == Err::<(), Error>(Error::Balances(LedgerError::InsufficientBalance)) <==> !old(
                self,
            ).operators@.contains_key(who) && bond_amount >= old(
                self,
            ).config.min_operator_bond_amount && bal(old(self).ledger.free@, who) < bond_amount,
            r is Ok <==> !old(self).operators@.contains_key(who) && bond_amount >= old(
                self,
            ).config.min_operator_bond_amount && bal(old(self).ledger.free@, who) >= bond_amount
                && bal(old(self).ledger.reserved@, who) + bond_amount <= u128::MAX,
            r is Err ==> final(self).same_state(old(self)),
            r is Ok ==> {
                &&& final(self).operators@ == old(self).operators@.insert(
                    who,
                    fresh_operator(bond_amount),
                )
                &&& reserved_in(final(self).ledger, old(self).ledger, who, bond_amount)
                &&& final(self).keeps_all_but_operators(old(self))
                &&& final(self).events@ == old(self).events@.push(Event::OperatorJoined { who })
            },
    {
        self.handle_deposit_and_create_operator(who, bond_amount)?;
        self.deposit_event(Event::OperatorJoined { who });
        Ok(())
    }

    /// Schedules operator `who` to leave after the leave delay. `can_exit` is
    /// the service manager's answer to whether `who` may exit.
    pub fn process_leave_operator(&mut self, who: AccountId, can_exit: bool) -> (r: Result<(), Error>)
        requires
            old(self).current_round + old(self).config.leave_operators_delay <= u32::MAX,
        ensures
            r == Err::<(), Error>(Error::NotAnOperator) <==> !old(self).operators@.contains_key(
                who,
            ),
            r == Err::<(), Error>(Error::AlreadyLeaving) <==> old(self).operators@.contains_key(who)
                && old(self).operators@[who].status is Leaving,
            r == Err::<(), Error>(Error::CannotExit) <==> old(self).operators@.contains_key(who)
                && !(old(self).operators@[who].status is Leaving) && !can_exit,
            r is Ok <==> old(self).operators@.contains_key(who) && !(
            old(self).operators@[who].status is Leaving) && can_exit,
            r is Err ==> final(self).same_state(old(self)),
            r is Ok ==> {
                &&& final(self).operators@ == old(self).operators@.insert(
                    who,
                    with_status(
                        old(self).operators@[who],
                        OperatorStatus::Leaving(
                            (old(self).current_round + old(self).config.leave_operators_delay) as u32,
                        ),
                    ),
                )
                &&& final(self).keeps_all_but_operators(old(self))
                &&& same_ledger(final(self).ledger, old(self).ledger)
                &&& final(self).events@ == old(self).events@
            },
    {
        match self.operators.get(&who) {
            None => {
                return Err(Error::NotAnOperator);
            },
            Some(m) => {
                if let OperatorStatus::Leaving(_) = m.status {
                    return Err(Error::AlreadyLeaving);
                }
            },
        }
        if !can_exit {
            return Err(Error::CannotExit);
        }
        let leaving_time = self.current_round + self.config.leave_operators_delay;
        self.set_operator_status(who, OperatorStatus::Leaving(leaving_time));
        Ok(())
    }

    /// `schedule_leave_operators`: schedules `who` to leave and reports it.
    pub fn schedule_leave_operators(&mut self, who: AccountId, can_exit: bool) -> (r: Result<
        (),
        Error,
    >)
        requires
            old(self).current_round + old(self).config.leave_operators_delay <= u32::MAX,
        ensures
            r == Err::<(), Error>(Error::NotAnOperator) <==> !old(self).operators@.contains_key(
                who,
            ),
            r == Err::<(), Error>(Error::AlreadyLeaving) <==> old(self).operators@.contains_key(who)
                && old(self).operators@[who].status is Leaving,
            r == Err::<(), Error>(Error::CannotExit) <==> old(self).operators@.contains_key(who)
                && !(old(self).operators@[who].status is Leaving) && !can_exit,
            r is Ok <==> old(self).operators@.contains_key(who) && !(old(self).operators@[who].status is Leaving) && can_exit,
            r is Err ==> final(self).same_state(old(self)),
            r is Ok ==> {
                &&& final(self).operators@ == old(self).operators@.insert(
                    who,
                    with_status(
                        old(self).operators@[who],
                        OperatorStatus::Leaving(
                            (old(self).current_round + old(self).config.leave_operators_delay) as u32,
                        ),
                    ),
                )
                &&& final(self).keeps_all_but_operators(old(self))
                &&& same_ledger(final(self).ledger, old(self).ledger)
                &&& final(self).events@ == old(self).events@.push(
                    Event::OperatorLeavingScheduled { who },
                )
            },
    {
        self.process_leave_operator(who, can_exit)?;
        self.deposit_event(Event::OperatorLeavingScheduled { who });
        Ok(())
    }

    /// Cancels the scheduled leave of operator `who`.
    pub fn process_cancel_leave_operator(&mut self, who: AccountId) -> (r: Result<(), Error>)
        ensures
            r == Err::<(), Error>(Error::NotAnOperator) <==> !old(self).operators@.contains_key(
                who,
            ),
            r == Err::<(), Error>(Error::NotLeavingOperator) <==> old(self).operators@.contains_key(
                who,
            ) && !(old(self).operators@[who].status is Leaving),
            r is Ok <==> old(self).operators@.contains_key(who) && old(self).operators@[who].status is Leaving,
            r is Err ==> final(self).same_state(old(self)),
            r is Ok ==> {
                &&& final(self).operators@ == old(self).operators@.insert(
                    who,
                    with_status(old(self).operators@[who], OperatorStatus::Active),
                )
                &&& final(self).keeps_all_but_operators(old(self))
                &&& same_ledger(final(self).ledger, old(self).ledger)
                &&& final(self).events@ == old(self).events@
            },
    {
        match self.operators.get(&who) {
            None => {
                return Err(Error::NotAnOperator);
            },
            Some(m) => {
                match m.status {
                    OperatorStatus::Leaving(_) => {},
                    _ => {
                        return Err(Error::NotLeavingOperator);
                    },
                }
            },
        }
        self.set_operator_status(who, OperatorStatus::Active);
        Ok(())
    }

    /// `cancel_leave_operators`: cancels the scheduled leave and reports it.
    pub fn cancel_leave_operators(&mut self, who: AccountId) -> (r: Result<(), Error>)
        ensures
            r == Err::<(), Error>(Error::NotAnOperator) <==> !old(self).operators@.contains_key(
                who,
            ),
            r == Err::<(), Error>(Error::NotLeavingOperator) <==> old(self).operators@.contains_key(
                who,
            ) && !(old(self).operators@[who].status is Leaving),
            r is Ok <==> old(self).operators@.contains_key(who) && old(self).operators@[who].status is Leaving,
            r is Err ==> final(self).same_state(old(self)),
            r is Ok ==> {
                &&& final(self).operators@ == old(self).operators@.insert(
                    who,
                    with_status(old(self).operators@[who], OperatorStatus::Active),
                )
                &&& final(self).keeps_all_but_operators(old(self))
                &&& same_ledger(final(self).ledger, old(self).ledger)
                &&& final(self).events@ == old(self).events@.push(
                    Event::OperatorLeaveCancelled { who },
                )
            },
    {
        self.process_cancel_leave_operator(who)?;
        self.deposit_event(Event::OperatorLeaveCancelled { who });
        Ok(())
    }

    /// Removes operator `who` once its leaving round is reached, returning its
    /// self-stake from reserve.
    pub fn process_execute_leave_operators(&mut self, who: AccountId) -> (r: Result<(), Error>)
        ensures
            r == Err::<(), Error>(Error::NotAnOperator) <==> !old(self).operators@.contains_key(
                who,
            ),
            r == Err::<(), Error>(Error::NotLeavingOperator) <==> old(self).operators@.contains_key(
                who,
            ) && !(old(self).operators@[who].status is Leaving),
            r == Err::<(), Error>(Error::LeavingRoundNotReached) <==> old(
                self,
            ).operators@.contains_key(who) && (old(self).operators@[who].status is Leaving) && old(
                self,
            ).current_round < old(self).operators@[who].status->Leaving_0,
            r is Ok <==> old(self).operators@.contains_key(who) && old(self).operators@[who].status is Leaving
                && old(self).current_round >= old(self).operators@[who].status->Leaving_0,
            r is Err ==> final(self).same_state(old(self)),
            r is Ok ==> {
                let stake = old(self).operators@[who].stake;
                let moved = if stake <= bal(old(self).ledger.reserved@, who) {
                    stake as int
                } else {
                    bal(old(self).ledger.reserved@, who)
                };
                &&& final(self).operators@ == old(self).operators@.remove(who)
                &&& final(self).ledger.reserved@ == old(self).ledger.reserved@.insert(
                    who,
                    (bal(old(self).ledger.reserved@, who) - moved) as u128,
                )
                &&& final(self).ledger.free@ == old(self).ledger.free@.insert(
                    who,
                    (if bal(old(self).ledger.free@, who) + moved > u128::MAX {
                        u128::MAX as int
                    } else {
                        bal(old(self).ledger.free@, who) + moved
                    }) as u128,
                )
                &&& final(self).ledger.locks@ == old(self).ledger.locks@
                &&& final(self).ledger.assets@ == old(self).ledger.assets@
                &&& final(self).ledger.tokens@ == old(self).ledger.tokens@
                &&& final(self).keeps_all_but_operators(old(self))
                &&& final(self).events@ == old(self).events@
            },
    {
        let stake = match self.operators.get(&who) {
            None => {
                return Err(Error::NotAnOperator);
            },
            Some(m) => {
                match m.status {
                    OperatorStatus::Leaving(leaving_round) => {
                        if self.current_round < leaving_round {
                            return Err(Error::LeavingRoundNotReached);
                        }
                    },
                    _ => {
                        return Err(Error::NotLeavingOperator);
                    },
                }
                m.stake
            },
        };
        self.ledger.unreserve(who, stake);
        self.operators.remove(&who);
        Ok(())
    }

    /// `execute_leave_operators`: removes the leaving operator and reports it.
    pub fn execute_leave_operators(&mut self, who: AccountId) -> (r: Result<(), Error>)
        ensures
            r == Err::<(), Error>(Error::NotAnOperator) <==> !old(self).operators@.contains_key(
                who,
            ),
            r == Err::<(), Error>(Error::NotLeavingOperator) <==> old(self).operators@.contains_key(
                who,
            ) && !(old(self).operators@[who].status is Leaving),
            r == Err::<(), Error>(Error::LeavingRoundNotReached) <==> old(
                self,
            ).operators@.contains_key(who) && (old(self).operators@[who].status is Leaving) && old(
                self,
            ).current_round < old(self).operators@[who].status->Leaving_0,
            r is Ok <==> old(self).operators@.contains_key(who) && old(self).operators@[who].status is Leaving
                && old(self).current_round >= old(self).operators@[who].status->Leaving_0,
            r is Err ==> final(self).same_state(old(self)),
            r is Ok ==> final(self).operators@ == old(self).operators@.remove(who)
                && unreserved_in(final(self).ledger, old(self).ledger, who, old(self).operators@[who].stake)
                && final(self).keeps_all_but_operators(old(self)) && final(self).events@ == old(
                self,
            ).events@.push(Event::OperatorLeaveExecuted { who }),
    {
        self.process_execute_leave_operators(who)?;
        self.deposit_event(Event::OperatorLeaveExecuted { who });
        Ok(())
    }

    /// Adds `additional_bond` to the self-stake of operator `who`, reserving it.
    pub fn process_operator_bond_more(&mut self, who: AccountId, additional_bond: Balance) -> (r:
        Result<(), Error>)
        ensures
            r == Err::<(), Error>(Error::NotAnOperator) <==> !old(self).operators@.contains_key(
                who,
            ),
            r == Err::<(), Error>(Error::Balances(LedgerError::InsufficientBalance)) <==> old(
                self,
            ).operators@.contains_key(who) && bal(old(self).ledger.free@, who) < additional_bond,
            r == Err::<(), Error>(Error::StakeOverflow) <==> old(self).operators@.contains_key(who)
                && bal(old(self).ledger.free@, who) >= additional_bond && bal(
                old(self).ledger.reserved@,
                who,
            ) + additional_bond <= u128::MAX && old(self).operators@[who].stake + additional_bond
                > u128::MAX,
            r is Ok <==> old(self).operators@.contains_key(who) && bal(old(self).ledger.free@, who)
                >= additional_bond && bal(old(self).ledger.reserved@, who) + additional_bond
                <= u128::MAX && old(self).operators@[who].stake + additional_bond <= u128::MAX,
            r is Err ==> final(self).same_state(old(self)),
            r is Ok ==> {
                let m = old(self).operators@[who];
                &&& final(self).operators@ == old(self).operators@.insert(
                    who,
                    OperatorMetadataView { stake: (m.stake + additional_bond) as u128, ..m },
                )
                &&& final(self).ledger.free@ == old(self).ledger.free@.insert(
                    who,
                    (bal(old(self).ledger.free@, who) - additional_bond) as u128,
                )
                &&& final(self).ledger.reserved@ == old(self).ledger.reserved@.insert(
                    who,
                    (bal(old(self).ledger.reserved@, who) + additional_bond) as u128,
                )
                &&& final(self).ledger.locks@ == old(self).ledger.locks@
                &&& final(self).ledger.assets@ == old(self).ledger.assets@
                &&& final(self).ledger.tokens@ == old(self).ledger.tokens@
                &&& final(self).keeps_all_but_operators(old(self))
                &&& final(self).events@ == old(self).events@
            },
    {
        let stake = match self.operators.get(&who) {
            None => {
                return Err(Error::NotAnOperator);
            },
            Some(m) => m.stake,
        };
        let free = self.ledger.free_balance(who);
        if free < additional_bond {
            return Err(Error::Balances(LedgerError::InsufficientBalance));
        }
        let reserved = self.ledger.reserved_balance(who);
        if reserved > u128::MAX - additional_bond {
            return Err(Error::Balances(LedgerError::Overflow));
        }
        if stake > u128::MAX - additional_bond {
            return Err(Error::StakeOverflow);
        }
        let _ = self.ledger.reserve(who, additional_bond);
        let mut m = self.operators.remove(&who).unwrap();
        m.stake = stake + additional_bond;
        self.operators.insert(who, m);
        proof {
            let om = old(self).operators@[who];
            assert(self.operators@ =~= old(self).operators@.insert(
                who,
                OperatorMetadataView { stake: (om.stake + additional_bond) as u128, ..om },
            ));
        }
        Ok(())
    }

    /// `operator_bond_more`: adds to the operator's bond and reports it.
    pub fn operator_bond_more(&mut self, who: AccountId, additional_bond: Balance) -> (r: Result<
        (),
        Error,
    >)
        ensures
            r == Err::<(), Error>(Error::NotAnOperator) <==> !old(self).operators@.contains_key(
                who,
            ),
            r == Err::<(), Error>(Error::Balances(LedgerError::InsufficientBalance)) <==> old(
                self,
            ).operators@.contains_key(who) && bal(old(self).ledger.free@, who) < additional_bond,
            r is Ok <==> old(self).operators@.contains_key(who) && bal(old(self).ledger.free@, who)
                >= additional_bond && bal(old(self).ledger.reserved@, who) + additional_bond
                <= u128::MAX && old(self).operators@[who].stake + additional_bond <= u128::MAX,
            r is Err ==> final(self).same_state(old(self)),
            r is Ok ==> {
                let m = old(self).operators@[who];
                &&& final(self).operators@ == old(self).operators@.insert(
                    who,
                    OperatorMetadataView { stake: (m.stake + additional_bond) as u128, ..m },
                )
                &&& reserved_in(final(self).ledger, old(self).ledger, who, additional_bond)
                &&& final(self).keeps_all_but_operators(old(self))
                &&& final(self).events@ == old(self).events@.push(
                    Event::OperatorBondMore { who, additional_bond },
                )
            },
    {
        self.process_operator_bond_more(who, additional_bond)?;
        self.deposit_event(Event::OperatorBondMore { who, additional_bond });
        Ok(())
    }

    /// Schedules a decrease of the self-stake of operator `who` by
    /// `unstake_amount`. `can_exit` is the service manager's answer to
    /// whether `who` may exit.
    pub fn process_schedule_operator_unstake(
        &mut self,
        who: AccountId,
        unstake_amount: Balance,
        can_exit: bool,
    ) -> (r: Result<(), Error>)
        ensures
            ({
                let ops = old(self).operators@;
                let min = old(self).config.min_operator_bond_amount;
                &&& r == Err::<(), Error>(Error::NotAnOperator) <==> !ops.contains_key(who)
                &&& r == Err::<(), Error>(Error::CannotExit) <==> ops.contains_key(who) && !can_exit
                &&& r == Err::<(), Error>(Error::PendingUnstakeRequestExists) <==> ops.contains_key(
                    who,
                ) && can_exit && ops[who].request is Some
                &&& r == Err::<(), Error>(Error::InsufficientBalance) <==> ops.contains_key(who)
                    && can_exit && ops[who].request is None && unstake_amount > ops[who].stake
                &&& r == Err::<(), Error>(Error::InsufficientStakeRemaining) <==> ops.contains_key(
                    who,
                ) && can_exit && ops[who].request is None && unstake_amount <= ops[who].stake
                    && ops[who].stake - unstake_amount < min
                &&& r is Ok <==> ops.contains_key(who) && can_exit && ops[who].request is None
                    && unstake_amount <= ops[who].stake && ops[who].stake - unstake_amount >= min
            }),
            r is Err ==> final(self).same_state(old(self)),
            r is Ok ==> {
                let m = old(self).operators@[who];
                &&& final(self).operators@ == old(self).operators@.insert(
                    who,
                    OperatorMetadataView {
                        request: Some(
                            OperatorBondLessRequest {
                                amount: unstake_amount,
                                request_time: old(self).current_round,
                            },
                        ),
                        ..m
                    },
                )
                &&& final(self).keeps_all_but_operators(old(self))
                &&& same_ledger(final(self).ledger, old(self).ledger)
                &&& final(self).events@ == old(self).events@
            },
    {
        let (stake, has_request) = match self.operators.get(&who) {
            None => {
                return Err(Error::NotAnOperator);
            },
            Some(m) => (m.stake, m.request.is_some()),
        };
        if !can_exit {
            return Err(Error::CannotExit);
        }
        if has_request {
            return Err(Error::PendingUnstakeRequestExists);
        }
        if unstake_amount > stake {
            return Err(Error::InsufficientBalance);
        }
        if stake - unstake_amount < self.config.min_operator_bond_amount {
            return Err(Error::InsufficientStakeRemaining);
        }
        let mut m = self.operators.remove(&who).unwrap();
        m.request = Some(
            OperatorBondLessRequest { amount: unstake_amount, request_time: self.current_round },
        );
        self.operators.insert(who, m);
        proof {
            let om = old(self).operators@[who];
            assert(self.operators@ =~= old(self).operators@.insert(
                who,
                OperatorMetadataView {
                    request: Some(
                        OperatorBondLessRequest {
                            amount: unstake_amount,
                            request_time: old(self).current_round,
                        },
                    ),
                    ..om
                },
            ));
        }
        Ok(())
    }

    /// `schedule_operator_unstake`: schedules the decrease and reports it.
    pub fn schedule_operator_unstake(&mut self, who: AccountId, unstake_amount: Balance, can_exit: bool) -> (r:
        Result<(), Error>)
        ensures
            r is Err ==> final(self).same_state(old(self)),
            r is Ok <==> old(self).operators@.contains_key(who) && can_exit
                && old(self).operators@[who].request is None && unstake_amount <= old(
                self,
            ).operators@[who].stake && old(self).operators@[who].stake - unstake_amount >= old(
                self,
            ).config.min_operator_bond_amount,
            r is Ok ==> {
                let m = old(self).operators@[who];
                &&& final(self).operators@ == old(self).operators@.insert(
                    who,
                    OperatorMetadataView {
                        request: Some(
                            OperatorBondLessRequest {
                                amount: unstake_amount,
                                request_time: old(self).current_round,
                            },
                        ),
                        ..m
                    },
                )
                &&& final(self).keeps_all_but_operators(old(self))
                &&& same_ledger(final(self).ledger, old(self).ledger)
                &&& final(self).events@ == old(self).events@.push(
                    Event::OperatorBondLessScheduled { who, unstake_amount },
                )
            },
    {
        self.process_schedule_operator_unstake(who, unstake_amount, can_exit)?;
        self.deposit_event(Event::OperatorBondLessScheduled { who, unstake_amount });
        Ok(())
    }

    /// Executes the scheduled stake decrease of operator `who` once the delay
    /// has passed, returning the amount from reserve.
    pub fn process_execute_operator_unstake(&mut self, who: AccountId) -> (r: Result<(), Error>)
        ensures
            ({
                let ops = old(self).operators@;
                let ready = ops.contains_key(who) && ops[who].request is Some && old(
                    self,
                ).current_round >= old(self).config.operator_bond_less_delay
                    + ops[who].request->0.request_time;
                &&& r == Err::<(), Error>(Error::NotAnOperator) <==> !ops.contains_key(who)
                &&& r == Err::<(), Error>(Error::NoScheduledBondLess) <==> ops.contains_key(who)
                    && ops[who].request is None
                &&& r == Err::<(), Error>(Error::BondLessRequestNotSatisfied) <==> ops.contains_key(
                    who,
                ) && ops[who].request is Some && !ready
                &&& r == Err::<(), Error>(Error::InsufficientStakeRemaining) <==> ready
                    && ops[who].request->0.amount > ops[who].stake
                &&& r is Ok <==> ready && ops[who].request->0.amount <= ops[who].stake
            }),
            r is Err ==> final(self).same_state(old(self)),
            r is Ok ==> {
                let m = old(self).operators@[who];
                let amount = m.request->0.amount;
                let moved = if amount <= bal(old(self).ledger.reserved@, who) {
                    amount as int
                } else {
                    bal(old(self).ledger.reserved@, who)
                };
                &&& final(self).operators@ == old(self).operators@.insert(
                    who,
                    OperatorMetadataView { stake: (m.stake - amount) as u128, request: None, ..m },
                )
                &&& final(self).ledger.reserved@ == old(self).ledger.reserved@.insert(
                    who,
                    (bal(old(self).ledger.reserved@, who) - moved) as u128,
                )
                &&& final(self).ledger.free@ == old(self).ledger.free@.insert(
                    who,
                    (if bal(old(self).ledger.free@, who) + moved > u128::MAX {
                        u128::MAX as int
                    } else {
                        bal(old(self).ledger.free@, who) + moved
                    }) as u128,
                )
                &&& final(self).ledger.locks@ == old(self).ledger.locks@
                &&& final(self).ledger.assets@ == old(self).ledger.assets@
                &&& final(self).ledger.tokens@ == old(self).ledger.tokens@
                &&& final(self).keeps_all_but_operators(old(self))
                &&& final(self).events@ == old(self).events@
            },
    {
        let (stake, request) = match self.operators.get(&who) {
            None => {
                return Err(Error::NotAnOperator);
            },
            Some(m) => (m.stake, m.request),
        };
        let request = match request {
            None => {
                return Err(Error::NoScheduledBondLess);
            },
            Some(q) => q,
        };
        if (self.current_round as u64) < (self.config.operator_bond_less_delay as u64)
            + (request.request_time as u64) {
            return Err(Error::BondLessRequestNotSatisfied);
        }
        if request.amount > stake {
            return Err(Error::InsufficientStakeRemaining);
        }
        self.ledger.unreserve(who, request.amount);
        let mut m = self.operators.remove(&who).unwrap();
        m.stake = stake - request.amount;
        m.request = None;
        self.operators.insert(who, m);
        proof {
            let om = old(self).operators@[who];
            assert(self.operators@ =~= old(self).operators@.insert(
                who,
                OperatorMetadataView {
                    stake: (om.stake - request.amount) as u128,
                    request: None,
                    ..om
                },
            ));
        }
        Ok(())
    }

    /// `execute_operator_unstake`: executes the decrease and reports it.
    pub fn execute_operator_unstake(&mut self, who: AccountId) -> (r: Result<(), Error>)
        ensures
            r is Err ==> final(self).same_state(old(self)),
            r is Ok <==> old(self).operators@.contains_key(who) && old(
                self,
            ).operators@[who].request is Some && old(self).current_round >= old(
                self,
            ).config.operator_bond_less_delay + old(self).operators@[who].request->0.request_time
                && old(self).operators@[who].request->0.amount <= old(self).operators@[who].stake,
            r is Ok ==> {
                let m = old(self).operators@[who];
                &&& final(self).operators@ == old(self).operators@.insert(
                    who,
                    OperatorMetadataView {
                        stake: (m.stake - m.request->0.amount) as u128,
                        request: None,
                        ..m
                    },
                )
                &&& unreserved_in(final(self).ledger, old(self).ledger, who, m.request->0.amount)
                &&& final(self).keeps_all_but_operators(old(self))
                &&& final(self).events@ == old(self).events@.push(
                    Event::OperatorBondLessExecuted { who },
                )
            },
    {
        self.process_execute_operator_unstake(who)?;
        self.deposit_event(Event::OperatorBondLessExecuted { who });
        Ok(())
    }

    /// Cancels the scheduled stake decrease of operator `who`.
    pub fn process_cancel_operator_unstake(&mut self, who: AccountId) -> (r: Result<(), Error>)
        ensures
            r == Err::<(), Error>(Error::NotAnOperator) <==> !old(self).operators@.contains_key(
                who,
            ),
            r == Err::<(), Error>(Error::NoScheduledBondLess) <==> old(self).operators@.contains_key(
                who,
            ) && old(self).operators@[who].request is None,
            r is Ok <==> old(self).operators@.contains_key(who) && old(self).operators@[who].request is Some,
            r is Err ==> final(self).same_state(old(self)),
            r is Ok ==> {
                let m = old(self).operators@[who];
                &&& final(self).operators@ == old(self).operators@.insert(
                    who,
                    OperatorMetadataView { request: None, ..m },
                )
                &&& final(self).keeps_all_but_operators(old(self))
                &&& same_ledger(final(self).ledger, old(self).ledger)
                &&& final(self).events@ == old(self).events@
            },
    {
        match self.operators.get(&who) {
            None => {
                return Err(Error::NotAnOperator);
            },
            Some(m) => {
                if m.request.is_none() {
                    return Err(Error::NoScheduledBondLess);
                }
            },
        }
        let mut m = self.operators.remove(&who).unwrap();
        m.request = None;
        self.operators.insert(who, m);
        proof {
            let om = old(self).operators@[who];
            assert(self.operators@ =~= old(self).operators@.insert(
                who,
                OperatorMetadataView { request: None, ..om },
            ));
        }
        Ok(())
    }

    /// `cancel_operator_unstake`: cancels the decrease and reports it.
    pub fn cancel_operator_unstake(&mut self, who: AccountId) -> (r: Result<(), Error>)
        ensures
            r == Err::<(), Error>(Error::NotAnOperator) <==> !old(self).operators@.contains_key(
                who,
            ),
            r == Err::<(), Error>(Error::NoScheduledBondLess) <==> old(self).operators@.contains_key(
                who,
            ) && old(self).operators@[who].request is None,
            r is Ok <==> old(self).operators@.contains_key(who) && old(self).operators@[who].request is Some,
            r is Err ==> final(self).same_state(old(self)),
            r is Ok ==> {
                let m = old(self).operators@[who];
                &&& final(self).operators@ == old(self).operators@.insert(
                    who,
                    OperatorMetadataView { request: None, ..m },
                )
                &&& final(self).keeps_all_but_operators(old(self))
                &&& same_ledger(final(self).ledger, old(self).ledger)
                &&& final(self).events@ == old(self).events@.push(
                    Event::OperatorBondLessCancelled { who },
                )
            },
    {
        self.process_cancel_operator_unstake(who)?;
        self.deposit_event(Event::OperatorBondLessCancelled { who });
        Ok(())
    }

    /// Takes active operator `who` offline.
    pub fn process_go_offline(&mut self, who: AccountId) -> (r: Result<(), Error>)
        ensures
            r == Err::<(), Error>(Error::NotAnOperator) <==> !old(self).operators@.contains_key(
                who,
            ),
            r == Err::<(), Error>(Error::NotActiveOperator) <==> old(self).operators@.contains_key(
                who,
            ) && old(self).operators@[who].status != OperatorStatus::Active,
            r is Ok <==> old(self).operators@.contains_key(who) && old(self).operators@[who].status == OperatorStatus::Active,
            r is Err ==> final(self).same_state(old(self)),
            r is Ok ==> {
                &&& final(self).operators@ == old(self).operators@.insert(
                    who,
                    with_status(old(self).operators@[who], OperatorStatus::Inactive),
                )
                &&& final(self).keeps_all_but_operators(old(self))
                &&& same_ledger(final(self).ledger, old(self).ledger)
                &&& final(self).events@ == old(self).events@
            },
    {
        match self.operators.get(&who) {
            None => {
                return Err(Error::NotAnOperator);
            },
            Some(m) => {
                match m.status {
                    OperatorStatus::Active => {},
                    _ => {
                        return Err(Error::NotActiveOperator);
                    },
                }
            },
        }
        self.set_operator_status(who, OperatorStatus::Inactive);
        Ok(())
    }

    /// `go_offline`: takes the operator offline and reports it.
    pub fn go_offline(&mut self, who: AccountId) -> (r: Result<(), Error>)
        ensures
            r == Err::<(), Error>(Error::NotAnOperator) <==> !old(self).operators@.contains_key(
                who,
            ),
            r == Err::<(), Error>(Error::NotActiveOperator) <==> old(self).operators@.contains_key(
                who,
            ) && old(self).operators@[who].status != OperatorStatus::Active,
            r is Ok <==> old(self).operators@.contains_key(who) && old(self).operators@[who].status == OperatorStatus::Active,
            r is Err ==> final(self).same_state(old(self)),
            r is Ok ==> {
                &&& final(self).operators@ == old(self).operators@.insert(
                    who,
                    with_status(old(self).operators@[who], OperatorStatus::Inactive),
                )
                &&& final(self).keeps_all_but_operators(old(self))
                &&& same_ledger(final(self).ledger, old(self).ledger)
                &&& final(self).events@ == old(self).events@.push(
                    Event::OperatorWentOffline { who },
                )
            },
    {
        self.process_go_offline(who)?;
        self.deposit_event(Event::OperatorWentOffline { who });
        Ok(())
    }

    /// Brings inactive operator `who` back online.
    pub fn process_go_online(&mut self, who: AccountId) -> (r: Result<(), Error>)
        ensures
            r == Err::<(), Error>(Error::NotAnOperator) <==> !old(self).operators@.contains_key(
                who,
            ),
            r == Err::<(), Error>(Error::NotOfflineOperator) <==> old(self).operators@.contains_key(
                who,
            ) && old(self).operators@[who].status != OperatorStatus::Inactive,
            r is Ok <==> old(self).operators@.contains_key(who) && old(self).operators@[who].status == OperatorStatus::Inactive,
            r is Err ==> final(self).same_state(old(self)),
            r is Ok ==> {
                &&& final(self).operators@ == old(self).operators@.insert(
                    who,
                    with_status(old(self).operators@[who], OperatorStatus::Active),
                )
                &&& final(self).keeps_all_but_operators(old(self))
                &&& same_ledger(final(self).ledger, old(self).ledger)
                &&& final(self).events@ == old(self).events@
            },
    {
        match self.operators.get(&who) {
            None => {
                return Err(Error::NotAnOperator);
            },
            Some(m) => {
                match m.status {
                    OperatorStatus::Inactive => {},
                    _ => {
                        return Err(Error::NotOfflineOperator);
                    },
                }
            },
        }
        self.set_operator_status(who, OperatorStatus::Active);
        Ok(())
    }

    /// `go_online`: brings the operator online and reports it.
    pub fn go_online(&mut self, who: AccountId) -> (r: Result<(), Error>)
        ensures
            r == Err::<(), Error>(Error::NotAnOperator) <==> !old(self).operators@.contains_key(
                who,
            ),
            r == Err::<(), Error>(Error::NotOfflineOperator) <==> old(self).operators@.contains_key(
                who,
            ) && old(self).operators@[who].status != OperatorStatus::Inactive,
            r is Ok <==> old(self).operators@.contains_key(who) && old(self).operators@[who].status == OperatorStatus::Inactive,
            r is Err ==> final(self).same_state(old(self)),
            r is Ok ==> {
                &&& final(self).operators@ == old(self).operators@.insert(
                    who,
                    with_status(old(self).operators@[who], OperatorStatus::Active),
                )
                &&& final(self).keeps_all_but_operators(old(self))
                &&& same_ledger(final(self).ledger, old(self).ledger)
                &&& final(self).events@ == old(self).events@.push(
                    Event::OperatorWentOnline { who },
                )
            },
    {
        self.process_go_online(who)?;
        self.deposit_event(Event::OperatorWentOnline { who });
        Ok(())
    }
}

} // verus!
