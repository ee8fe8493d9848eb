//! Delegations: delegating deposits and nominated stake to operators, and
//! scheduling, executing and cancelling their reduction.
use super::deposit::delegator_or_default;
use super::pallet::{same_ledger, Error, Event, MultiAssetDelegation};
use super::types::{
    sat_add, AccountId, Balance, BlueprintSelectionView, BondInfoDelegator, BondInfoDelegatorView,
    BondLessRequest, BondLessRequestView,
    DelegatorBlueprintSelection, DelegatorBond, DelegatorMetadata, DelegatorMetadataView,
    DelegatorStatus, DepositView, OperatorMetadata, OperatorMetadataView, OperatorStatus, RoundIndex,
};
use crate::asset::Asset;
use crate::keyed_map::MapKey;
use crate::seq_search::{first_match, is_first, lemma_first_match};
use vstd::prelude::*;

verus! {

/// The operator's bond of `who` in `asset`.
pub open spec fn bond_of(who: AccountId, asset: Asset) -> spec_fn(DelegatorBond) -> bool {
    |b: DelegatorBond| b.delegator == who && b.asset == asset
}

/// `m` with the delegation of `who` in `asset` raised (`is_increase`) or
/// lowered by `amount`, or why that is refused.
pub open spec fn operator_bond_changed(
    m: OperatorMetadataView,
    who: AccountId,
    asset: Asset,
    amount: Balance,
    is_increase: bool,
    max: u32,
) -> Result<OperatorMetadataView, Error> {
    let ds = m.delegations;
    if is_increase {
        if m.delegation_count >= max {
            Err(Error::MaxDelegationsExceeded)
        } else {
            match first_match(ds, bond_of(who, asset)) {
                Some(i) => if ds[i].amount + amount > u128::MAX {
                    Err(Error::OverflowRisk)
                } else {
                    Ok(
                        OperatorMetadataView {
                            delegations: ds.update(
                                i,
                                DelegatorBond { amount: (ds[i].amount + amount) as u128, ..ds[i] },
                            ),
                            ..m
                        },
                    )
                },
                None => if ds.len() >= max {
                    Err(Error::MaxDelegationsExceeded)
                } else {
                    Ok(
                        OperatorMetadataView {
                            delegations: ds.push(DelegatorBond { delegator: who, amount, asset }),
                            delegation_count: (m.delegation_count + 1) as u32,
                            ..m
                        },
                    )
                },
            }
        }
    } else {
        match first_match(ds, bond_of(who, asset)) {
            Some(i) => if ds[i].amount < amount {
                Err(Error::InsufficientBalance)
            } else if ds[i].amount == amount {
                if m.delegation_count == 0 {
                    Err(Error::InsufficientBalance)
                } else {
                    Ok(
                        OperatorMetadataView {
                            delegations: ds.remove(i),
                            delegation_count: (m.delegation_count - 1) as u32,
                            ..m
                        },
                    )
                }
            } else {
                Ok(
                    OperatorMetadataView {
                        delegations: ds.update(
                            i,
                            DelegatorBond { amount: (ds[i].amount - amount) as u128, ..ds[i] },
                        ),
                        ..m
                    },
                )
            },
            None => Ok(m),
        }
    }
}

/// The first bond of `who` in `asset`.
fn find_bond(ds: &Vec<DelegatorBond>, who: AccountId, asset: Asset) -> (r: Option<usize>)
    ensures
        first_match(ds@, bond_of(who, asset)) == match r {
            Some(i) => Some(i as int),
            None => None::<int>,
        },
        r is Some ==> r->0 < ds@.len(),
{
    let ghost p = bond_of(who, asset);
    let mut i: usize = 0;
    while i < ds.len()
        invariant
            p == bond_of(who, asset),
            i <= ds@.len(),
            forall|j: int| 0 <= j < i ==> !p(#[trigger] ds@[j]),
        decreases ds@.len() - i,
    {
        if ds[i].delegator == who && ds[i].asset.same(&asset) {
            proof {
                lemma_first_match(ds@, p, Some(i as int));
            }
            return Some(i);
        }
        i = i + 1;
    }
    proof {
        lemma_first_match(ds@, p, None);
    }
    None
}

/// Applies a change of a delegation to an operator's record, or reports why
/// it is refused; on refusal the record is unchanged.
pub fn change_operator_bond(
    m: &mut OperatorMetadata,
    who: AccountId,
    asset: Asset,
    amount: Balance,
    is_increase: bool,
    max: u32,
) -> (r: Result<(), Error>)
    ensures
        match operator_bond_changed(old(m)@, who, asset, amount, is_increase, max) {
            Ok(v) => r is Ok && final(m)@ == v,
            Err(e) => r == Err::<(), Error>(e) && final(m)@ == old(m)@,
        },
{
    let found = find_bond(&m.delegations, who, asset);
    if is_increase {
        if m.delegation_count >= max {
            return Err(Error::MaxDelegationsExceeded);
        }
        match found {
            Some(i) => {
                let b = m.delegations[i];
                if b.amount > u128::MAX - amount {
                    return Err(Error::OverflowRisk);
                }
                m.delegations.set(i, DelegatorBond { amount: b.amount + amount, ..b });
            },
            None => {
                if m.delegations.len() >= max as usize {
                    return Err(Error::MaxDelegationsExceeded);
                }
                m.delegations.push(DelegatorBond { delegator: who, amount, asset });
                m.delegation_count = m.delegation_count + 1;
            },
        }
    } else {
        match found {
            Some(i) => {
                let b = m.delegations[i];
                if b.amount < amount {
                    return Err(Error::InsufficientBalance);
                }
                if b.amount == amount {
                    if m.delegation_count == 0 {
                        return Err(Error::InsufficientBalance);
                    }
                    m.delegations.remove(i);
                    m.delegation_count = m.delegation_count - 1;
                } else {
                    m.delegations.set(i, DelegatorBond { amount: b.amount - amount, ..b });
                }
            },
            None => {},
        }
    }
    Ok(())
}

/// A regular (not nomination) delegation to `operator` in `asset`.
pub open spec fn regular_delegation(operator: AccountId, asset: Asset) -> spec_fn(
    BondInfoDelegatorView,
) -> bool {
    |d: BondInfoDelegatorView| d.operator == operator && d.asset == asset && !d.is_nomination
}

/// `d` with its amount replaced.
pub open spec fn with_amount(d: BondInfoDelegatorView, amount: Balance) -> BondInfoDelegatorView {
    BondInfoDelegatorView { amount, ..d }
}

/// A delegator's record after delegating `amount` of `asset` to `operator`,
/// or why that is refused.
pub open spec fn delegator_after_delegate(
    m: DelegatorMetadataView,
    operator: AccountId,
    asset: Asset,
    amount: Balance,
    selection: BlueprintSelectionView,
    max: u32,
) -> Result<DelegatorMetadataView, Error> {
    if !m.deposits.contains_key(asset) {
        Err(Error::InsufficientBalance)
    } else {
        let d = m.deposits[asset];
        if sat_add(d.delegated_amount as int, amount as int) > d.amount {
            Err(Error::InsufficientBalance)
        } else {
            let deposits = m.deposits.insert(
                asset,
                DepositView {
                    delegated_amount: sat_add(d.delegated_amount as int, amount as int) as u128,
                    ..d
                },
            );
            let ds = m.delegations;
            match first_match(ds, regular_delegation(operator, asset)) {
                Some(i) => if ds[i].amount + amount > u128::MAX {
                    Err(Error::OverflowRisk)
                } else {
                    Ok(
                        DelegatorMetadataView {
                            deposits,
                            delegations: ds.update(
                                i,
                                with_amount(ds[i], (ds[i].amount + amount) as u128),
                            ),
                            ..m
                        },
                    )
                },
                None => if ds.len() >= max {
                    Err(Error::MaxDelegationsExceeded)
                } else {
                    Ok(
                        DelegatorMetadataView {
                            deposits,
                            delegations: ds.push(
                                BondInfoDelegatorView {
                                    operator,
                                    amount,
                                    asset,
                                    blueprint_selection: selection,
                                    is_nomination: false,
                                },
                            ),
                            status: DelegatorStatus::Active,
                            ..m
                        },
                    )
                },
            }
        }
    }
}

/// The first regular delegation to `operator` in `asset`.
pub(crate) fn find_regular_delegation(ds: &Vec<BondInfoDelegator>, operator: AccountId, asset: Asset) -> (r:
    Option<usize>)
    ensures
        first_match(ds@.map_values(|d: BondInfoDelegator| d@), regular_delegation(operator, asset))
            == match r {
            Some(i) => Some(i as int),
            None => None::<int>,
        },
        r is Some ==> r->0 < ds@.len(),
{
    let ghost p = regular_delegation(operator, asset);
    let ghost vs = ds@.map_values(|d: BondInfoDelegator| d@);
    let mut i: usize = 0;
    while i < ds.len()
        invariant
            p == regular_delegation(operator, asset),
            vs == ds@.map_values(|d: BondInfoDelegator| d@),
            i <= ds@.len(),
            forall|j: int| 0 <= j < i ==> !p(#[trigger] vs[j]),
        decreases ds@.len() - i,
    {
        if ds[i].operator == operator && ds[i].asset.same(&asset) && !ds[i].is_nomination {
            proof {
                lemma_first_match(vs, p, Some(i as int));
            }
            return Some(i);
        }
        i = i + 1;
    }
    proof {
        lemma_first_match(vs, p, None);
    }
    None
}

/// Sets the amount of delegation `i`.
pub(crate) fn set_delegation_amount(ds: &mut Vec<BondInfoDelegator>, i: usize, amount: Balance)
    requires
        i < old(ds)@.len(),
    ensures
        final(ds)@.map_values(|d: BondInfoDelegator| d@) == old(ds)@.map_values(
            |d: BondInfoDelegator| d@,
        ).update(i as int, with_amount(old(ds)@[i as int]@, amount)),
{
    let mut d = ds.remove(i);
    d.amount = amount;
    ds.insert(i, d);
    proof {
        assert(final(ds)@.map_values(|d: BondInfoDelegator| d@) =~= old(ds)@.map_values(
            |d: BondInfoDelegator| d@,
        ).update(i as int, with_amount(old(ds)@[i as int]@, amount)));
    }
}

/// Applies a delegation to a delegator's record, or reports why it is
/// refused; on refusal the record is unchanged.
pub fn delegate_from_deposit(
    m: &mut DelegatorMetadata,
    operator: AccountId,
    asset: Asset,
    amount: Balance,
    selection: DelegatorBlueprintSelection,
    max: u32,
) -> (r: Result<(), Error>)
    ensures
        match delegator_after_delegate(old(m)@, operator, asset, amount, selection@, max) {
            Ok(v) => r is Ok && final(m)@ == v,
            Err(e) => r == Err::<(), Error>(e) && final(m)@ == old(m)@,
        },
{
    let ghost sel = selection@;
    match m.deposits.get(&asset) {
        None => {
            return Err(Error::InsufficientBalance);
        },
        Some(d) => {
            if d.delegated_amount.saturating_add(amount) > d.amount {
                return Err(Error::InsufficientBalance);
            }
        },
    }
    let found = find_regular_delegation(&m.delegations, operator, asset);
    match found {
        Some(i) => {
            if m.delegations[i].amount > u128::MAX - amount {
                return Err(Error::OverflowRisk);
            }
        },
        None => {
            if m.delegations.len() >= max as usize {
                return Err(Error::MaxDelegationsExceeded);
            }
        },
    }
    let ghost m0 = m@;
    let mut d = m.deposits.remove(&asset).unwrap();
    let _ = d.increase_delegated_amount(amount);
    m.deposits.insert(asset, d);
    match found {
        Some(i) => {
            let new_amount = m.delegations[i].amount + amount;
            set_delegation_amount(&mut m.delegations, i, new_amount);
        },
        None => {
            m.delegations.push(
                BondInfoDelegator {
                    operator,
                    amount,
                    asset,
                    blueprint_selection: selection,
                    is_nomination: false,
                },
            );
            m.status = DelegatorStatus::Active;
            proof {
                assert(m@.delegations =~= m0.delegations.push(
                    BondInfoDelegatorView {
                        operator,
                        amount,
                        asset,
                        blueprint_selection: sel,
                        is_nomination: false,
                    },
                ));
            }
        },
    }
    proof {
        let dd = m0.deposits[asset];
        assert(m@.deposits =~= m0.deposits.insert(
            asset,
            DepositView {
                delegated_amount: sat_add(dd.delegated_amount as int, amount as int) as u128,
                ..dd
            },
        ));
    }
    Ok(())
}

/// Whether a delegation from the deposit is possible, and if not, why.
pub fn check_delegate_from_deposit(
    m: &DelegatorMetadata,
    operator: AccountId,
    asset: Asset,
    amount: Balance,
    selection: &DelegatorBlueprintSelection,
    max: u32,
) -> (r: Result<(), Error>)
    ensures
        match delegator_after_delegate(m@, operator, asset, amount, selection@, max) {
            Ok(_) => r is Ok,
            Err(e) => r == Err::<(), Error>(e),
        },
{
    match m.deposits.get(&asset) {
        None => {
            return Err(Error::InsufficientBalance);
        },
        Some(d) => {
            if d.delegated_amount.saturating_add(amount) > d.amount {
                return Err(Error::InsufficientBalance);
            }
        },
    }
    match find_regular_delegation(&m.delegations, operator, asset) {
        Some(i) => {
            if m.delegations[i].amount > u128::MAX - amount {
                return Err(Error::OverflowRisk);
            }
        },
        None => {
            if m.delegations.len() >= max as usize {
                return Err(Error::MaxDelegationsExceeded);
            }
        },
    }
    Ok(())
}

impl MultiAssetDelegation {
    /// Whether `who` is an operator.
    pub fn is_operator(&self, who: AccountId) -> (r: bool)
        ensures
            r == self.operators@.contains_key(who),
    {
        self.operators.contains_key(&who)
    }

    /// Whether `who` is an active operator.
    pub fn is_operator_active(&self, who: AccountId) -> (r: bool)
        ensures
            r == (self.operators@.contains_key(who) && self.operators@[who].status
                == OperatorStatus::Active),
    {
        match self.operators.get(&who) {
            Some(m) => match m.status {
                OperatorStatus::Active => true,
                _ => false,
            },
            None => false,
        }
    }

    /// Delegates `amount` of the deposit of `asset` of `who` to `operator`.
    pub fn process_delegate(
        &mut self,
        who: AccountId,
        operator: AccountId,
        asset: Asset,
        amount: Balance,
        blueprint_selection: DelegatorBlueprintSelection,
    ) -> (r: Result<(), Error>)
        ensures
            ({
                let ops = old(self).operators@;
                let dels = old(self).delegators@;
                let max = old(self).config.max_delegations;
                let dres = delegator_after_delegate(
                    dels[who],
                    operator,
                    asset,
                    amount,
                    blueprint_selection@,
                    max,
                );
                let ores = operator_bond_changed(ops[operator], who, asset, amount, true, max);
                &&& r == Err::<(), Error>(Error::NotAnOperator) <==> !ops.contains_key(operator)
                &&& r == Err::<(), Error>(Error::NotActiveOperator) <==> ops.contains_key(operator)
                    && ops[operator].status != OperatorStatus::Active
                &&& ops.contains_key(operator) && ops[operator].status == OperatorStatus::Active
                    ==> {
                    &&& amount == 0 ==> r == Err::<(), Error>(Error::InvalidAmount)
                    &&& amount != 0 && !dels.contains_key(who) ==> r == Err::<(), Error>(
                        Error::NotDelegator,
                    )
                    &&& amount != 0 && dels.contains_key(who) && dres is Err ==> r == Err::<
                        (),
                        Error,
                    >(dres->Err_0)
                    &&& amount != 0 && dels.contains_key(who) && dres is Ok && ores is Err ==> r
                        == Err::<(), Error>(ores->Err_0)
                    &&& amount != 0 && dels.contains_key(who) && dres is Ok && ores is Ok ==> r is Ok
                }
                &&& r is Err ==> final(self).same_state(old(self))
                &&& r is Ok ==> {
                    &&& final(self).delegators@ == dels.insert(who, dres->Ok_0)
                    &&& final(self).operators@ == ops.insert(operator, ores->Ok_0)
                    &&& final(self).same_settings(old(self))
                    &&& final(self).at_stake@ == old(self).at_stake@
                    &&& same_ledger(final(self).ledger, old(self).ledger)
                    &&& final(self).events@ == old(self).events@.push(
                        Event::Delegated { who, operator, amount, asset },
                    )
                }
            }),
    {
        if !self.is_operator(operator) {
            return Err(Error::NotAnOperator);
        }
        if !self.is_operator_active(operator) {
            return Err(Error::NotActiveOperator);
        }
        if amount == 0 {
            return Err(Error::InvalidAmount);
        }
        let max = self.config.max_delegations;
        match self.delegators.get(&who) {
            None => {
                return Err(Error::NotDelegator);
            },
            Some(m) => {
                check_delegate_from_deposit(m, operator, asset, amount, &blueprint_selection, max)?;
            },
        }
        let mut om = self.operators.remove(&operator).unwrap();
        let ores = change_operator_bond(&mut om, who, asset, amount, true, max);
        self.operators.insert(operator, om);
        if let Err(e) = ores {
            proof {
                assert(self.operators@ =~= old(self).operators@);
            }
            return Err(e);
        }
        let mut m = self.delegators.remove(&who).unwrap();
        let _ = delegate_from_deposit(&mut m, operator, asset, amount, blueprint_selection, max);
        self.delegators.insert(who, m);
        self.deposit_event(Event::Delegated { who, operator, amount, asset });
        Ok(())
    }

    /// `delegate`: delegates and reports it.
    pub fn delegate(
        &mut self,
        who: AccountId,
        operator: AccountId,
        asset: Asset,
        amount: Balance,
        blueprint_selection: DelegatorBlueprintSelection,
    ) -> (r: Result<(), Error>)
        ensures
            ({
                let ops = old(self).operators@;
                let dels = old(self).delegators@;
                let max = old(self).config.max_delegations;
                let dres = delegator_after_delegate(
                    dels[who],
                    operator,
                    asset,
                    amount,
                    blueprint_selection@,
                    max,
                );
                let ores = operator_bond_changed(ops[operator], who, asset, amount, true, max);
                &&& r is Ok <==> ops.contains_key(operator) && ops[operator].status
                    == OperatorStatus::Active && amount != 0 && dels.contains_key(who) && dres is Ok
                    && ores is Ok
                &&& r is Err ==> final(self).same_state(old(self))
                &&& r is Ok ==> {
                    &&& final(self).delegators@ == dels.insert(who, dres->Ok_0)
                    &&& final(self).operators@ == ops.insert(operator, ores->Ok_0)
                    &&& final(self).same_settings(old(self))
                    &&& final(self).at_stake@ == old(self).at_stake@
                    &&& same_ledger(final(self).ledger, old(self).ledger)
                    &&& final(self).events@ == old(self).events@.push(
                        Event::Delegated { who, operator, amount, asset },
                    ).push(Event::Delegated { who, operator, amount, asset })
                }
            }),
    {
        self.process_delegate(who, operator, asset, amount, blueprint_selection)?;
        self.deposit_event(Event::Delegated { who, operator, amount, asset });
        Ok(())
    }
}

/// The sum of the amounts of the requests on which `p` holds.
pub open spec fn request_sum(qs: Seq<BondLessRequestView>, p: spec_fn(BondLessRequestView) -> bool) -> int
    decreases qs.len(),
{
    if qs.len() == 0 {
        0
    } else {
        request_sum(qs.drop_last(), p) + if p(qs.last()) {
            qs.last().amount as int
        } else {
            0
        }
    }
}

/// `x`, saturated at the largest balance.
pub open spec fn sat(x: int) -> int {
    if x > u128::MAX {
        u128::MAX as int
    } else {
        x
    }
}

pub proof fn lemma_request_sum_nonneg(
    qs: Seq<BondLessRequestView>,
    p: spec_fn(BondLessRequestView) -> bool,
)
    ensures
        request_sum(qs, p) >= 0,
    decreases qs.len(),
{
    if qs.len() > 0 {
        lemma_request_sum_nonneg(qs.drop_last(), p);
    }
}

/// The requests to reduce the delegation to `operator` in `asset`.
pub open spec fn unstake_of(operator: AccountId, asset: Asset) -> spec_fn(BondLessRequestView) -> bool {
    |q: BondLessRequestView| q.operator == operator && q.asset == asset
}

/// The requests to reduce the nomination delegation to `operator`.
pub open spec fn nomination_unstake_of(operator: AccountId) -> spec_fn(BondLessRequestView) -> bool {
    |q: BondLessRequestView| q.operator == operator && q.is_nomination
}

/// The saturating sum of the pending unstakes; `nomination` selects the
/// nomination requests to `operator`, otherwise those to `operator` in `asset`.
fn pending_unstake(qs: &Vec<BondLessRequest>, operator: AccountId, asset: Asset, nomination: bool) -> (r: Balance)
    ensures
        r == sat(
            request_sum(
                qs@.map_values(|q: BondLessRequest| q@),
                if nomination {
                    nomination_unstake_of(operator)
                } else {
                    unstake_of(operator, asset)
                },
            ),
        ),
{
    let ghost p = if nomination {
        nomination_unstake_of(operator)
    } else {
        unstake_of(operator, asset)
    };
    let ghost vs = qs@.map_values(|q: BondLessRequest| q@);
    let mut acc: u128 = 0;
    let mut i: usize = 0;
    while i < qs.len()
        invariant
            vs == qs@.map_values(|q: BondLessRequest| q@),
            p == (if nomination {
                nomination_unstake_of(operator)
            } else {
                unstake_of(operator, asset)
            }),
            i <= qs@.len(),
            acc == sat(request_sum(vs.subrange(0, i as int), p)),
        decreases qs@.len() - i,
    {
        proof {
            let s = vs.subrange(0, i as int + 1);
            assert(s.drop_last() =~= vs.subrange(0, i as int));
            assert(s.last() == vs[i as int]);
            lemma_request_sum_nonneg(vs.subrange(0, i as int), p);
        }
        let hit = if nomination {
            qs[i].operator == operator && qs[i].is_nomination
        } else {
            qs[i].operator == operator && qs[i].asset.same(&asset)
        };
        if hit {
            acc = acc.saturating_add(qs[i].amount);
        }
        i = i + 1;
    }
    proof {
        assert(vs.subrange(0, vs.len() as int) =~= vs);
    }
    acc
}

/// The request that `create_unstake_request` appends.
pub open spec fn unstake_request(
    operator: AccountId,
    asset: Asset,
    amount: Balance,
    round: u32,
    selection: BlueprintSelectionView,
    is_nomination: bool,
) -> BondLessRequestView {
    BondLessRequestView {
        operator,
        asset,
        amount,
        requested_round: round,
        blueprint_selection: selection,
        is_nomination,
    }
}

/// Appends an unstake request made at `round`, unless `max` are pending.
pub fn create_unstake_request(
    m: &mut DelegatorMetadata,
    operator: AccountId,
    asset: Asset,
    amount: Balance,
    blueprint_selection: DelegatorBlueprintSelection,
    is_nomination: bool,
    round: u32,
    max: u32,
) -> (r: Result<(), Error>)
    ensures
        r is Err <==> old(m)@.delegator_unstake_requests.len() >= max,
        r is Err ==> r == Err::<(), Error>(Error::MaxUnstakeRequestsExceeded) && final(m)@ == old(m)@,
        r is Ok ==> final(m)@ == (DelegatorMetadataView {
            delegator_unstake_requests: old(m)@.delegator_unstake_requests.push(
                unstake_request(operator, asset, amount, round, blueprint_selection@, is_nomination),
            ),
            ..old(m)@
        }),
{
    if m.delegator_unstake_requests.len() >= max as usize {
        return Err(Error::MaxUnstakeRequestsExceeded);
    }
    let ghost sel = blueprint_selection@;
    let ghost m0 = m@;
    m.delegator_unstake_requests.push(
        BondLessRequest {
            operator,
            asset,
            amount,
            requested_round: round,
            blueprint_selection,
            is_nomination,
        },
    );
    proof {
        assert(m@.delegator_unstake_requests =~= m0.delegator_unstake_requests.push(
            unstake_request(operator, asset, amount, round, sel, is_nomination),
        ));
    }
    Ok(())
}

/// The first unstake request on which `p` holds.
fn find_request(qs: &Vec<BondLessRequest>, operator: AccountId, asset: Asset, amount: Balance, nomination: bool) -> (r: Option<usize>)
    ensures
        first_match(
            qs@.map_values(|q: BondLessRequest| q@),
            if nomination {
                nomination_unstake_of(operator)
            } else {
                exact_unstake_of(operator, asset, amount)
            },
        ) == match r {
            Some(i) => Some(i as int),
            None => None::<int>,
        },
        r is Some ==> r->0 < qs@.len(),
{
    let ghost p = if nomination {
        nomination_unstake_of(operator)
    } else {
        exact_unstake_of(operator, asset, amount)
    };
    let ghost vs = qs@.map_values(|q: BondLessRequest| q@);
    let mut i: usize = 0;
    while i < qs.len()
        invariant
            vs == qs@.map_values(|q: BondLessRequest| q@),
            p == (if nomination {
                nomination_unstake_of(operator)
            } else {
                exact_unstake_of(operator, asset, amount)
            }),
            i <= qs@.len(),
            forall|j: int| 0 <= j < i ==> !p(#[trigger] vs[j]),
        decreases qs@.len() - i,
    {
        let hit = if nomination {
            qs[i].operator == operator && qs[i].is_nomination
        } else {
            qs[i].asset.same(&asset) && qs[i].amount == amount && qs[i].operator == operator
                && !qs[i].is_nomination
        };
        if hit {
            proof {
                lemma_first_match(vs, p, Some(i as int));
            }
            return Some(i);
        }
        i = i + 1;
    }
    proof {
        lemma_first_match(vs, p, None);
    }
    None
}

/// The regular request to `operator` for exactly `amount` of `asset`.
pub open spec fn exact_unstake_of(operator: AccountId, asset: Asset, amount: Balance) -> spec_fn(
    BondLessRequestView,
) -> bool {
    |q: BondLessRequestView|
        q.asset == asset && q.amount == amount && q.operator == operator && !q.is_nomination
}

/// Whether scheduling an unstake is refused, and why, given the record.
pub open spec fn schedule_unstake_error(
    m: DelegatorMetadataView,
    operator: AccountId,
    asset: Asset,
    amount: Balance,
    max: u32,
) -> Option<Error> {
    let ds = m.delegations;
    let qs = m.delegator_unstake_requests;
    match first_match(ds, regular_delegation(operator, asset)) {
        None => Some(Error::NoActiveDelegation),
        Some(i) => if (if ds[i].amount - sat(request_sum(qs, unstake_of(operator, asset))) < 0 {
            0
        } else {
            ds[i].amount - sat(request_sum(qs, unstake_of(operator, asset)))
        }) < amount {
            Some(Error::InsufficientBalance)
        } else if qs.len() >= max {
            Some(Error::MaxUnstakeRequestsExceeded)
        } else {
            None
        },
    }
}

/// The delegators after `who` schedules, in `round`, an unstake of
/// `amount` of its regular delegation of `asset` to `operator`.
pub open spec fn unstake_scheduled(
    dels: Map<AccountId, DelegatorMetadataView>,
    who: AccountId,
    operator: AccountId,
    asset: Asset,
    amount: Balance,
    round: RoundIndex,
) -> Map<AccountId, DelegatorMetadataView> {
    let m = dels[who];
    let i = first_match(m.delegations, regular_delegation(operator, asset))->0;
    dels.insert(
        who,
        DelegatorMetadataView {
            delegator_unstake_requests: m.delegator_unstake_requests.push(
                unstake_request(operator, asset, amount, round, m.delegations[i].blueprint_selection, false),
            ),
            ..m
        },
    )
}

/// The delegators after `who` cancels its first regular unstake request for
/// exactly `amount` of `asset` to `operator`.
pub open spec fn unstake_cancelled(
    dels: Map<AccountId, DelegatorMetadataView>,
    who: AccountId,
    operator: AccountId,
    asset: Asset,
    amount: Balance,
) -> Map<AccountId, DelegatorMetadataView> {
    let m = dels[who];
    let i = first_match(m.delegator_unstake_requests, exact_unstake_of(operator, asset, amount));
    dels.insert(
        who,
        DelegatorMetadataView { delegator_unstake_requests: m.delegator_unstake_requests.remove(i->0), ..m },
    )
}

impl MultiAssetDelegation {
    /// Schedules a reduction by `amount` of the delegation of `asset` by `who`
    /// to `operator`.
    pub fn process_schedule_delegator_unstake(
        &mut self,
        who: AccountId,
        operator: AccountId,
        asset: Asset,
        amount: Balance,
    ) -> (r: Result<(), Error>)
        ensures
            ({
                let dels = old(self).delegators@;
                let m = dels[who];
                let e = schedule_unstake_error(
                    m,
                    operator,
                    asset,
                    amount,
                    old(self).config.max_unstake_requests,
                );
                let i = first_match(m.delegations, regular_delegation(operator, asset))->0;
                &&& r == Err::<(), Error>(Error::InvalidAmount) <==> amount == 0
                &&& amount != 0 ==> (r == Err::<(), Error>(Error::NotDelegator)
                    <==> !dels.contains_key(who))
                &&& amount != 0 && dels.contains_key(who) && e is Some ==> r == Err::<(), Error>(
                    e->0,
                )
                &&& r is Ok <==> amount != 0 && dels.contains_key(who) && e is None
                &&& r is Err ==> final(self).same_state(old(self))
                &&& r is Ok ==> {
                    &&& final(self).delegators@ == unstake_scheduled(
                        dels,
                        who,
                        operator,
                        asset,
                        amount,
                        old(self).current_round,
                    )
                    &&& final(self).keeps_all_but_delegators(old(self))
                    &&& same_ledger(final(self).ledger, old(self).ledger)
                    &&& final(self).events@ == old(self).events@
                }
            }),
    {
        if amount == 0 {
            return Err(Error::InvalidAmount);
        }
        let max = self.config.max_unstake_requests;
        let round = self.current_round;
        let (idx, selection) = match self.delegators.get(&who) {
            None => {
                return Err(Error::NotDelegator);
            },
            Some(m) => {
                let idx = match find_regular_delegation(&m.delegations, operator, asset) {
                    None => {
                        return Err(Error::NoActiveDelegation);
                    },
                    Some(i) => i,
                };
                let pending = pending_unstake(&m.delegator_unstake_requests, operator, asset, false);
                let available = m.delegations[idx].amount.saturating_sub(pending);
                if available < amount {
                    return Err(Error::InsufficientBalance);
                }
                if m.delegator_unstake_requests.len() >= max as usize {
                    return Err(Error::MaxUnstakeRequestsExceeded);
                }
                (idx, m.delegations[idx].blueprint_selection.copy())
            },
        };
        let mut m = self.delegators.remove(&who).unwrap();
        let _ = create_unstake_request(&mut m, operator, asset, amount, selection, false, round, max);
        self.delegators.insert(who, m);
        Ok(())
    }

    /// `schedule_delegator_unstake`: schedules the reduction and reports when
    /// it can be executed.
    pub fn schedule_delegator_unstake(
        &mut self,
        who: AccountId,
        operator: AccountId,
        asset: Asset,
        amount: Balance,
    ) -> (r: Result<(), Error>)
        requires
            old(self).current_round + old(self).config.delegation_bond_less_delay <= u32::MAX,
        ensures
            ({
                let dels = old(self).delegators@;
                let m = dels[who];
                let e = schedule_unstake_error(
                    m,
                    operator,
                    asset,
                    amount,
                    old(self).config.max_unstake_requests,
                );
                let i = first_match(m.delegations, regular_delegation(operator, asset))->0;
                &&& r is Ok <==> amount != 0 && dels.contains_key(who) && e is None
                &&& r is Err ==> final(self).same_state(old(self))
                &&& r is Ok ==> {
                    &&& final(self).delegators@ == unstake_scheduled(
                        dels,
                        who,
                        operator,
                        asset,
                        amount,
                        old(self).current_round,
                    )
                    &&& final(self).keeps_all_but_delegators(old(self))
                    &&& same_ledger(final(self).ledger, old(self).ledger)
                    &&& final(self).events@ == old(self).events@.push(
                        Event::DelegatorUnstakeScheduled {
                            who,
                            operator,
                            asset,
                            amount,
                            when: (old(self).current_round + old(
                                self,
                            ).config.delegation_bond_less_delay) as u32,
                        },
                    )
                }
            }),
    {
        self.process_schedule_delegator_unstake(who, operator, asset, amount)?;
        let when = self.current_round + self.config.delegation_bond_less_delay;
        self.deposit_event(Event::DelegatorUnstakeScheduled { who, operator, asset, amount, when });
        Ok(())
    }

    /// Cancels the first regular unstake request of `who` for exactly
    /// `amount` of `asset` to `operator`.
    pub fn process_cancel_delegator_unstake(
        &mut self,
        who: AccountId,
        operator: AccountId,
        asset: Asset,
        amount: Balance,
    ) -> (r: Result<(), Error>)
        ensures
            ({
                let dels = old(self).delegators@;
                let m = dels[who];
                let i = first_match(
                    m.delegator_unstake_requests,
                    exact_unstake_of(operator, asset, amount),
                );
                &&& r == Err::<(), Error>(Error::InvalidAmount) <==> amount == 0
                &&& amount != 0 ==> (r == Err::<(), Error>(Error::NotDelegator)
                    <==> !dels.contains_key(who))
                &&& amount != 0 && dels.contains_key(who) ==> (r == Err::<(), Error>(
                    Error::NoBondLessRequest,
                ) <==> i is None)
                &&& r is Ok <==> amount != 0 && dels.contains_key(who) && i is Some
                &&& r is Err ==> final(self).same_state(old(self))
                &&& r is Ok ==> {
                    &&& i is Some
                    &&& final(self).delegators@ == unstake_cancelled(dels, who, operator, asset, amount)
                    &&& final(self).keeps_all_but_delegators(old(self))
                    &&& same_ledger(final(self).ledger, old(self).ledger)
                    &&& final(self).events@ == old(self).events@
                }
            }),
    {
        if amount == 0 {
            return Err(Error::InvalidAmount);
        }
        let idx = match self.delegators.get(&who) {
            None => {
                return Err(Error::NotDelegator);
            },
            Some(m) => match find_request(&m.delegator_unstake_requests, operator, asset, amount, false) {
                None => {
                    return Err(Error::NoBondLessRequest);
                },
                Some(i) => i,
            },
        };
        let mut m = self.delegators.remove(&who).unwrap();
        let ghost m0 = m@;
        m.delegator_unstake_requests.remove(idx);
        proof {
            assert(m@.delegator_unstake_requests =~= m0.delegator_unstake_requests.remove(
                idx as int,
            ));
        }
        self.delegators.insert(who, m);
        Ok(())
    }

    /// `cancel_delegator_unstake`: cancels the request and reports it.
    pub fn cancel_delegator_unstake(
        &mut self,
        who: AccountId,
        operator: AccountId,
        asset: Asset,
        amount: Balance,
    ) -> (r: Result<(), Error>)
        ensures
            ({
                let dels = old(self).delegators@;
                let m = dels[who];
                let i = first_match(
                    m.delegator_unstake_requests,
                    exact_unstake_of(operator, asset, amount),
                );
                &&& r is Ok <==> amount != 0 && dels.contains_key(who) && i is Some
                &&& r is Err ==> final(self).same_state(old(self))
                &&& r is Ok ==> {
                    &&& final(self).delegators@ == unstake_cancelled(dels, who, operator, asset, amount)
                    &&& final(self).keeps_all_but_delegators(old(self))
                    &&& same_ledger(final(self).ledger, old(self).ledger)
                    &&& final(self).events@ == old(self).events@.push(
                        Event::DelegatorUnstakeCancelled { who, operator, asset, amount },
                    )
                }
            }),
    {
        self.process_cancel_delegator_unstake(who, operator, asset, amount)?;
        self.deposit_event(Event::DelegatorUnstakeCancelled { who, operator, asset, amount });
        Ok(())
    }
}

/// The nomination delegation to `operator`.
pub open spec fn nomination_to(operator: AccountId) -> spec_fn(BondInfoDelegatorView) -> bool {
    |d: BondInfoDelegatorView| d.operator == operator && d.is_nomination
}

/// A delegator's record after delegating `amount` of nominated stake to
/// `operator`, with the new delegation lock (the total of the nomination
/// delegations, so that every delegated nominated token stays locked), or why
/// that is refused.
pub open spec fn delegator_after_nomination(
    m: DelegatorMetadataView,
    operator: AccountId,
    amount: Balance,
    selection: BlueprintSelectionView,
    nominated: Balance,
    max: u32,
) -> Result<(DelegatorMetadataView, Balance), Error> {
    let ds = m.delegations;
    let new_total = sat(super::types::nomination_sum(ds)) + amount;
    if new_total > u128::MAX {
        Err(Error::OverflowRisk)
    } else if new_total > nominated {
        Err(Error::InsufficientBalance)
    } else {
        match first_match(ds, nomination_to(operator)) {
            Some(i) => if ds[i].amount + amount > u128::MAX {
                Err(Error::OverflowRisk)
            } else {
                Ok(
                    (
                        DelegatorMetadataView {
                            delegations: ds.update(
                                i,
                                with_amount(ds[i], (ds[i].amount + amount) as u128),
                            ),
                            ..m
                        },
                        new_total as u128,
                    ),
                )
            },
            None => if ds.len() >= max {
                Err(Error::MaxDelegationsExceeded)
            } else {
                Ok(
                    (
                        DelegatorMetadataView {
                            delegations: ds.push(
                                BondInfoDelegatorView {
                                    operator,
                                    amount,
                                    asset: Asset::Custom(0),
                                    blueprint_selection: selection,
                                    is_nomination: true,
                                },
                            ),
                            ..m
                        },
                        new_total as u128,
                    ),
                )
            },
        }
    }
}

/// The first nomination delegation to `operator`.
fn find_nomination(ds: &Vec<BondInfoDelegator>, operator: AccountId) -> (r: Option<usize>)
    ensures
        first_match(ds@.map_values(|d: BondInfoDelegator| d@), nomination_to(operator)) == match r {
            Some(i) => Some(i as int),
            None => None::<int>,
        },
        r is Some ==> r->0 < ds@.len(),
{
    let ghost p = nomination_to(operator);
    let ghost vs = ds@.map_values(|d: BondInfoDelegator| d@);
    let mut i: usize = 0;
    while i < ds.len()
        invariant
            p == nomination_to(operator),
            vs == ds@.map_values(|d: BondInfoDelegator| d@),
            i <= ds@.len(),
            forall|j: int| 0 <= j < i ==> !p(#[trigger] vs[j]),
        decreases ds@.len() - i,
    {
        if ds[i].operator == operator && ds[i].is_nomination {
            proof {
                lemma_first_match(vs, p, Some(i as int));
            }
            return Some(i);
        }
        i = i + 1;
    }
    proof {
        lemma_first_match(vs, p, None);
    }
    None
}

/// The index and amount of the nomination delegation to `operator`; refused
/// where that delegation is not of the native asset.
pub fn find_nomination_delegation(ds: &Vec<BondInfoDelegator>, operator: AccountId) -> (r: Result<
    Option<(usize, Balance)>,
    Error,
>)
    ensures
        ({
            let vs = ds@.map_values(|d: BondInfoDelegator| d@);
            match first_match(vs, nomination_to(operator)) {
                None => r == Ok::<Option<(usize, Balance)>, Error>(None),
                Some(i) => if vs[i].asset != Asset::Custom(0) {
                    r == Err::<Option<(usize, Balance)>, Error>(Error::AssetNotWhitelisted)
                } else {
                    r == Ok::<Option<(usize, Balance)>, Error>(Some((i as usize, vs[i].amount)))
                },
            }
        }),
        r matches Ok(Some((i, a))) ==> i < ds@.len() && a == ds@[i as int].amount
            && first_match(ds@.map_values(|d: BondInfoDelegator| d@), nomination_to(operator))
            == Some(i as int),
{
    match find_nomination(ds, operator) {
        None => Ok(None),
        Some(i) => {
            if !ds[i].asset.same(&Asset::Custom(0)) {
                return Err(Error::AssetNotWhitelisted);
            }
            Ok(Some((i, ds[i].amount)))
        },
    }
}

/// The active nominated stake of `who`, which must cover `required_amount`;
/// `nominated_stake` is the staking system's answer (`None` for no stake).
pub fn verify_nomination_amount(nominated_stake: Option<Balance>, required_amount: Balance) -> (r:
    Result<Balance, Error>)
    ensures
        match nominated_stake {
            None => r == Err::<Balance, Error>(Error::NotNominator),
            Some(active) => if active >= required_amount {
                r == Ok::<Balance, Error>(active)
            } else {
                r == Err::<Balance, Error>(Error::InsufficientBalance)
            },
        },
{
    match nominated_stake {
        None => Err(Error::NotNominator),
        Some(active) => {
            if active < required_amount {
                return Err(Error::InsufficientBalance);
            }
            Ok(active)
        },
    }
}

impl MultiAssetDelegation {
    /// Delegates `amount` of the nominated stake of `who` to `operator` and
    /// sets the delegation lock to the new total of the nomination
    /// delegations of `who`. `nominated_stake` is the staking system's
    /// answer for `who` (`None` where `who` does not nominate). A nominator
    /// without a delegator record gets an empty one first.
    pub fn process_delegate_nominations(
        &mut self,
        who: AccountId,
        operator: AccountId,
        amount: Balance,
        blueprint_selection: DelegatorBlueprintSelection,
        nominated_stake: Option<Balance>,
    ) -> (r: Result<(), Error>)
        ensures
            ({
                let ops = old(self).operators@;
                let dels = old(self).delegators@;
                let max = old(self).config.max_delegations;
                let nominated = nominated_stake->0;
                let dres = delegator_after_nomination(
                    delegator_or_default(dels, who),
                    operator,
                    amount,
                    blueprint_selection@,
                    nominated,
                    max,
                );
                let ores = operator_bond_changed(
                    ops[operator],
                    who,
                    Asset::Custom(0),
                    amount,
                    true,
                    max,
                );
                let checks = if amount == 0 {
                    Some(Error::InvalidAmount)
                } else if !ops.contains_key(operator) {
                    Some(Error::NotAnOperator)
                } else if ops[operator].status != OperatorStatus::Active {
                    Some(Error::NotActiveOperator)
                } else if nominated_stake is None {
                    Some(Error::NotNominator)
                } else if nominated < amount {
                    Some(Error::InsufficientBalance)
                } else if dres is Err {
                    Some(dres->Err_0)
                } else if ores is Err {
                    Some(ores->Err_0)
                } else {
                    None::<Error>
                };
                &&& checks is Some ==> r == Err::<(), Error>(checks->0)
                &&& checks is None ==> r is Ok
                &&& r is Err ==> final(self).same_state(old(self))
                &&& r is Ok ==> {
                    &&& final(self).delegators@ == dels.insert(who, dres->Ok_0.0)
                    &&& final(self).operators@ == ops.insert(operator, ores->Ok_0)
                    &&& final(self).ledger.locks@ == old(self).ledger.locks@.insert(
                        who,
                        dres->Ok_0.1,
                    )
                    &&& final(self).ledger.locks@[who] == super::types::nomination_sum(
                        final(self).delegators@[who].delegations,
                    )
                    &&& final(self).ledger.free@ == old(self).ledger.free@
                    &&& final(self).ledger.reserved@ == old(self).ledger.reserved@
                    &&& final(self).ledger.assets@ == old(self).ledger.assets@
                    &&& final(self).ledger.tokens@ == old(self).ledger.tokens@
                    &&& final(self).same_settings(old(self))
                    &&& final(self).at_stake@ == old(self).at_stake@
                    &&& final(self).events@ == old(self).events@.push(
                        Event::NominationDelegated { who, operator, amount },
                    )
                }
            }),
    {
        if amount == 0 {
            return Err(Error::InvalidAmount);
        }
        if !self.is_operator(operator) {
            return Err(Error::NotAnOperator);
        }
        if !self.is_operator_active(operator) {
            return Err(Error::NotActiveOperator);
        }
        let nominated = verify_nomination_amount(nominated_stake, amount)?;
        let max = self.config.max_delegations;
        let (found, current_total) = match self.delegators.get(&who) {
            None => {
                if max == 0 {
                    return Err(Error::MaxDelegationsExceeded);
                }
                (None, 0u128)
            },
            Some(m) => {
                let current_total = m.total_nomination_delegations();
                if current_total > u128::MAX - amount {
                    return Err(Error::OverflowRisk);
                }
                if current_total + amount > nominated {
                    return Err(Error::InsufficientBalance);
                }
                let found = find_nomination(&m.delegations, operator);
                match found {
                    Some(i) => {
                        if m.delegations[i].amount > u128::MAX - amount {
                            return Err(Error::OverflowRisk);
                        }
                    },
                    None => {
                        if m.delegations.len() >= max as usize {
                            return Err(Error::MaxDelegationsExceeded);
                        }
                    },
                }
                (found, current_total)
            },
        };
        let mut om = self.operators.remove(&operator).unwrap();
        let ores = change_operator_bond(&mut om, who, Asset::Custom(0), amount, true, max);
        self.operators.insert(operator, om);
        if let Err(e) = ores {
            proof {
                assert(self.operators@ =~= old(self).operators@);
            }
            return Err(e);
        }
        let mut m = match self.delegators.remove(&who) {
            Some(m) => m,
            None => DelegatorMetadata::default_metadata(),
        };
        let ghost m0 = m@;
        proof {
            assert(m0.deposits =~= delegator_or_default(old(self).delegators@, who).deposits);
            assert(m0.withdraw_requests =~= delegator_or_default(
                old(self).delegators@,
                who,
            ).withdraw_requests);
            assert(m0.delegations =~= delegator_or_default(old(self).delegators@, who).delegations);
            assert(m0.delegator_unstake_requests =~= delegator_or_default(
                old(self).delegators@,
                who,
            ).delegator_unstake_requests);
        }
        let ghost sel = blueprint_selection@;
        let lock = current_total + amount;
        match found {
            Some(i) => {
                let new_amount = m.delegations[i].amount + amount;
                set_delegation_amount(&mut m.delegations, i, new_amount);
                proof {
                    super::types::lemma_nomination_sum_update(
                        m0.delegations,
                        i as int,
                        with_amount(m0.delegations[i as int], new_amount),
                    );
                }
            },
            None => {
                m.delegations.push(
                    BondInfoDelegator {
                        operator,
                        amount,
                        asset: Asset::Custom(0),
                        blueprint_selection,
                        is_nomination: true,
                    },
                );
                proof {
                    assert(m@.delegations =~= m0.delegations.push(
                        BondInfoDelegatorView {
                            operator,
                            amount,
                            asset: Asset::Custom(0),
                            blueprint_selection: sel,
                            is_nomination: true,
                        },
                    ));
                    super::types::lemma_nomination_sum_push(
                        m0.delegations,
                        BondInfoDelegatorView {
                            operator,
                            amount,
                            asset: Asset::Custom(0),
                            blueprint_selection: sel,
                            is_nomination: true,
                        },
                    );
                }
            },
        }
        proof {
            super::types::lemma_nomination_sum_nonneg(m0.delegations);
        }
        self.ledger.set_lock(who, lock);
        self.delegators.insert(who, m);
        self.deposit_event(Event::NominationDelegated { who, operator, amount });
        Ok(())
    }

    /// `delegate_nomination`: delegates nominated stake and reports it.
    pub fn delegate_nomination(
        &mut self,
        who: AccountId,
        operator: AccountId,
        amount: Balance,
        blueprint_selection: DelegatorBlueprintSelection,
        nominated_stake: Option<Balance>,
    ) -> (r: Result<(), Error>)
        ensures
            ({
                let ops = old(self).operators@;
                let dels = old(self).delegators@;
                let max = old(self).config.max_delegations;
                let nominated = nominated_stake->0;
                let dres = delegator_after_nomination(
                    delegator_or_default(dels, who),
                    operator,
                    amount,
                    blueprint_selection@,
                    nominated,
                    max,
                );
                let ores = operator_bond_changed(
                    ops[operator],
                    who,
                    Asset::Custom(0),
                    amount,
                    true,
                    max,
                );
                &&& r is Ok <==> amount != 0 && ops.contains_key(operator) && ops[operator].status
                    == OperatorStatus::Active && nominated_stake is Some && nominated >= amount
                    && dres is Ok && ores is Ok
                &&& r is Err ==> final(self).same_state(old(self))
                &&& r is Ok ==> {
                    &&& final(self).delegators@ == dels.insert(who, dres->Ok_0.0)
                    &&& final(self).operators@ == ops.insert(operator, ores->Ok_0)
                    &&& final(self).ledger.locks@ == old(self).ledger.locks@.insert(
                        who,
                        dres->Ok_0.1,
                    )
                    &&& final(self).ledger.locks@[who] == super::types::nomination_sum(
                        final(self).delegators@[who].delegations,
                    )
                    &&& final(self).ledger.free@ == old(self).ledger.free@
                    &&& final(self).ledger.reserved@ == old(self).ledger.reserved@
                    &&& final(self).ledger.assets@ == old(self).ledger.assets@
                    &&& final(self).ledger.tokens@ == old(self).ledger.tokens@
                    &&& final(self).same_settings(old(self))
                    &&& final(self).at_stake@ == old(self).at_stake@
                    &&& final(self).events@ == old(self).events@.push(
                        Event::NominationDelegated { who, operator, amount },
                    ).push(Event::NominationDelegated { who, operator, amount })
                }
            }),
    {
        self.process_delegate_nominations(who, operator, amount, blueprint_selection, nominated_stake)?;
        self.deposit_event(Event::NominationDelegated { who, operator, amount });
        Ok(())
    }
}

/// Why scheduling a reduction of the nomination delegation to `operator` is
/// refused, given the delegator's record.
pub open spec fn schedule_nomination_unstake_error(
    m: DelegatorMetadataView,
    operator: AccountId,
    amount: Balance,
    max: u32,
) -> Option<Error> {
    let ds = m.delegations;
    let qs = m.delegator_unstake_requests;
    match first_match(ds, nomination_to(operator)) {
        None => Some(Error::NoActiveDelegation),
        Some(i) => if ds[i].asset != Asset::Custom(0) {
            Some(Error::AssetNotWhitelisted)
        } else if super::types::sat_sub(
            ds[i].amount as int,
            sat(request_sum(qs, nomination_unstake_of(operator))),
        ) < amount {
            Some(Error::InsufficientBalance)
        } else if qs.len() >= max {
            Some(Error::MaxUnstakeRequestsExceeded)
        } else {
            None
        },
    }
}

/// Why executing the nomination unstake to `operator` is refused, given the
/// delegator's record, the operators, the round and the unstake delay (a
/// request is ready once the delay has passed since the round it was made in).
pub open spec fn execute_nomination_unstake_error(
    m: DelegatorMetadataView,
    ops: Map<AccountId, OperatorMetadataView>,
    operator: AccountId,
    who: AccountId,
    round: u32,
    delay: u32,
    max: u32,
) -> Option<Error> {
    let ds = m.delegations;
    let qs = m.delegator_unstake_requests;
    match first_match(qs, nomination_unstake_of(operator)) {
        None => Some(Error::NoBondLessRequest),
        Some(k) => if qs[k].requested_round + delay > round {
            Some(Error::BondLessNotReady)
        } else {
            match first_match(ds, nomination_to(operator)) {
                None => Some(Error::NoActiveDelegation),
                Some(i) => if ds[i].asset != Asset::Custom(0) {
                    Some(Error::AssetNotWhitelisted)
                } else if ds[i].amount < qs[k].amount {
                    Some(Error::InsufficientBalance)
                } else if !ops.contains_key(operator) {
                    Some(Error::NotAnOperator)
                } else {
                    match operator_bond_changed(
                        ops[operator],
                        who,
                        Asset::Custom(0),
                        qs[k].amount,
                        false,
                        max,
                    ) {
                        Err(e) => Some(e),
                        Ok(_) => None,
                    }
                },
            }
        },
    }
}

/// The delegations after the nomination delegation at `i` was lowered by
/// `amount`: removed where nothing is left.
pub open spec fn nomination_lowered(
    ds: Seq<BondInfoDelegatorView>,
    i: int,
    amount: Balance,
) -> Seq<BondInfoDelegatorView> {
    if ds[i].amount - amount == 0 {
        ds.remove(i)
    } else {
        ds.update(i, with_amount(ds[i], (ds[i].amount - amount) as u128))
    }
}

impl MultiAssetDelegation {
    /// Schedules a reduction by `amount` of the nomination delegation of
    /// `who` to `operator`; returns the round from which it can be executed.
    pub fn process_schedule_delegator_nomination_unstake(
        &mut self,
        who: AccountId,
        operator: AccountId,
        amount: Balance,
        blueprint_selection: DelegatorBlueprintSelection,
    ) -> (r: Result<RoundIndex, Error>)
        requires
            old(self).current_round + old(self).config.delegation_bond_less_delay <= u32::MAX,
        ensures
            ({
                let dels = old(self).delegators@;
                let m = dels[who];
                let e = schedule_nomination_unstake_error(
                    m,
                    operator,
                    amount,
                    old(self).config.max_unstake_requests,
                );
                let checks = if amount == 0 {
                    Some(Error::InvalidAmount)
                } else if !old(self).operators@.contains_key(operator) {
                    Some(Error::NotAnOperator)
                } else if !dels.contains_key(who) {
                    Some(Error::NotDelegator)
                } else {
                    e
                };
                &&& checks is Some ==> r == Err::<RoundIndex, Error>(checks->0)
                &&& checks is None ==> r == Ok::<RoundIndex, Error>(
                    (old(self).current_round + old(self).config.delegation_bond_less_delay) as u32,
                )
                &&& r is Err ==> final(self).same_state(old(self))
                &&& r is Ok ==> {
                    &&& final(self).delegators@ == dels.insert(
                        who,
                        DelegatorMetadataView {
                            delegator_unstake_requests: m.delegator_unstake_requests.push(
                                unstake_request(
                                    operator,
                                    Asset::Custom(0),
                                    amount,
                                    old(self).current_round,
                                    blueprint_selection@,
                                    true,
                                ),
                            ),
                            ..m
                        },
                    )
                    &&& final(self).keeps_all_but_delegators(old(self))
                    &&& same_ledger(final(self).ledger, old(self).ledger)
                    &&& final(self).events@ == old(self).events@
                }
            }),
    {
        if amount == 0 {
            return Err(Error::InvalidAmount);
        }
        if !self.is_operator(operator) {
            return Err(Error::NotAnOperator);
        }
        let max = self.config.max_unstake_requests;
        let round = self.current_round;
        match self.delegators.get(&who) {
            None => {
                return Err(Error::NotDelegator);
            },
            Some(m) => {
                let current = match find_nomination_delegation(&m.delegations, operator)? {
                    None => {
                        return Err(Error::NoActiveDelegation);
                    },
                    Some((_, a)) => a,
                };
                let pending = pending_unstake(
                    &m.delegator_unstake_requests,
                    operator,
                    Asset::Custom(0),
                    true,
                );
                if current.saturating_sub(pending) < amount {
                    return Err(Error::InsufficientBalance);
                }
                if m.delegator_unstake_requests.len() >= max as usize {
                    return Err(Error::MaxUnstakeRequestsExceeded);
                }
            },
        }
        let mut m = self.delegators.remove(&who).unwrap();
        let _ = create_unstake_request(
            &mut m,
            operator,
            Asset::Custom(0),
            amount,
            blueprint_selection,
            true,
            round,
            max,
        );
        self.delegators.insert(who, m);
        Ok(self.current_round + self.config.delegation_bond_less_delay)
    }

    /// `schedule_nomination_unstake`: schedules the reduction and reports
    /// when it can be executed.
    pub fn schedule_nomination_unstake(
        &mut self,
        who: AccountId,
        operator: AccountId,
        amount: Balance,
        blueprint_selection: DelegatorBlueprintSelection,
    ) -> (r: Result<(), Error>)
        requires
            old(self).current_round + old(self).config.delegation_bond_less_delay <= u32::MAX,
        ensures
            ({
                let dels = old(self).delegators@;
                let m = dels[who];
                let e = schedule_nomination_unstake_error(
                    m,
                    operator,
                    amount,
                    old(self).config.max_unstake_requests,
                );
                let when = (old(self).current_round
                    + old(self).config.delegation_bond_less_delay) as u32;
                &&& r is Ok <==> amount != 0 && old(self).operators@.contains_key(operator)
                    && dels.contains_key(who) && e is None
                &&& r is Err ==> final(self).same_state(old(self))
                &&& r is Ok ==> {
                    &&& final(self).delegators@ == dels.insert(
                        who,
                        DelegatorMetadataView {
                            delegator_unstake_requests: m.delegator_unstake_requests.push(
                                unstake_request(
                                    operator,
                                    Asset::Custom(0),
                                    amount,
                                    old(self).current_round,
                                    blueprint_selection@,
                                    true,
                                ),
                            ),
                            ..m
                        },
                    )
                    &&& final(self).keeps_all_but_delegators(old(self))
                    &&& same_ledger(final(self).ledger, old(self).ledger)
                    &&& final(self).events@ == old(self).events@.push(
                        Event::NominationUnstakeScheduled { who, operator, amount, when },
                    )
                }
            }),
    {
        let when = self.process_schedule_delegator_nomination_unstake(
            who,
            operator,
            amount,
            blueprint_selection,
        )?;
        self.deposit_event(Event::NominationUnstakeScheduled { who, operator, amount, when });
        Ok(())
    }

    /// Cancels the first nomination unstake request of `who` to `operator`
    /// and returns it.
    pub fn process_cancel_delegator_nomination_unstake(
        &mut self,
        who: AccountId,
        operator: AccountId,
    ) -> (r: Result<BondLessRequest, Error>)
        ensures
            ({
                let dels = old(self).delegators@;
                let m = dels[who];
                let k = first_match(m.delegator_unstake_requests, nomination_unstake_of(operator));
                &&& !dels.contains_key(who) ==> r == Err::<BondLessRequest, Error>(
                    Error::NotDelegator,
                )
                &&& dels.contains_key(who) && k is None ==> r == Err::<BondLessRequest, Error>(
                    Error::NoBondLessRequest,
                )
                &&& r is Ok <==> dels.contains_key(who) && k is Some
                &&& r is Err ==> final(self).same_state(old(self))
                &&& r is Ok ==> {
                    &&& r->Ok_0@ == m.delegator_unstake_requests[k->0]
                    &&& final(self).delegators@ == dels.insert(
                        who,
                        DelegatorMetadataView {
                            delegator_unstake_requests: m.delegator_unstake_requests.remove(k->0),
                            ..m
                        },
                    )
                    &&& final(self).keeps_all_but_delegators(old(self))
                    &&& same_ledger(final(self).ledger, old(self).ledger)
                    &&& final(self).events@ == old(self).events@
                }
            }),
    {
        let idx = match self.delegators.get(&who) {
            None => {
                return Err(Error::NotDelegator);
            },
            Some(m) => match find_request(
                &m.delegator_unstake_requests,
                operator,
                Asset::Custom(0),
                0,
                true,
            ) {
                None => {
                    return Err(Error::NoBondLessRequest);
                },
                Some(i) => i,
            },
        };
        let mut m = self.delegators.remove(&who).unwrap();
        let ghost m0 = m@;
        let request = m.delegator_unstake_requests.remove(idx);
        proof {
            assert(m@.delegator_unstake_requests =~= m0.delegator_unstake_requests.remove(
                idx as int,
            ));
        }
        self.delegators.insert(who, m);
        Ok(request)
    }

    /// `cancel_nomination_unstake`: cancels the request and reports it.
    pub fn cancel_nomination_unstake(&mut self, who: AccountId, operator: AccountId) -> (r: Result<
        (),
        Error,
    >)
        ensures
            ({
                let dels = old(self).delegators@;
                let m = dels[who];
                let k = first_match(m.delegator_unstake_requests, nomination_unstake_of(operator));
                &&& r is Ok <==> dels.contains_key(who) && k is Some
                &&& r is Err ==> final(self).same_state(old(self))
                &&& r is Ok ==> {
                    &&& final(self).delegators@ == dels.insert(
                        who,
                        DelegatorMetadataView {
                            delegator_unstake_requests: m.delegator_unstake_requests.remove(k->0),
                            ..m
                        },
                    )
                    &&& final(self).keeps_all_but_delegators(old(self))
                    &&& same_ledger(final(self).ledger, old(self).ledger)
                    &&& final(self).events@ == old(self).events@.push(
                        Event::NominationUnstakeCancelled {
                            who,
                            operator,
                            amount: m.delegator_unstake_requests[k->0].amount,
                        },
                    )
                }
            }),
    {
        let request = self.process_cancel_delegator_nomination_unstake(who, operator)?;
        self.deposit_event(
            Event::NominationUnstakeCancelled { who, operator, amount: request.amount },
        );
        Ok(())
    }
}

impl MultiAssetDelegation {
    /// Executes the first nomination unstake request of `who` to `operator`:
    /// lowers the nomination delegation and the operator's bond, and sets the
    /// delegation lock to the total of the nomination delegations left (or
    /// removes it where none is left). Returns the amount.
    pub fn process_execute_delegator_nomination_unstake(
        &mut self,
        who: AccountId,
        operator: AccountId,
    ) -> (r: Result<Balance, Error>)
        ensures
            ({
                let dels = old(self).delegators@;
                let ops = old(self).operators@;
                let m = dels[who];
                let qs = m.delegator_unstake_requests;
                let ds = m.delegations;
                let e = execute_nomination_unstake_error(
                    m,
                    ops,
                    operator,
                    who,
                    old(self).current_round,
                    old(self).config.delegation_bond_less_delay,
                    old(self).config.max_delegations,
                );
                let k = first_match(qs, nomination_unstake_of(operator))->0;
                let i = first_match(ds, nomination_to(operator))->0;
                let amount = qs[k].amount;
                let left = super::types::nomination_sum(nomination_lowered(ds, i, amount));
                &&& !dels.contains_key(who) ==> r == Err::<Balance, Error>(Error::NotDelegator)
                &&& dels.contains_key(who) && e is Some ==> r == Err::<Balance, Error>(e->0)
                &&& r is Ok <==> dels.contains_key(who) && e is None
                &&& r is Err ==> final(self).same_state(old(self))
                &&& r is Ok ==> {
                    &&& r == Ok::<Balance, Error>(amount)
                    &&& final(self).delegators@ == dels.insert(
                        who,
                        DelegatorMetadataView {
                            delegations: nomination_lowered(ds, i, amount),
                            delegator_unstake_requests: qs.remove(k),
                            ..m
                        },
                    )
                    &&& final(self).operators@ == ops.insert(
                        operator,
                        operator_bond_changed(
                            ops[operator],
                            who,
                            Asset::Custom(0),
                            amount,
                            false,
                            old(self).config.max_delegations,
                        )->Ok_0,
                    )
                    &&& final(self).ledger.locks@ == if left == 0 {
                        old(self).ledger.locks@.remove(who)
                    } else {
                        old(self).ledger.locks@.insert(who, sat(left) as u128)
                    }
                    &&& final(self).ledger.free@ == old(self).ledger.free@
                    &&& final(self).ledger.reserved@ == old(self).ledger.reserved@
                    &&& final(self).ledger.assets@ == old(self).ledger.assets@
                    &&& final(self).ledger.tokens@ == old(self).ledger.tokens@
                    &&& final(self).same_settings(old(self))
                    &&& final(self).at_stake@ == old(self).at_stake@
                    &&& final(self).events@ == old(self).events@
                }
            }),
    {
        let round = self.current_round;
        let delay = self.config.delegation_bond_less_delay;
        let max = self.config.max_delegations;
        let (k, amount, i, current) = match self.delegators.get(&who) {
            None => {
                return Err(Error::NotDelegator);
            },
            Some(m) => {
                let k = match find_request(
                    &m.delegator_unstake_requests,
                    operator,
                    Asset::Custom(0),
                    0,
                    true,
                ) {
                    None => {
                        return Err(Error::NoBondLessRequest);
                    },
                    Some(k) => k,
                };
                if m.delegator_unstake_requests[k].requested_round as u64 + delay as u64 > round as u64 {
                    return Err(Error::BondLessNotReady);
                }
                let amount = m.delegator_unstake_requests[k].amount;
                let found = find_nomination_delegation(&m.delegations, operator);
                let (i, current) = match found {
                    Err(e) => {
                        return Err(e);
                    },
                    Ok(None) => {
                        return Err(Error::NoActiveDelegation);
                    },
                    Ok(Some(x)) => x,
                };
                if current < amount {
                    return Err(Error::InsufficientBalance);
                }
                assert(current == m@.delegations[i as int].amount);
                assert(amount == m@.delegator_unstake_requests[k as int].amount);
                (k, amount, i, current)
            },
        };
        if !self.is_operator(operator) {
            return Err(Error::NotAnOperator);
        }
        let mut om = self.operators.remove(&operator).unwrap();
        let ores = change_operator_bond(&mut om, who, Asset::Custom(0), amount, false, max);
        self.operators.insert(operator, om);
        if let Err(e) = ores {
            proof {
                assert(self.operators@ =~= old(self).operators@);
            }
            return Err(e);
        }
        let mut m = self.delegators.remove(&who).unwrap();
        let ghost m0 = m@;
        assert(m0.delegations[i as int].amount == current);
        assert(m.delegations@[i as int]@ == m0.delegations[i as int]);
        let rest = m.delegations[i].amount - amount;
        m.delegator_unstake_requests.remove(k);
        if rest == 0 {
            m.delegations.remove(i);
            proof {
                assert(m@.delegations =~= m0.delegations.remove(i as int));
            }
        } else {
            set_delegation_amount(&mut m.delegations, i, rest);
        }
        let left = m.total_nomination_delegations();
        proof {
            super::types::lemma_nomination_sum_nonneg(m@.delegations);
        }
        if left == 0 {
            self.ledger.remove_lock(who);
        } else {
            self.ledger.set_lock(who, left);
        }
        proof {
            assert(m@.delegator_unstake_requests =~= m0.delegator_unstake_requests.remove(
                k as int,
            ));
            assert(m@ == DelegatorMetadataView {
                delegations: nomination_lowered(m0.delegations, i as int, amount),
                delegator_unstake_requests: m0.delegator_unstake_requests.remove(k as int),
                ..m0
            });
        }
        self.delegators.insert(who, m);
        Ok(amount)
    }

    /// `execute_nomination_unstake`: executes the request and reports it.
    pub fn execute_nomination_unstake(&mut self, who: AccountId, operator: AccountId) -> (r: Result<
        (),
        Error,
    >)
        ensures
            ({
                let dels = old(self).delegators@;
                let ops = old(self).operators@;
                let m = dels[who];
                let qs = m.delegator_unstake_requests;
                let ds = m.delegations;
                let e = execute_nomination_unstake_error(
                    m,
                    ops,
                    operator,
                    who,
                    old(self).current_round,
                    old(self).config.delegation_bond_less_delay,
                    old(self).config.max_delegations,
                );
                let k = first_match(qs, nomination_unstake_of(operator))->0;
                let i = first_match(ds, nomination_to(operator))->0;
                let amount = qs[k].amount;
                let left = super::types::nomination_sum(nomination_lowered(ds, i, amount));
                &&& !dels.contains_key(who) ==> r == Err::<(), Error>(Error::NotDelegator)
                &&& dels.contains_key(who) && e is Some ==> r == Err::<(), Error>(e->0)
                &&& r is Ok <==> dels.contains_key(who) && e is None
                &&& r is Err ==> final(self).same_state(old(self))
                &&& r is Ok ==> {
                    &&& final(self).delegators@ == dels.insert(
                        who,
                        DelegatorMetadataView {
                            delegations: nomination_lowered(ds, i, amount),
                            delegator_unstake_requests: qs.remove(k),
                            ..m
                        },
                    )
                    &&& final(self).operators@ == ops.insert(
                        operator,
                        operator_bond_changed(
                            ops[operator],
                            who,
                            Asset::Custom(0),
                            amount,
                            false,
                            old(self).config.max_delegations,
                        )->Ok_0,
                    )
                    &&& final(self).ledger.locks@ == if left == 0 {
                        old(self).ledger.locks@.remove(who)
                    } else {
                        old(self).ledger.locks@.insert(who, sat(left) as u128)
                    }
                    &&& final(self).ledger.free@ == old(self).ledger.free@
                    &&& final(self).ledger.reserved@ == old(self).ledger.reserved@
                    &&& final(self).ledger.assets@ == old(self).ledger.assets@
                    &&& final(self).ledger.tokens@ == old(self).ledger.tokens@
                    &&& final(self).same_settings(old(self))
                    &&& final(self).at_stake@ == old(self).at_stake@
                    &&& final(self).events@ == old(self).events@.push(
                        Event::NominationUnstakeExecuted { who, operator, amount },
                    )
                }
            }),
    {
        let amount = self.process_execute_delegator_nomination_unstake(who, operator)?;
        self.deposit_event(Event::NominationUnstakeExecuted { who, operator, amount });
        Ok(())
    }
}

} // verus!
