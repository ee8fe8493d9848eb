//! Slashing an operator and the delegators that back it for a service.
use super::delegate::{set_delegation_amount, with_amount};
use super::deposit::{asset_move_ok, asset_moved, token_move_ok, token_moved};
use super::pallet::{DelegationConfig, Error, Event, MultiAssetDelegation};
use super::types::{
    AccountId, Balance, BlueprintId, BondInfoDelegator, BondInfoDelegatorView, DelegatorBond,
    DelegatorMetadataView, OperatorMetadataView, OperatorStatus,
};
use crate::asset::Asset;
use crate::ledger::{bal, moved, AssetHolder, TokenHolder};
use crate::percent::{clamped_percent, percent_mul_floor};
use crate::seq_search::{first_match, lemma_first_match};
use vstd::prelude::*;

verus! {

/// A slash that a service reported against an operator, to be applied.
#[derive(Clone, Copy, Debug, PartialEq, Eq)]
pub struct UnappliedSlash {
    /// The operator to slash.
    pub operator: AccountId,
    /// The part of the stakes to slash, in percent (more than a hundred
    /// counts as a hundred).
    pub slash_percent: u8,
    /// The service that reported the slash.
    pub service_id: u64,
    /// The blueprint of that service.
    pub blueprint_id: BlueprintId,
    /// The era of the slash.
    pub era: u32,
}

/// The part of `amount` that a slash of `percent` takes.
pub open spec fn slash_part(amount: Balance, percent: u8) -> int {
    amount * clamped_percent(percent) / 100
}

/// A delegation to `operator` whose selection covers `blueprint`.
pub open spec fn slashable(operator: AccountId, blueprint: BlueprintId) -> spec_fn(
    BondInfoDelegatorView,
) -> bool {
    |d: BondInfoDelegatorView| d.operator == operator && d.blueprint_selection.covers(blueprint)
}

/// What slashing a delegator reads and changes: the delegators, the custom
/// asset and ERC20 balances, and the events.
pub type SlashView = (
    Map<AccountId, DelegatorMetadataView>,
    Map<AssetHolder, u128>,
    Map<TokenHolder, u128>,
    Seq<Event>,
);

/// Slashing `delegator` for `slash`: the state afterwards and the result.
/// The slashed amount goes to the slash recipient (a custom asset transfer
/// that fails is ignored; a failed ERC20 transfer refuses the slash). Where
/// the delegation is of an ERC20 token, the token contract is alerted;
/// `alert_ok` is its answer, and a refused alert leaves the delegation as it
/// was but keeps the transfer.
pub open spec fn slash_delegator_step(
    s: SlashView,
    cfg: DelegationConfig,
    slash: UnappliedSlash,
    delegator: AccountId,
    alert_ok: bool,
) -> (SlashView, Result<(), Error>) {
    let (dels, assets, tokens, events) = s;
    let m = dels[delegator];
    let found = first_match(m.delegations, slashable(slash.operator, slash.blueprint_id));
    let i = found->0;
    let d = m.delegations[i];
    let amount = slash_part(d.amount, slash.slash_percent) as u128;
    if !dels.contains_key(delegator) {
        (s, Err(Error::NotDelegator))
    } else if found is None {
        (s, Err(Error::NoActiveDelegation))
    } else if !d.is_nomination && d.asset is Erc20 && !token_move_ok(
        tokens,
        d.asset->Erc20_0,
        cfg.pallet_evm_address,
        cfg.slash_recipient_evm_address,
        amount,
    ) {
        (s, Err(Error::ERC20TransferFailed))
    } else {
        let assets1 = if !d.is_nomination && d.asset is Custom && asset_move_ok(
            assets,
            d.asset->Custom_0,
            cfg.pallet_account,
            cfg.slash_recipient,
            amount,
        ) {
            asset_moved(assets, d.asset->Custom_0, cfg.pallet_account, cfg.slash_recipient, amount)
        } else {
            assets
        };
        let tokens1 = if !d.is_nomination && d.asset is Erc20 {
            token_moved(
                tokens,
                d.asset->Erc20_0,
                cfg.pallet_evm_address,
                cfg.slash_recipient_evm_address,
                amount,
            )
        } else {
            tokens
        };
        if d.asset is Erc20 && !alert_ok {
            ((dels, assets1, tokens1, events), Err(Error::SlashAlertFailed))
        } else {
            (
                (
                    dels.insert(
                        delegator,
                        DelegatorMetadataView {
                            delegations: m.delegations.update(
                                i,
                                with_amount(d, (d.amount - amount) as u128),
                            ),
                            ..m
                        },
                    ),
                    assets1,
                    tokens1,
                    events.push(
                        Event::DelegatorSlashed {
                            delegator,
                            amount,
                            asset: d.asset,
                            service_id: slash.service_id,
                            blueprint_id: slash.blueprint_id,
                            era: slash.era,
                        },
                    ),
                ),
                Ok(()),
            )
        }
    }
}

/// The answer of the token contract to the alert for the `k`-th bond.
pub open spec fn alert_at(alerts: Seq<bool>, k: int) -> bool {
    0 <= k < alerts.len() && alerts[k]
}

/// The state after slashing the delegators of the first `n` bonds, in
/// order, whatever each slash results in.
pub open spec fn delegators_slashed(
    s: SlashView,
    cfg: DelegationConfig,
    slash: UnappliedSlash,
    bonds: Seq<DelegatorBond>,
    alerts: Seq<bool>,
    n: int,
) -> SlashView
    decreases n,
{
    if n <= 0 {
        s
    } else {
        slash_delegator_step(
            delegators_slashed(s, cfg, slash, bonds, alerts, n - 1),
            cfg,
            slash,
            bonds[n - 1].delegator,
            alert_at(alerts, n - 1),
        ).0
    }
}

/// The free balance of `who` after `moved` more of it came out of reserve.
pub open spec fn freed(free: Map<AccountId, u128>, who: AccountId, moved_amount: int) -> Map<
    AccountId,
    u128,
> {
    free.insert(
        who,
        (if bal(free, who) + moved_amount > u128::MAX {
            u128::MAX as int
        } else {
            bal(free, who) + moved_amount
        }) as u128,
    )
}

proof fn lemma_slash_part(amount: Balance, percent: u8)
    ensures
        0 <= slash_part(amount, percent) <= amount,
{
    let c = clamped_percent(percent);
    assert(0 <= amount * c / 100 <= amount) by (nonlinear_arith)
        requires
            0 <= c <= 100,
            amount >= 0,
    ;
}

/// The first delegation to `operator` that covers `blueprint`.
fn find_slashable(ds: &Vec<BondInfoDelegator>, operator: AccountId, blueprint: BlueprintId) -> (r:
    Option<usize>)
    ensures
        first_match(ds@.map_values(|d: BondInfoDelegator| d@), slashable(operator, blueprint))
            == match r {
            Some(i) => Some(i as int),
            None => None::<int>,
        },
        r is Some ==> r->0 < ds@.len(),
{
    let ghost p = slashable(operator, blueprint);
    let ghost vs = ds@.map_values(|d: BondInfoDelegator| d@);
    let mut i: usize = 0;
    while i < ds.len()
        invariant
            p == slashable(operator, blueprint),
            vs == ds@.map_values(|d: BondInfoDelegator| d@),
            i <= ds@.len(),
            forall|j: int| 0 <= j < i ==> !p(#[trigger] vs[j]),
        decreases ds@.len() - i,
    {
        assert(ds@[i as int]@ == vs[i as int]);
        if ds[i].operator == operator && ds[i].blueprint_selection.contains(&blueprint) {
            proof {
                lemma_first_match(vs, p, Some(i as int));
            }
            return Some(i);
        }
        i = i + 1;
    }
    proof {
        lemma_first_match(vs, p, None);
    }
    None
}

impl MultiAssetDelegation {
    /// What slashing a delegator reads and changes.
    pub open spec fn slash_view(&self) -> SlashView {
        (self.delegators@, self.ledger.assets@, self.ledger.tokens@, self.events@)
    }

    /// Slashes the first delegation of `delegator` to the slashed operator
    /// whose selection covers the slashed blueprint; `alert_ok` is the answer
    /// of the token contract to the slash alert, where the delegation is of an
    /// ERC20 token.
    pub fn do_slash_delegator(
        &mut self,
        slash: &UnappliedSlash,
        delegator: AccountId,
        alert_ok: bool,
    ) -> (r: Result<(), Error>)
        ensures
            ({
                let step = slash_delegator_step(
                    old(self).slash_view(),
                    old(self).config,
                    *slash,
                    delegator,
                    alert_ok,
                );
                &&& final(self).slash_view() == step.0
                &&& r == step.1
                &&& final(self).ledger.free@ == old(self).ledger.free@
                &&& final(self).ledger.reserved@ == old(self).ledger.reserved@
                &&& final(self).ledger.locks@ == old(self).ledger.locks@
                &&& final(self).operators@ == old(self).operators@
                &&& final(self).same_settings(old(self))
                &&& final(self).at_stake@ == old(self).at_stake@
            }),
    {
        let cfg = self.config;
        let (i, amount0, nomination, asset) = match self.delegators.get(&delegator) {
            None => {
                return Err(Error::NotDelegator);
            },
            Some(m) => match find_slashable(&m.delegations, slash.operator, slash.blueprint_id) {
                None => {
                    return Err(Error::NoActiveDelegation);
                },
                Some(i) => {
                    assert(m.delegations@[i as int]@ == m@.delegations[i as int]);
                    (i, m.delegations[i].amount, m.delegations[i].is_nomination, m.delegations[i].asset)
                },
            },
        };
        let amount = percent_mul_floor(slash.slash_percent, amount0);
        proof {
            lemma_slash_part(amount0, slash.slash_percent);
        }
        if !nomination {
            match asset {
                Asset::Custom(id) => {
                    let _ = self.ledger.asset_transfer(
                        id,
                        cfg.pallet_account,
                        cfg.slash_recipient,
                        amount,
                    );
                },
                Asset::Erc20(address) => {
                    if !self.ledger.token_transfer(
                        address,
                        cfg.pallet_evm_address,
                        cfg.slash_recipient_evm_address,
                        amount,
                    ) {
                        return Err(Error::ERC20TransferFailed);
                    }
                },
            }
        }
        if asset.is_erc20() && !alert_ok {
            return Err(Error::SlashAlertFailed);
        }
        let mut m = self.delegators.remove(&delegator).unwrap();
        set_delegation_amount(&mut m.delegations, i, amount0 - amount);
        self.delegators.insert(delegator, m);
        self.deposit_event(
            Event::DelegatorSlashed {
                delegator,
                amount,
                asset,
                service_id: slash.service_id,
                blueprint_id: slash.blueprint_id,
                era: slash.era,
            },
        );
        Ok(())
    }

    /// Slashes an active operator's stake by the slash's percentage, sends
    /// the slashed amount to the slash recipient, then slashes the delegator
    /// of every bond of the operator in order, whatever each results in.
    /// `alerts` holds the token contracts' answers to the slash alerts, one
    /// per bond (a missing answer is a refusal).
    pub fn do_slash_operator(&mut self, slash: &UnappliedSlash, alerts: &Vec<bool>) -> (r: Result<
        (),
        Error,
    >)
        ensures
            ({
                let ops = old(self).operators@;
                let o = ops[slash.operator];
                let amount = slash_part(o.stake, slash.slash_percent);
                let reserved = bal(old(self).ledger.reserved@, slash.operator);
                let unreserved = if amount <= reserved {
                    amount
                } else {
                    reserved
                };
                let free1 = freed(old(self).ledger.free@, slash.operator, unreserved);
                let recipient = old(self).config.slash_recipient;
                let paid = bal(free1, slash.operator) >= amount && (slash.operator == recipient
                    || bal(free1, recipient) + amount <= u128::MAX);
                let s0 = (
                    old(self).delegators@,
                    old(self).ledger.assets@,
                    old(self).ledger.tokens@,
                    old(self).events@.push(
                        Event::OperatorSlashed {
                            operator: slash.operator,
                            amount: amount as u128,
                            service_id: slash.service_id,
                            blueprint_id: slash.blueprint_id,
                            era: slash.era,
                        },
                    ),
                );
                &&& !ops.contains_key(slash.operator) ==> r == Err::<(), Error>(Error::NotAnOperator)
                &&& ops.contains_key(slash.operator) && o.status != OperatorStatus::Active ==> r
                    == Err::<(), Error>(Error::NotActiveOperator)
                &&& r is Ok <==> ops.contains_key(slash.operator) && o.status
                    == OperatorStatus::Active
                &&& r is Err ==> final(self).same_state(old(self))
                &&& r is Ok ==> {
                    &&& final(self).operators@ == ops.insert(
                        slash.operator,
                        OperatorMetadataView { stake: (o.stake - amount) as u128, ..o },
                    )
                    &&& final(self).ledger.reserved@ == old(self).ledger.reserved@.insert(
                        slash.operator,
                        (reserved - unreserved) as u128,
                    )
                    &&& final(self).ledger.free@ == if paid {
                        moved(free1, slash.operator, recipient, amount as u128)
                    } else {
                        free1
                    }
                    &&& final(self).ledger.locks@ == old(self).ledger.locks@
                    &&& final(self).slash_view() == delegators_slashed(
                        s0,
                        old(self).config,
                        *slash,
                        o.delegations,
                        alerts@,
                        o.delegations.len() as int,
                    )
                    &&& final(self).same_settings(old(self))
                    &&& final(self).at_stake@ == old(self).at_stake@
                }
            }),
    {
        let operator = slash.operator;
        if !self.is_operator(operator) {
            return Err(Error::NotAnOperator);
        }
        if !self.is_operator_active(operator) {
            return Err(Error::NotActiveOperator);
        }
        let (stake, bonds) = match self.operators.get(&operator) {
            None => {
                return Err(Error::NotAnOperator);
            },
            Some(om) => (om.stake, super::types::copy_bonds(&om.delegations)),
        };
        let amount = percent_mul_floor(slash.slash_percent, stake);
        proof {
            lemma_slash_part(stake, slash.slash_percent);
        }
        let mut om = self.operators.remove(&operator).unwrap();
        om.stake = stake - amount;
        self.operators.insert(operator, om);
        let _ = self.ledger.unreserve(operator, amount);
        let recipient = self.config.slash_recipient;
        let _ = self.ledger.transfer(operator, recipient, amount);
        self.deposit_event(
            Event::OperatorSlashed {
                operator,
                amount,
                service_id: slash.service_id,
                blueprint_id: slash.blueprint_id,
                era: slash.era,
            },
        );
        let ghost s0 = self.slash_view();
        let ghost after_op = *self;
        let mut k: usize = 0;
        while k < bonds.len()
            invariant
                k <= bonds@.len(),
                self.slash_view() == delegators_slashed(
                    s0,
                    self.config,
                    *slash,
                    bonds@,
                    alerts@,
                    k as int,
                ),
                self.config == after_op.config,
                self.current_round == after_op.current_round,
                self.block_number == after_op.block_number,
                self.operators@ == after_op.operators@,
                self.at_stake@ == after_op.at_stake@,
                self.ledger.free@ == after_op.ledger.free@,
                self.ledger.reserved@ == after_op.ledger.reserved@,
                self.ledger.locks@ == after_op.ledger.locks@,
            decreases bonds@.len() - k,
        {
            let alert = k < alerts.len() && alerts[k];
            let _ = self.do_slash_delegator(slash, bonds[k].delegator, alert);
            k = k + 1;
        }
        Ok(())
    }

    /// `slash_operator`: applies a slash to an operator and its delegators.
    pub fn slash_operator(&mut self, slash: &UnappliedSlash, alerts: &Vec<bool>) -> (r: Result<
        (),
        Error,
    >)
        ensures
            ({
                let ops = old(self).operators@;
                let o = ops[slash.operator];
                let amount = slash_part(o.stake, slash.slash_percent);
                let reserved = bal(old(self).ledger.reserved@, slash.operator);
                let unreserved = if amount <= reserved {
                    amount
                } else {
                    reserved
                };
                let free1 = freed(old(self).ledger.free@, slash.operator, unreserved);
                let recipient = old(self).config.slash_recipient;
                let paid = bal(free1, slash.operator) >= amount && (slash.operator == recipient
                    || bal(free1, recipient) + amount <= u128::MAX);
                let s0 = (
                    old(self).delegators@,
                    old(self).ledger.assets@,
                    old(self).ledger.tokens@,
                    old(self).events@.push(
                        Event::OperatorSlashed {
                            operator: slash.operator,
                            amount: amount as u128,
                            service_id: slash.service_id,
                            blueprint_id: slash.blueprint_id,
                            era: slash.era,
                        },
                    ),
                );
                &&& !ops.contains_key(slash.operator) ==> r == Err::<(), Error>(Error::NotAnOperator)
                &&& ops.contains_key(slash.operator) && o.status != OperatorStatus::Active ==> r
                    == Err::<(), Error>(Error::NotActiveOperator)
                &&& r is Ok <==> ops.contains_key(slash.operator) && o.status
                    == OperatorStatus::Active
                &&& r is Err ==> final(self).same_state(old(self))
                &&& r is Ok ==> {
                    &&& final(self).operators@ == ops.insert(
                        slash.operator,
                        OperatorMetadataView { stake: (o.stake - amount) as u128, ..o },
                    )
                    &&& final(self).ledger.reserved@ == old(self).ledger.reserved@.insert(
                        slash.operator,
                        (reserved - unreserved) as u128,
                    )
                    &&& final(self).ledger.free@ == if paid {
                        moved(free1, slash.operator, recipient, amount as u128)
                    } else {
                        free1
                    }
                    &&& final(self).ledger.locks@ == old(self).ledger.locks@
                    &&& final(self).slash_view() == delegators_slashed(
                        s0,
                        old(self).config,
                        *slash,
                        o.delegations,
                        alerts@,
                        o.delegations.len() as int,
                    )
                    &&& final(self).same_settings(old(self))
                    &&& final(self).at_stake@ == old(self).at_stake@
                }
            }),
    {
        self.do_slash_operator(slash, alerts)
    }
}

} // verus!
