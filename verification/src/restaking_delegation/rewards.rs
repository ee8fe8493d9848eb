//! Splitting the reward of an operator for a round between the operator and
//! its delegators.
use super::types::{
    AccountId, Balance, BondWithAutoCompound, DelayedPayout, OperatorSnapshot,
    OperatorSnapshotView, RewardPayment, RoundIndex,
};
use crate::keyed_map::KeyedMap;
use crate::percent::{
    billion, clamped_parts, clamped_percent, perbill_from_rational, perbill_mul, perbill_of,
    perbill_ratio, percent_mul_ceil,
};
use vstd::prelude::*;

verus! {

/// What a delegator is paid for a round, and the part of it that goes back
/// into its delegation.
#[derive(Clone, Copy, Debug, PartialEq, Eq)]
pub struct DelegatorPayout {
    pub delegator: AccountId,
    pub amount: Balance,
    pub compounded: Balance,
}

/// What an operator and its delegators are paid for a round.
#[derive(Debug)]
pub struct OperatorPayout {
    pub operator: AccountId,
    pub operator_reward: Balance,
    pub delegators: Vec<DelegatorPayout>,
}

/// The abstract value of an [`OperatorPayout`].
pub struct OperatorPayoutView {
    pub operator: AccountId,
    pub operator_reward: Balance,
    pub delegators: Seq<DelegatorPayout>,
}

impl View for OperatorPayout {
    type V = OperatorPayoutView;

    open spec fn view(&self) -> OperatorPayoutView {
        OperatorPayoutView {
            operator: self.operator,
            operator_reward: self.operator_reward,
            delegators: self.delegators@,
        }
    }
}

/// The part of `amount` that is compounded at `percent`: rounded up.
pub open spec fn compounded_part(amount: Balance, percent: u8) -> int {
    (amount * clamped_percent(percent) + 99) / 100
}

/// The share of `amt_due` owed to a delegation: its part of `total`.
pub open spec fn delegator_due(d: BondWithAutoCompound, total: Balance, amt_due: Balance) -> int {
    perbill_of(perbill_ratio(d.amount, total) as u32, amt_due)
}

/// The payouts of the first `n` delegations that are owed something, in
/// order.
pub open spec fn delegator_payouts(
    ds: Seq<BondWithAutoCompound>,
    total: Balance,
    amt_due: Balance,
    n: int,
) -> Seq<DelegatorPayout>
    decreases n,
{
    if n <= 0 {
        Seq::empty()
    } else {
        let d = ds[n - 1];
        let due = delegator_due(d, total, amt_due);
        delegator_payouts(ds, total, amt_due, n - 1) + if due != 0 {
            seq![
                DelegatorPayout {
                    delegator: d.owner,
                    amount: due as u128,
                    compounded: compounded_part(due as u128, d.auto_compound) as u128,
                },
            ]
        } else {
            Seq::<DelegatorPayout>::empty()
        }
    }
}

/// The amounts of `ps`, added up.
pub open spec fn payout_sum(ps: Seq<DelegatorPayout>) -> int
    decreases ps.len(),
{
    if ps.len() == 0 {
        0
    } else {
        payout_sum(ps.drop_last()) + ps.last().amount
    }
}

/// The amounts of the first `n` delegations, added up.
pub open spec fn bond_sum(ds: Seq<BondWithAutoCompound>, n: int) -> int
    decreases n,
{
    if n <= 0 {
        0
    } else {
        bond_sum(ds, n - 1) + ds[n - 1].amount
    }
}

proof fn lemma_bond_sum_nonneg(ds: Seq<BondWithAutoCompound>, n: int)
    ensures
        bond_sum(ds, n) >= 0,
    decreases n,
{
    if n > 0 {
        lemma_bond_sum_nonneg(ds, n - 1);
    }
}

/// A share of a delegation of `b` out of `total` is at most its exact part
/// of `amt_due` plus one unit.
proof fn lemma_due_bound(d: BondWithAutoCompound, total: Balance, amt_due: Balance)
    requires
        total > 0,
        d.amount <= total,
    ensures
        0 <= delegator_due(d, total, amt_due) <= amt_due,
        total * delegator_due(d, total, amt_due) <= amt_due * d.amount + total,
{
    let b = d.amount as int;
    let t = total as int;
    let a = amt_due as int;
    let r = perbill_ratio(d.amount, total);
    assert(r == billion() * b / t);
    assert(0 <= r <= billion() && t * r <= billion() * b) by (nonlinear_arith)
        requires
            r == 1_000_000_000 * b / t,
            t > 0,
            0 <= b <= t,
    ;
    assert((r as u32) as int == r);
    assert(clamped_parts(r as u32) == r);
    let q = a * r / billion();
    let due = delegator_due(d, total, amt_due);
    assert(0 <= q && billion() * q <= a * r) by (nonlinear_arith)
        requires
            q == a * r / 1_000_000_000,
            a >= 0,
            r >= 0,
    ;
    assert(q <= due <= q + 1);
    assert(due <= a) by {
        if r == billion() {
            assert((a * r) % billion() == 0 && q == a) by (nonlinear_arith)
                requires
                    r == 1_000_000_000,
                    q == a * r / 1_000_000_000,
            ;
        } else if a > 0 {
            assert(q <= a - 1) by (nonlinear_arith)
                requires
                    0 <= r < 1_000_000_000,
                    a > 0,
                    q == a * r / 1_000_000_000,
            ;
        } else {
            assert(a * r == 0 && q == 0 && (a * r) % billion() == 0) by (nonlinear_arith)
                requires
                    a == 0,
                    q == a * r / 1_000_000_000,
            ;
        }
    }
    assert(t * due <= a * b + t) by (nonlinear_arith)
        requires
            t > 0,
            a >= 0,
            t * r <= 1_000_000_000 * b,
            1_000_000_000 * q <= a * r,
            due <= q + 1,
    ;
}

proof fn lemma_payouts_bounded(ds: Seq<BondWithAutoCompound>, total: Balance, amt_due: Balance, n: int)
    requires
        total > 0,
        0 <= n <= ds.len(),
        bond_sum(ds, n) <= total,
    ensures
        total * payout_sum(delegator_payouts(ds, total, amt_due, n)) <= amt_due * bond_sum(ds, n)
            + total * n,
    decreases n,
{
    if n > 0 {
        let d = ds[n - 1];
        lemma_bond_sum_nonneg(ds, n - 1);
        lemma_payouts_bounded(ds, total, amt_due, n - 1);
        lemma_due_bound(d, total, amt_due);
        let prev = delegator_payouts(ds, total, amt_due, n - 1);
        let due = delegator_due(d, total, amt_due);
        let cur = delegator_payouts(ds, total, amt_due, n);
        let pp = payout_sum(prev);
        if due != 0 {
            let p = DelegatorPayout {
                delegator: d.owner,
                amount: due as u128,
                compounded: compounded_part(due as u128, d.auto_compound) as u128,
            };
            assert(cur == prev + seq![p]);
            assert(cur.drop_last() =~= prev);
            assert(cur.last() == p);
            assert(payout_sum(cur) == pp + due);
        } else {
            assert(cur =~= prev);
        }
        let bs = bond_sum(ds, n - 1);
        assert(total * (pp + due) == total * pp + total * due) by (nonlinear_arith);
        assert(amt_due * (bs + d.amount) == amt_due * bs + amt_due * d.amount) by (nonlinear_arith);
        assert(total * n == total * (n - 1) + total) by (nonlinear_arith);
    }
}

/// The delegators of an operator are together paid at most the amount due
/// plus one unit per delegation, where the delegations add up to at most the
/// operator's total: each share is its part of the amount rounded to the
/// nearest unit, so each can exceed its exact part by less than one.
pub proof fn law_delegator_payouts_bounded(
    ds: Seq<BondWithAutoCompound>,
    total: Balance,
    amt_due: Balance,
)
    requires
        total > 0,
        bond_sum(ds, ds.len() as int) <= total,
    ensures
        payout_sum(delegator_payouts(ds, total, amt_due, ds.len() as int)) <= amt_due + ds.len(),
{
    let n = ds.len() as int;
    lemma_payouts_bounded(ds, total, amt_due, n);
    lemma_bond_sum_nonneg(ds, n);
    let ps = payout_sum(delegator_payouts(ds, total, amt_due, n));
    let bs = bond_sum(ds, n);
    assert(amt_due * bs <= amt_due * total) by (nonlinear_arith)
        requires
            0 <= bs <= total,
            amt_due >= 0,
    ;
    assert(ps <= amt_due + n) by (nonlinear_arith)
        requires
            total > 0,
            total * ps <= amt_due * total + total * n,
    ;
}

/// The payout of `operator` with `pts` of the round's `total_points` points.
/// Its share of the staking reward goes to it alone without delegations;
/// else it takes its commission on its share of the issuance first, and the
/// rest is split by stake between its bond and its delegations.
pub open spec fn operator_payout(
    operator: AccountId,
    pts: u32,
    total_points: u32,
    s: OperatorSnapshotView,
    p: DelayedPayout,
) -> OperatorPayoutView {
    let pct_due = perbill_ratio(pts as u128, total_points as u128) as u32;
    let total_paid = perbill_of(pct_due, p.total_staking_reward);
    if s.delegations.len() == 0 {
        OperatorPayoutView { operator, operator_reward: total_paid as u128, delegators: Seq::empty() }
    } else {
        let operator_issuance = perbill_of(p.operator_commission, p.round_issuance);
        let commission = perbill_of(pct_due, operator_issuance as u128);
        let amt_due = if total_paid > commission {
            total_paid - commission
        } else {
            0
        };
        let own = perbill_of(perbill_ratio(s.bond, s.total) as u32, amt_due as u128);
        OperatorPayoutView {
            operator,
            operator_reward: if own + commission > u128::MAX {
                u128::MAX
            } else {
                (own + commission) as u128
            },
            delegators: delegator_payouts(
                s.delegations,
                s.total,
                amt_due as u128,
                s.delegations.len() as int,
            ),
        }
    }
}

/// The payouts of the delegations that are owed something of `amt_due`.
fn pay_delegators(ds: &Vec<BondWithAutoCompound>, total: Balance, amt_due: Balance) -> (r: Vec<
    DelegatorPayout,
>)
    ensures
        r@ == delegator_payouts(ds@, total, amt_due, ds@.len() as int),
{
    let mut r: Vec<DelegatorPayout> = Vec::new();
    let mut i: usize = 0;
    while i < ds.len()
        invariant
            i <= ds@.len(),
            r@ == delegator_payouts(ds@, total, amt_due, i as int),
        decreases ds@.len() - i,
    {
        let d = ds[i];
        let percent = perbill_from_rational(d.amount, total);
        let due = perbill_mul(percent, amt_due);
        if due != 0 {
            let compounded = percent_mul_ceil(d.auto_compound, due);
            r.push(DelegatorPayout { delegator: d.owner, amount: due, compounded });
        }
        proof {
            assert(delegator_payouts(ds@, total, amt_due, i as int + 1) =~= r@);
        }
        i = i + 1;
    }
    r
}

/// One step of paying a round's rewards: `total_points` are the points of
/// the round, and `next` the next operator still to be paid, with its points
/// and its snapshot. Nothing is left to pay where the round has no points or
/// no operator is left; an operator without points is passed over; else the
/// operator and its delegators are paid their shares.
pub fn pay_one_operator_reward(
    total_points: u32,
    next: Option<(AccountId, u32, OperatorSnapshot)>,
    payout_info: &DelayedPayout,
) -> (r: (RewardPayment, Option<OperatorPayout>))
    ensures
        total_points == 0 ==> r.0 == RewardPayment::Finished && r.1 is None,
        total_points != 0 ==> match next {
            None => r.0 == RewardPayment::Finished && r.1 is None,
            Some((operator, pts, s)) => if pts == 0 {
                r.0 == RewardPayment::Skipped && r.1 is None
            } else {
                &&& r.0 == RewardPayment::Paid
                &&& r.1 matches Some(p) && p@ == operator_payout(
                    operator,
                    pts,
                    total_points,
                    s@,
                    *payout_info,
                )
            },
        },
{
    if total_points == 0 {
        return (RewardPayment::Finished, None);
    }
    let operator_issuance = perbill_mul(payout_info.operator_commission, payout_info.round_issuance);
    match next {
        None => (RewardPayment::Finished, None),
        Some((operator, pts, state)) => {
            if pts == 0 {
                return (RewardPayment::Skipped, None);
            }
            let pct_due = perbill_from_rational(pts as u128, total_points as u128);
            let total_paid = perbill_mul(pct_due, payout_info.total_staking_reward);
            if state.delegations.len() == 0 {
                let p = OperatorPayout { operator, operator_reward: total_paid, delegators: Vec::new() };
                proof {
                    assert(p@.delegators =~= Seq::<DelegatorPayout>::empty());
                }
                (RewardPayment::Paid, Some(p))
            } else {
                let commission = perbill_mul(pct_due, operator_issuance);
                let amt_due = total_paid.saturating_sub(commission);
                let operator_pct = perbill_from_rational(state.bond, state.total);
                let operator_reward = perbill_mul(operator_pct, amt_due).saturating_add(commission);
                let delegators = pay_delegators(&state.delegations, state.total, amt_due);
                (RewardPayment::Paid, Some(OperatorPayout { operator, operator_reward, delegators }))
            }
        },
    }
}

/// The storage that paying a round's rewards reads and writes.
#[derive(Debug)]
pub struct PayoutRounds {
    /// How many rounds after its end a round is paid.
    pub reward_payment_delay: u32,
    /// The payout terms of each round still to be paid.
    pub delayed_payouts: KeyedMap<RoundIndex, DelayedPayout>,
    /// The points of each round.
    pub points: KeyedMap<RoundIndex, u32>,
    /// The points each operator was awarded, by round.
    pub awarded_pts: KeyedMap<RoundIndex, KeyedMap<AccountId, u32>>,
    /// What each operator had at stake, by round.
    pub at_stake: KeyedMap<RoundIndex, KeyedMap<AccountId, OperatorSnapshot>>,
}

/// The value stored at `k`, or zero.
pub open spec fn u32_at(m: Map<RoundIndex, u32>, k: RoundIndex) -> u32 {
    if m.contains_key(k) {
        m[k]
    } else {
        0
    }
}

impl PayoutRounds {
    /// The operators of round `r` still to be paid, in storage order.
    pub open spec fn unpaid(&self, r: RoundIndex) -> Seq<AccountId> {
        if self.at_stake@.contains_key(r) {
            self.at_stake.stored(r).key_seq()
        } else {
            Seq::empty()
        }
    }

    /// The points awarded to `a` in round `r`.
    pub open spec fn awarded(&self, r: RoundIndex, a: AccountId) -> u32 {
        if self.awarded_pts@.contains_key(r) && self.awarded_pts@[r].contains_key(a) {
            self.awarded_pts@[r][a]
        } else {
            0
        }
    }

    /// Pays the next operator of the round `reward_payment_delay` rounds
    /// before `now`, if that round is still to be paid: the operator first
    /// stored for it leaves the snapshots, its awarded points are taken, and
    /// its payout is returned for minting; an operator without points gets
    /// nothing. Once nothing is left to pay, the round's payout terms and
    /// points are removed.
    pub fn handle_delayed_payouts(&mut self, now: RoundIndex) -> (r: Option<OperatorPayout>)
        ensures
            ({
                let paid = (now - old(self).reward_payment_delay) as u32;
                let due = now >= old(self).reward_payment_delay && old(self).delayed_payouts@.contains_key(
                    paid,
                );
                let total_points = u32_at(old(self).points@, paid);
                let ops = old(self).unpaid(paid);
                &&& final(self).reward_payment_delay == old(self).reward_payment_delay
                &&& !due ==> r is None && final(self).delayed_payouts@ == old(self).delayed_payouts@
                    && final(self).points@ == old(self).points@ && final(self).awarded_pts@ == old(
                    self,
                ).awarded_pts@ && final(self).at_stake@ == old(self).at_stake@
                &&& due && (total_points == 0 || ops.len() == 0) ==> {
                    &&& r is None
                    &&& final(self).delayed_payouts@ == old(self).delayed_payouts@.remove(paid)
                    &&& final(self).points@ == old(self).points@.remove(paid)
                    &&& final(self).awarded_pts@ == old(self).awarded_pts@
                    &&& final(self).at_stake@ == old(self).at_stake@
                }
                &&& due && total_points != 0 && ops.len() > 0 ==> {
                    let op = ops[0];
                    let pts = old(self).awarded(paid, op);
                    &&& final(self).delayed_payouts@ == old(self).delayed_payouts@
                    &&& final(self).points@ == old(self).points@
                    &&& final(self).at_stake@ == old(self).at_stake@.insert(
                        paid,
                        old(self).at_stake@[paid].remove(op),
                    )
                    &&& old(self).awarded_pts@.contains_key(paid) ==> final(self).awarded_pts@
                        == old(self).awarded_pts@.insert(paid, old(self).awarded_pts@[paid].remove(op))
                    &&& !old(self).awarded_pts@.contains_key(paid) ==> final(self).awarded_pts@ == old(
                        self,
                    ).awarded_pts@
                    &&& pts == 0 ==> r is None
                    &&& pts != 0 ==> (r matches Some(p) && p@ == operator_payout(
                        op,
                        pts,
                        total_points,
                        old(self).at_stake@[paid][op],
                        old(self).delayed_payouts@[paid],
                    ))
                }
            }),
    {
        let delay = self.reward_payment_delay;
        if now < delay {
            return None;
        }
        let paid = now - delay;
        let terms = match self.delayed_payouts.get(&paid) {
            None => {
                return None;
            },
            Some(t) => *t,
        };
        let total_points = match self.points.get(&paid) {
            None => 0,
            Some(p) => *p,
        };
        let mut next: Option<(AccountId, u32, OperatorSnapshot)> = None;
        let ghost at0 = self.at_stake@;
        if total_points != 0 {
            let taken = match self.at_stake.remove(&paid) {
                None => None,
                Some(mut round) => {
                    let ghost round0 = round@;
                    assert(round == old(self).at_stake.stored(paid));
                    let r = if round.len() > 0 {
                        let op = round.key_at(0);
                        let s = round.remove(&op).unwrap();
                        Some((op, s))
                    } else {
                        None
                    };
                    proof {
                        if r is None {
                            assert(round@ =~= round0);
                        }
                    }
                    self.at_stake.insert(paid, round);
                    proof {
                        if r is None {
                            assert(self.at_stake@ =~= at0);
                        }
                    }
                    r
                },
            };
            if let Some((op, s)) = taken {
                let pts = match self.awarded_pts.remove(&paid) {
                    None => 0,
                    Some(mut m) => {
                        let p = match m.remove(&op) {
                            None => 0,
                            Some(p) => p,
                        };
                        self.awarded_pts.insert(paid, m);
                        p
                    },
                };
                next = Some((op, pts, s));
            }
        }
        let (status, payout) = pay_one_operator_reward(total_points, next, &terms);
        if status == RewardPayment::Finished {
            self.delayed_payouts.remove(&paid);
            self.points.remove(&paid);
        }
        payout
    }
}

} // verus!
