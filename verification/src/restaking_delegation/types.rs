//! The records that operator selection and reward payment read.
use crate::keyed_map::Duplicate;
use crate::parachain_staking::delegation_requests::Bond;
use vstd::prelude::*;

verus! {

pub type AccountId = u64;

pub type Balance = u128;

pub type RoundIndex = u32;

/// A delegation with the percent of its rewards that is compounded back
/// into it.
#[derive(Clone, Copy, Debug, PartialEq, Eq)]
pub struct BondWithAutoCompound {
    pub owner: AccountId,
    pub amount: Balance,
    /// In percent; more than a hundred counts as a hundred.
    pub auto_compound: u8,
}

/// What an operator had at stake in a round: its own bond, the delegations
/// that earn rewards, and the total counted for rewards.
#[derive(Debug)]
pub struct OperatorSnapshot {
    pub bond: Balance,
    pub delegations: Vec<BondWithAutoCompound>,
    pub total: Balance,
}

/// The abstract value of an [`OperatorSnapshot`].
pub struct OperatorSnapshotView {
    pub bond: Balance,
    pub delegations: Seq<BondWithAutoCompound>,
    pub total: Balance,
}

impl View for OperatorSnapshot {
    type V = OperatorSnapshotView;

    open spec fn view(&self) -> OperatorSnapshotView {
        OperatorSnapshotView { bond: self.bond, delegations: self.delegations@, total: self.total }
    }
}

/// A copy of a sequence of copyable values.
pub fn copy_vec<T: Copy>(v: &Vec<T>) -> (r: Vec<T>)
    ensures
        r@ == v@,
{
    let mut r: Vec<T> = Vec::new();
    let mut i: usize = 0;
    while i < v.len()
        invariant
            i <= v@.len(),
            r@ == v@.take(i as int),
        decreases v@.len() - i,
    {
        r.push(v[i]);
        proof {
            assert(v@.take(i as int + 1) =~= v@.take(i as int).push(v@[i as int]));
        }
        i = i + 1;
    }
    proof {
        assert(v@.take(v@.len() as int) =~= v@);
    }
    r
}

impl Duplicate for OperatorSnapshot {
    fn duplicate(&self) -> (r: OperatorSnapshot) {
        OperatorSnapshot { bond: self.bond, delegations: copy_vec(&self.delegations), total: self.total }
    }
}

/// The payout terms of a round: what was issued, what of it goes to
/// staking, and the commission operators take, in parts per billion.
#[derive(Clone, Copy, Debug, PartialEq, Eq)]
pub struct DelayedPayout {
    pub round_issuance: Balance,
    pub total_staking_reward: Balance,
    pub operator_commission: u32,
}

impl View for DelayedPayout {
    type V = DelayedPayout;

    open spec fn view(&self) -> DelayedPayout {
        *self
    }
}

/// The fields of an operator's record that selection reads.
#[derive(Clone, Copy, Debug, PartialEq, Eq)]
pub struct OperatorState {
    /// The operator's own bond.
    pub bond: Balance,
    /// The number of its delegations.
    pub delegation_count: u32,
    /// Its bond and top delegations.
    pub total_counted: Balance,
}

impl View for OperatorState {
    type V = OperatorState;

    open spec fn view(&self) -> OperatorState {
        *self
    }
}

/// The auto-compound setting of a delegator towards an operator.
#[derive(Clone, Copy, Debug, PartialEq, Eq)]
pub struct AutoCompoundConfig {
    pub delegator: AccountId,
    /// In percent.
    pub value: u8,
}

/// The delegations of an operator that earn rewards, with the stake that
/// pending requests take out of them.
#[derive(Debug)]
pub struct CountedDelegations {
    pub uncounted_stake: Balance,
    pub rewardable_delegations: Vec<Bond>,
}

/// How a payment step ended.
#[derive(Clone, Copy, Debug, PartialEq, Eq, Structural)]
pub enum RewardPayment {
    /// An operator was paid.
    Paid,
    /// An operator without points was passed over.
    Skipped,
    /// Nothing is left to pay for the round.
    Finished,
}

} // verus!
