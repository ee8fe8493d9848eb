//! Operator and delegator records of the multi-asset delegation pallet.
use crate::asset::Asset;
use crate::keyed_map::KeyedMap;
use vstd::prelude::*;

verus! {

pub type AccountId = u64;

pub type Balance = u128;

pub type AssetId = u64;

pub type RoundIndex = u32;

pub type BlockNumber = u64;

pub type BlueprintId = u64;

/// `a + b`, saturating at the largest balance.
pub open spec fn sat_add(a: int, b: int) -> int {
    if a + b > u128::MAX {
        u128::MAX as int
    } else {
        a + b
    }
}

/// `a - b`, saturating at zero.
pub open spec fn sat_sub(a: int, b: int) -> int {
    if a - b < 0 {
        0
    } else {
        a - b
    }
}

// ---------------------------------------------------------------------------
// Operators
// ---------------------------------------------------------------------------
/// The activity status of an operator.
#[derive(Clone, Copy, Debug, PartialEq, Eq)]
pub enum OperatorStatus {
    /// Committed to be online.
    Active,
    /// Temporarily inactive and excused for inactivity.
    Inactive,
    /// Bonded until the given round.
    Leaving(RoundIndex),
}

/// A request to decrease an operator's self-stake.
#[derive(Clone, Copy, Debug, PartialEq, Eq)]
pub struct OperatorBondLessRequest {
    /// The amount by which the stake is to be decreased.
    pub amount: Balance,
    /// The round in which the request was made.
    pub request_time: RoundIndex,
}

/// A delegator's stake with an operator.
#[derive(Clone, Copy, Debug, PartialEq, Eq)]
pub struct DelegatorBond {
    /// The delegator.
    pub delegator: AccountId,
    /// The amount bonded.
    pub amount: Balance,
    /// The bonded asset.
    pub asset: Asset,
}

/// The record of an operator.
#[derive(Debug)]
pub struct OperatorMetadata {
    /// The operator's self-stake.
    pub stake: Balance,
    /// The number of delegations to this operator.
    pub delegation_count: u32,
    /// The pending request to decrease the self-stake; at most one at a time.
    pub request: Option<OperatorBondLessRequest>,
    /// All current delegations.
    pub delegations: Vec<DelegatorBond>,
    /// The operator's status.
    pub status: OperatorStatus,
    /// The blueprints this operator works with.
    pub blueprint_ids: Vec<BlueprintId>,
}

/// The abstract value of an [`OperatorMetadata`].
pub struct OperatorMetadataView {
    pub stake: Balance,
    pub delegation_count: u32,
    pub request: Option<OperatorBondLessRequest>,
    pub delegations: Seq<DelegatorBond>,
    pub status: OperatorStatus,
    pub blueprint_ids: Seq<BlueprintId>,
}

impl View for OperatorMetadata {
    type V = OperatorMetadataView;

    open spec fn view(&self) -> OperatorMetadataView {
        OperatorMetadataView {
            stake: self.stake,
            delegation_count: self.delegation_count,
            request: self.request,
            delegations: self.delegations@,
            status: self.status,
            blueprint_ids: self.blueprint_ids@,
        }
    }
}

impl OperatorMetadata {
    /// A fresh active operator record with the given self-stake.
    pub fn new_with_stake(stake: Balance) -> (r: OperatorMetadata)
        ensures
            r@ == (OperatorMetadataView {
                stake,
                delegation_count: 0,
                request: None,
                delegations: Seq::empty(),
                status: OperatorStatus::Active,
                blueprint_ids: Seq::empty(),
            }),
    {
        OperatorMetadata {
            stake,
            delegation_count: 0,
            request: None,
            delegations: Vec::new(),
            status: OperatorStatus::Active,
            blueprint_ids: Vec::new(),
        }
    }

    /// The default record: no stake, no delegations, active.
    pub fn default_metadata() -> (r: OperatorMetadata)
        ensures
            r@ == (OperatorMetadataView {
                stake: 0,
                delegation_count: 0,
                request: None,
                delegations: Seq::empty(),
                status: OperatorStatus::Active,
                blueprint_ids: Seq::empty(),
            }),
    {
        Self::new_with_stake(0)
    }
}

/// Copies a vector of delegator bonds.
pub fn copy_bonds(v: &Vec<DelegatorBond>) -> (r: Vec<DelegatorBond>)
    ensures
        r@ == v@,
{
    let mut r: Vec<DelegatorBond> = Vec::new();
    let mut i: usize = 0;
    while i < v.len()
        invariant
            i <= v@.len(),
            r@ == v@.subrange(0, i as int),
        decreases v@.len() - i,
    {
        r.push(v[i]);
        i = i + 1;
        proof {
            assert(r@ =~= v@.subrange(0, i as int));
        }
    }
    proof {
        assert(r@ =~= v@);
    }
    r
}

/// Copies a vector of blueprint ids.
pub fn copy_ids(v: &Vec<BlueprintId>) -> (r: Vec<BlueprintId>)
    ensures
        r@ == v@,
{
    let mut r: Vec<BlueprintId> = Vec::new();
    let mut i: usize = 0;
    while i < v.len()
        invariant
            i <= v@.len(),
            r@ == v@.subrange(0, i as int),
        decreases v@.len() - i,
    {
        r.push(v[i]);
        i = i + 1;
        proof {
            assert(r@ =~= v@.subrange(0, i as int));
        }
    }
    proof {
        assert(r@ =~= v@);
    }
    r
}

/// The operator state at the start of a round.
#[derive(Debug)]
pub struct OperatorSnapshot {
    /// The operator's self-stake.
    pub stake: Balance,
    /// The rewardable delegations.
    pub delegations: Vec<DelegatorBond>,
}

/// The abstract value of an [`OperatorSnapshot`].
pub struct OperatorSnapshotView {
    pub stake: Balance,
    pub delegations: Seq<DelegatorBond>,
}

impl View for OperatorSnapshot {
    type V = OperatorSnapshotView;

    open spec fn view(&self) -> OperatorSnapshotView {
        OperatorSnapshotView { stake: self.stake, delegations: self.delegations@ }
    }
}

// ---------------------------------------------------------------------------
// Delegators
// ---------------------------------------------------------------------------
/// How a delegator selects the blueprints it works with.
#[derive(Debug)]
pub enum DelegatorBlueprintSelection {
    /// A fixed set of blueprints.
    Fixed(Vec<BlueprintId>),
    /// All available blueprints.
    All,
}

/// The abstract value of a [`DelegatorBlueprintSelection`].
pub enum BlueprintSelectionView {
    Fixed(Seq<BlueprintId>),
    All,
}

impl BlueprintSelectionView {
    /// Whether the selection covers a blueprint.
    pub open spec fn covers(self, id: BlueprintId) -> bool {
        match self {
            BlueprintSelectionView::Fixed(ids) => ids.contains(id),
            BlueprintSelectionView::All => true,
        }
    }
}

impl View for DelegatorBlueprintSelection {
    type V = BlueprintSelectionView;

    open spec fn view(&self) -> BlueprintSelectionView {
        match self {
            DelegatorBlueprintSelection::Fixed(ids) => BlueprintSelectionView::Fixed(ids@),
            DelegatorBlueprintSelection::All => BlueprintSelectionView::All,
        }
    }
}

impl DelegatorBlueprintSelection {
    /// An empty fixed selection.
    pub fn default_selection() -> (r: DelegatorBlueprintSelection)
        ensures
            r@ == BlueprintSelectionView::Fixed(Seq::empty()),
    {
        DelegatorBlueprintSelection::Fixed(Vec::new())
    }

    /// Whether the selection covers the blueprint `id`.
    pub fn contains(&self, id: &BlueprintId) -> (r: bool)
        ensures
            r == self@.covers(*id),
    {
        match self {
            DelegatorBlueprintSelection::All => true,
            DelegatorBlueprintSelection::Fixed(ids) => {
                let mut i: usize = 0;
                while i < ids.len()
                    invariant
                        self@ == BlueprintSelectionView::Fixed(ids@),
                        i <= ids@.len(),
                        forall|j: int| 0 <= j < i ==> ids@[j] != *id,
                    decreases ids@.len() - i,
                {
                    if ids[i] == *id {
                        proof {
                            assert(ids@[i as int] == *id);
                            assert(ids@.contains(*id));
                            assert(self@ == BlueprintSelectionView::Fixed(ids@));
                        }
                        return true;
                    }
                    i = i + 1;
                }
                false
            },
        }
    }

    /// A copy of the selection.
    pub fn copy(&self) -> (r: DelegatorBlueprintSelection)
        ensures
            r@ == self@,
    {
        match self {
            DelegatorBlueprintSelection::All => DelegatorBlueprintSelection::All,
            DelegatorBlueprintSelection::Fixed(ids) => DelegatorBlueprintSelection::Fixed(
                copy_ids(ids),
            ),
        }
    }
}

/// The status of a delegator.
#[derive(Clone, Copy, Debug, PartialEq, Eq)]
pub enum DelegatorStatus {
    /// The delegator is active.
    Active,
    /// The delegator has scheduled an exit.
    LeavingScheduled(RoundIndex),
}

/// A request to withdraw an amount of an asset.
#[derive(Clone, Copy, Debug, PartialEq, Eq)]
pub struct WithdrawRequest {
    /// The asset to withdraw.
    pub asset: Asset,
    /// The amount to withdraw.
    pub amount: Balance,
    /// The round in which the withdrawal was requested.
    pub requested_round: RoundIndex,
}

/// A request to reduce a delegation.
#[derive(Debug)]
pub struct BondLessRequest {
    /// The operator.
    pub operator: AccountId,
    /// The asset to unstake.
    pub asset: Asset,
    /// The amount to unstake.
    pub amount: Balance,
    /// The round in which the unstake was requested.
    pub requested_round: RoundIndex,
    /// The blueprint selection of the delegation.
    pub blueprint_selection: DelegatorBlueprintSelection,
    /// Whether the request concerns a nomination delegation.
    pub is_nomination: bool,
}

/// The abstract value of a [`BondLessRequest`].
pub struct BondLessRequestView {
    pub operator: AccountId,
    pub asset: Asset,
    pub amount: Balance,
    pub requested_round: RoundIndex,
    pub blueprint_selection: BlueprintSelectionView,
    pub is_nomination: bool,
}

impl View for BondLessRequest {
    type V = BondLessRequestView;

    open spec fn view(&self) -> BondLessRequestView {
        BondLessRequestView {
            operator: self.operator,
            asset: self.asset,
            amount: self.amount,
            requested_round: self.requested_round,
            blueprint_selection: self.blueprint_selection@,
            is_nomination: self.is_nomination,
        }
    }
}

impl BondLessRequest {
    /// A copy of the request.
    pub fn copy(&self) -> (r: BondLessRequest)
        ensures
            r@ == self@,
    {
        BondLessRequest {
            operator: self.operator,
            asset: self.asset,
            amount: self.amount,
            requested_round: self.requested_round,
            blueprint_selection: self.blueprint_selection.copy(),
            is_nomination: self.is_nomination,
        }
    }
}

/// A delegation from a delegator to an operator.
#[derive(Debug)]
pub struct BondInfoDelegator {
    /// The operator.
    pub operator: AccountId,
    /// The amount bonded.
    pub amount: Balance,
    /// The bonded asset.
    pub asset: Asset,
    /// The blueprints the delegation works with.
    pub blueprint_selection: DelegatorBlueprintSelection,
    /// Whether the delegation uses nominated (natively staked) tokens.
    pub is_nomination: bool,
}

/// The abstract value of a [`BondInfoDelegator`].
pub struct BondInfoDelegatorView {
    pub operator: AccountId,
    pub amount: Balance,
    pub asset: Asset,
    pub blueprint_selection: BlueprintSelectionView,
    pub is_nomination: bool,
}

impl View for BondInfoDelegator {
    type V = BondInfoDelegatorView;

    open spec fn view(&self) -> BondInfoDelegatorView {
        BondInfoDelegatorView {
            operator: self.operator,
            amount: self.amount,
            asset: self.asset,
            blueprint_selection: self.blueprint_selection@,
            is_nomination: self.is_nomination,
        }
    }
}

impl BondInfoDelegator {
    /// A copy of the delegation.
    pub fn copy(&self) -> (r: BondInfoDelegator)
        ensures
            r@ == self@,
    {
        BondInfoDelegator {
            operator: self.operator,
            amount: self.amount,
            asset: self.asset,
            blueprint_selection: self.blueprint_selection.copy(),
            is_nomination: self.is_nomination,
        }
    }
}

/// The duration for which a deposit is locked.
#[derive(Clone, Copy, Debug, PartialEq, Eq)]
pub enum LockMultiplier {
    OneMonth,
    TwoMonths,
    ThreeMonths,
    SixMonths,
}

/// Blocks in a month of 30 days at one block every 6 seconds.
pub const BLOCKS_PER_MONTH: u64 = 432_000;

impl LockMultiplier {
    /// The number of months.
    pub open spec fn months(self) -> u64 {
        match self {
            LockMultiplier::OneMonth => 1,
            LockMultiplier::TwoMonths => 2,
            LockMultiplier::ThreeMonths => 3,
            LockMultiplier::SixMonths => 6,
        }
    }

    /// The multiplier's value: its number of months.
    pub fn value(&self) -> (r: u64)
        ensures
            r == self.months(),
    {
        match self {
            LockMultiplier::OneMonth => 1,
            LockMultiplier::TwoMonths => 2,
            LockMultiplier::ThreeMonths => 3,
            LockMultiplier::SixMonths => 6,
        }
    }

    /// The lock duration in blocks.
    pub fn get_blocks(&self) -> (r: u64)
        ensures
            r == self.months() * BLOCKS_PER_MONTH,
    {
        self.value() * BLOCKS_PER_MONTH
    }
}

/// A lock on part of a deposit.
#[derive(Clone, Copy, Debug, PartialEq, Eq)]
pub struct LockInfo {
    /// The locked amount.
    pub amount: Balance,
    /// The block at which the lock expires.
    pub expiry_block: BlockNumber,
    /// The lock's duration.
    pub lock_multiplier: LockMultiplier,
}

/// A deposit of one asset.
#[derive(Debug)]
pub struct Deposit {
    /// The total amount deposited, delegated or not.
    pub amount: Balance,
    /// The amount delegated; never more than `amount`.
    pub delegated_amount: Balance,
    /// The locks on this deposit.
    pub locks: Option<Vec<LockInfo>>,
}

/// The abstract value of a [`Deposit`].
pub struct DepositView {
    pub amount: Balance,
    pub delegated_amount: Balance,
    pub locks: Option<Seq<LockInfo>>,
}

impl View for Deposit {
    type V = DepositView;

    open spec fn view(&self) -> DepositView {
        DepositView {
            amount: self.amount,
            delegated_amount: self.delegated_amount,
            locks: match &self.locks {
                Some(l) => Some(l@),
                None => None,
            },
        }
    }
}

/// The sum of the amounts of the locks that are still in force at `now`.
pub open spec fn locked_sum(locks: Seq<LockInfo>, now: BlockNumber) -> int
    decreases locks.len(),
{
    if locks.len() == 0 {
        0
    } else {
        locked_sum(locks.drop_last(), now) + if locks.last().expiry_block > now {
            locks.last().amount as int
        } else {
            0
        }
    }
}

/// The locked part of a deposit at `now`, saturated at the largest balance.
pub open spec fn total_locked(d: DepositView, now: BlockNumber) -> int {
    match d.locks {
        Some(l) => if locked_sum(l, now) > u128::MAX {
            u128::MAX as int
        } else {
            locked_sum(l, now)
        },
        None => 0,
    }
}

/// The lock that a deposit made at `now` with `multiplier` carries.
pub open spec fn new_lock(amount: Balance, multiplier: LockMultiplier, now: BlockNumber) -> LockInfo {
    LockInfo {
        amount,
        expiry_block: sat_add_u64(now, multiplier.months() * BLOCKS_PER_MONTH),
        lock_multiplier: multiplier,
    }
}

/// `a + b`, saturating at the largest block number.
pub open spec fn sat_add_u64(a: u64, b: int) -> u64 {
    if a + b > u64::MAX {
        u64::MAX
    } else {
        (a + b) as u64
    }
}

/// Why a change of a deposit was refused.
#[derive(Clone, Copy, Debug, PartialEq, Eq)]
pub enum DepositError {
    /// The delegated amount would exceed the amount deposited.
    DelegatedAboveAmount,
    /// The unlocked part of the deposit does not cover the decrease.
    InsufficientFreeAmount,
    /// The deposit already carries as many locks as it can.
    LockLimitReached,
}

impl Deposit {
    /// A new deposit of `amount`, locked if a multiplier is given.
    pub fn new(amount: Balance, lock_multiplier: Option<LockMultiplier>, now: BlockNumber) -> (r:
        Deposit)
        ensures
            r@.amount == amount,
            r@.delegated_amount == 0,
            r.delegated_amount <= r.amount,
            r@.locks == (match lock_multiplier {
                Some(m) => Some(seq![new_lock(amount, m, now)]),
                None => None::<Seq<LockInfo>>,
            }),
    {
        let locks = match lock_multiplier {
            Some(multiplier) => {
                let expiry_block = now.saturating_add(multiplier.get_blocks());
                let mut v: Vec<LockInfo> = Vec::new();
                v.push(LockInfo { amount, expiry_block, lock_multiplier: multiplier });
                proof {
                    assert(v@ =~= seq![new_lock(amount, multiplier, now)]);
                }
                Some(v)
            },
            None => None,
        };
        Deposit { amount, delegated_amount: 0, locks }
    }

    /// The total amount deposited.
    pub fn get_total_amount(&self) -> (r: Balance)
        ensures
            r == self.amount,
    {
        self.amount
    }

    /// Marks `amount_to_increase` more as delegated, if the deposit covers it.
    pub fn increase_delegated_amount(&mut self, amount_to_increase: Balance) -> (r: Result<(), DepositError>)
        ensures
            old(self).delegated_amount <= old(self).amount ==> final(self).delegated_amount
                <= final(self).amount,
            final(self)@.amount == old(self)@.amount,
            final(self)@.locks == old(self)@.locks,
            r is Ok <==> sat_add(old(self).delegated_amount as int, amount_to_increase as int)
                <= old(self).amount,
            r is Ok ==> final(self).delegated_amount == sat_add(
                old(self).delegated_amount as int,
                amount_to_increase as int,
            ),
            r is Err ==> r == Err::<(), DepositError>(DepositError::DelegatedAboveAmount)
                && final(self).delegated_amount == old(self).delegated_amount,
    {
        let new_delegated_amount = self.delegated_amount.saturating_add(amount_to_increase);
        if !(new_delegated_amount <= self.amount) {
            return Err(DepositError::DelegatedAboveAmount);
        }
        self.delegated_amount = new_delegated_amount;
        Ok(())
    }

    /// Marks `amount_to_decrease` less as delegated, saturating at zero.
    pub fn decrease_delegated_amount(&mut self, amount_to_decrease: Balance) -> (r: Result<(), DepositError>)
        ensures
            old(self).delegated_amount <= old(self).amount ==> final(self).delegated_amount
                <= final(self).amount,
            r is Ok,
            final(self)@.amount == old(self)@.amount,
            final(self)@.locks == old(self)@.locks,
            final(self).delegated_amount == sat_sub(
                old(self).delegated_amount as int,
                amount_to_decrease as int,
            ),
    {
        self.delegated_amount = self.delegated_amount.saturating_sub(amount_to_decrease);
        Ok(())
    }

    /// Adds to the deposit; with a multiplier, the added amount is locked too.
    /// Fails, changing nothing but the amount, where the locks are already
    /// `max_locks` long.
    pub fn increase_deposited_amount(
        &mut self,
        amount_to_increase: Balance,
        lock_multiplier: Option<LockMultiplier>,
        now: BlockNumber,
        max_locks: u32,
    ) -> (r: Result<(), DepositError>)
        ensures
            old(self).delegated_amount <= old(self).amount ==> final(self).delegated_amount
                <= final(self).amount,
            final(self).amount == sat_add(old(self).amount as int, amount_to_increase as int),
            final(self).delegated_amount == old(self).delegated_amount,
            r is Err <==> (lock_multiplier is Some && old(self)@.locks is Some
                && old(self)@.locks->0.len() >= max_locks),
            r is Err ==> r == Err::<(), DepositError>(DepositError::LockLimitReached)
                && final(self)@.locks == old(self)@.locks,
            r is Ok ==> final(self)@.locks == (match lock_multiplier {
                None => old(self)@.locks,
                Some(m) => match old(self)@.locks {
                    Some(l) => Some(l.push(new_lock(amount_to_increase, m, now))),
                    None => Some(seq![new_lock(amount_to_increase, m, now)]),
                },
            }),
    {
        self.amount = self.amount.saturating_add(amount_to_increase);
        if let Some(multiplier) = lock_multiplier {
            let lock_blocks = multiplier.get_blocks();
            let expiry_block = now.saturating_add(lock_blocks);
            let new_lock = LockInfo {
                amount: amount_to_increase,
                expiry_block,
                lock_multiplier: multiplier,
            };
            let old_locks = self.locks.take();
            match old_locks {
                Some(mut locks) => {
                    if locks.len() >= max_locks as usize {
                        self.locks = Some(locks);
                        return Err(DepositError::LockLimitReached);
                    }
                    locks.push(new_lock);
                    self.locks = Some(locks);
                },
                None => {
                    let mut v: Vec<LockInfo> = Vec::new();
                    v.push(new_lock);
                    proof {
                        assert(v@ =~= seq![new_lock]);
                    }
                    self.locks = Some(v);
                },
            }
        }
        Ok(())
    }

    /// Takes `amount_to_decrease` out of the deposit. Fails, leaving the deposit
    /// as it was, where that is more than the unlocked part or where the rest
    /// would no longer cover the delegated amount.
    pub fn decrease_deposited_amount(&mut self, amount_to_decrease: Balance, now: BlockNumber) -> (r:
        Result<(), DepositError>)
        ensures
            old(self).delegated_amount <= old(self).amount ==> final(self).delegated_amount
                <= final(self).amount,
            ({
                let free = sat_sub(old(self).amount as int, total_locked(old(self)@, now));
                let rest = sat_sub(old(self).amount as int, amount_to_decrease as int);
                &&& free < amount_to_decrease ==> r == Err::<(), DepositError>(
                    DepositError::InsufficientFreeAmount,
                )
                &&& free >= amount_to_decrease && rest < old(self).delegated_amount ==> r == Err::<
                    (),
                    DepositError,
                >(DepositError::DelegatedAboveAmount)
                &&& r is Ok <==> (free >= amount_to_decrease && rest
                    >= old(self).delegated_amount)
                &&& r is Ok ==> final(self).amount == rest
                    && final(self).delegated_amount == old(self).delegated_amount
                    && final(self)@.locks == old(self)@.locks
                &&& r is Err ==> *final(self) == *old(self)
            }),
    {
        let total_locked = match &self.locks {
            None => 0u128,
            Some(locks) => sum_unexpired_locks(locks, now),
        };
        let free_amount = self.amount.saturating_sub(total_locked);
        if !(free_amount >= amount_to_decrease) {
            return Err(DepositError::InsufficientFreeAmount);
        }
        let rest = self.amount.saturating_sub(amount_to_decrease);
        if !(rest >= self.delegated_amount) {
            return Err(DepositError::DelegatedAboveAmount);
        }
        self.amount = rest;
        Ok(())
    }
}

/// The saturating sum of the locks still in force at `now`.
pub fn sum_unexpired_locks(locks: &Vec<LockInfo>, now: BlockNumber) -> (r: Balance)
    ensures
        r == if locked_sum(locks@, now) > u128::MAX {
            u128::MAX as int
        } else {
            locked_sum(locks@, now)
        },
{
    let mut acc: u128 = 0;
    let mut i: usize = 0;
    while i < locks.len()
        invariant
            i <= locks@.len(),
            acc == if locked_sum(locks@.subrange(0, i as int), now) > u128::MAX {
                u128::MAX as int
            } else {
                locked_sum(locks@.subrange(0, i as int), now)
            },
        decreases locks@.len() - i,
    {
        let lock = locks[i];
        proof {
            let s = locks@.subrange(0, i as int + 1);
            assert(s.drop_last() =~= locks@.subrange(0, i as int));
            assert(s.last() == lock);
            lemma_locked_sum_nonneg(locks@.subrange(0, i as int), now);
        }
        if lock.expiry_block > now {
            acc = acc.saturating_add(lock.amount);
        }
        i = i + 1;
    }
    proof {
        assert(locks@.subrange(0, locks@.len() as int) =~= locks@);
    }
    acc
}

proof fn lemma_locked_sum_nonneg(locks: Seq<LockInfo>, now: BlockNumber)
    ensures
        locked_sum(locks, now) >= 0,
    decreases locks.len(),
{
    if locks.len() > 0 {
        lemma_locked_sum_nonneg(locks.drop_last(), now);
    }
}

/// The record of a delegator: deposits, requests and delegations.
#[derive(Debug)]
pub struct DelegatorMetadata {
    /// The deposits, by asset.
    pub deposits: KeyedMap<Asset, Deposit>,
    /// Pending withdraw requests.
    pub withdraw_requests: Vec<WithdrawRequest>,
    /// All current delegations.
    pub delegations: Vec<BondInfoDelegator>,
    /// Pending requests to reduce delegations.
    pub delegator_unstake_requests: Vec<BondLessRequest>,
    /// The delegator's status.
    pub status: DelegatorStatus,
}

/// The abstract value of a [`DelegatorMetadata`].
pub struct DelegatorMetadataView {
    pub deposits: Map<Asset, DepositView>,
    pub withdraw_requests: Seq<WithdrawRequest>,
    pub delegations: Seq<BondInfoDelegatorView>,
    pub delegator_unstake_requests: Seq<BondLessRequestView>,
    pub status: DelegatorStatus,
}

impl View for DelegatorMetadata {
    type V = DelegatorMetadataView;

    open spec fn view(&self) -> DelegatorMetadataView {
        DelegatorMetadataView {
            deposits: self.deposits@,
            withdraw_requests: self.withdraw_requests@,
            delegations: self.delegations@.map_values(|d: BondInfoDelegator| d@),
            delegator_unstake_requests: self.delegator_unstake_requests@.map_values(
                |r: BondLessRequest| r@,
            ),
            status: self.status,
        }
    }
}

/// The sum of the delegations of `asset`.
pub open spec fn delegation_sum_by_asset(ds: Seq<BondInfoDelegatorView>, asset: Asset) -> int
    decreases ds.len(),
{
    if ds.len() == 0 {
        0
    } else {
        delegation_sum_by_asset(ds.drop_last(), asset) + if ds.last().asset == asset {
            ds.last().amount as int
        } else {
            0
        }
    }
}

/// The sum of the nomination delegations.
pub open spec fn nomination_sum(ds: Seq<BondInfoDelegatorView>) -> int
    decreases ds.len(),
{
    if ds.len() == 0 {
        0
    } else {
        nomination_sum(ds.drop_last()) + if ds.last().is_nomination {
            ds.last().amount as int
        } else {
            0
        }
    }
}

pub proof fn lemma_nomination_sum_nonneg(ds: Seq<BondInfoDelegatorView>)
    ensures
        nomination_sum(ds) >= 0,
    decreases ds.len(),
{
    if ds.len() > 0 {
        lemma_nomination_sum_nonneg(ds.drop_last());
    }
}

/// What one delegation adds to the nomination sum.
pub open spec fn nomination_part(d: BondInfoDelegatorView) -> int {
    if d.is_nomination {
        d.amount as int
    } else {
        0
    }
}

pub proof fn lemma_nomination_sum_push(ds: Seq<BondInfoDelegatorView>, d: BondInfoDelegatorView)
    ensures
        nomination_sum(ds.push(d)) == nomination_sum(ds) + nomination_part(d),
{
    assert(ds.push(d).drop_last() =~= ds);
}

pub proof fn lemma_nomination_sum_update(
    ds: Seq<BondInfoDelegatorView>,
    i: int,
    d: BondInfoDelegatorView,
)
    requires
        0 <= i < ds.len(),
    ensures
        nomination_sum(ds.update(i, d)) == nomination_sum(ds) - nomination_part(ds[i])
            + nomination_part(d),
    decreases ds.len(),
{
    let u = ds.update(i, d);
    if i == ds.len() - 1 {
        assert(u.drop_last() =~= ds.drop_last());
    } else {
        assert(u.drop_last() =~= ds.drop_last().update(i, d));
        lemma_nomination_sum_update(ds.drop_last(), i, d);
    }
}

pub proof fn lemma_nomination_sum_remove(ds: Seq<BondInfoDelegatorView>, i: int)
    requires
        0 <= i < ds.len(),
    ensures
        nomination_sum(ds.remove(i)) == nomination_sum(ds) - nomination_part(ds[i]),
    decreases ds.len(),
{
    if i == ds.len() - 1 {
        assert(ds.remove(i) =~= ds.drop_last());
    } else {
        assert(ds.remove(i).drop_last() =~= ds.drop_last().remove(i));
        lemma_nomination_sum_remove(ds.drop_last(), i);
    }
}

pub proof fn lemma_delegation_sum_nonneg(ds: Seq<BondInfoDelegatorView>, asset: Asset)
    ensures
        delegation_sum_by_asset(ds, asset) >= 0,
    decreases ds.len(),
{
    if ds.len() > 0 {
        lemma_delegation_sum_nonneg(ds.drop_last(), asset);
    }
}

impl DelegatorMetadata {
    /// An empty record: no deposits, requests or delegations, active.
    pub fn default_metadata() -> (r: DelegatorMetadata)
        ensures
            r@.deposits == Map::<Asset, DepositView>::empty(),
            r@.withdraw_requests == Seq::<WithdrawRequest>::empty(),
            r@.delegations == Seq::<BondInfoDelegatorView>::empty(),
            r@.delegator_unstake_requests == Seq::<BondLessRequestView>::empty(),
            r@.status == DelegatorStatus::Active,
    {
        let r = DelegatorMetadata {
            deposits: KeyedMap::new(),
            withdraw_requests: Vec::new(),
            delegations: Vec::new(),
            delegator_unstake_requests: Vec::new(),
            status: DelegatorStatus::Active,
        };
        proof {
            assert(r@.delegations =~= Seq::<BondInfoDelegatorView>::empty());
            assert(r@.delegator_unstake_requests =~= Seq::<BondLessRequestView>::empty());
        }
        r
    }

    /// The withdraw requests.
    pub fn get_withdraw_requests(&self) -> (r: &Vec<WithdrawRequest>)
        ensures
            r@ == self@.withdraw_requests,
    {
        &self.withdraw_requests
    }

    /// The delegations.
    pub fn get_delegations(&self) -> (r: &Vec<BondInfoDelegator>)
        ensures
            r@.map_values(|d: BondInfoDelegator| d@) == self@.delegations,
    {
        &self.delegations
    }

    /// The unstake requests.
    pub fn get_delegator_unstake_requests(&self) -> (r: &Vec<BondLessRequest>)
        ensures
            r@.map_values(|q: BondLessRequest| q@) == self@.delegator_unstake_requests,
    {
        &self.delegator_unstake_requests
    }

    /// Whether there are no delegations.
    pub fn is_delegations_empty(&self) -> (r: bool)
        ensures
            r == (self@.delegations.len() == 0),
    {
        self.delegations.len() == 0
    }

    /// The total delegated amount of `asset`.
    pub fn calculate_delegation_by_asset(&self, asset: Asset) -> (r: Balance)
        requires
            delegation_sum_by_asset(self@.delegations, asset) <= u128::MAX,
        ensures
            r == delegation_sum_by_asset(self@.delegations, asset),
    {
        let ghost ds = self@.delegations;
        let mut total: u128 = 0;
        let mut i: usize = 0;
        while i < self.delegations.len()
            invariant
                ds == self@.delegations,
                i <= ds.len(),
                total == delegation_sum_by_asset(ds.subrange(0, i as int), asset),
                delegation_sum_by_asset(ds, asset) <= u128::MAX,
            decreases ds.len() - i,
        {
            proof {
                let s = ds.subrange(0, i as int + 1);
                assert(s.drop_last() =~= ds.subrange(0, i as int));
                lemma_delegation_sum_prefix_le(ds, asset, i as int + 1);
                lemma_delegation_sum_nonneg(ds.subrange(0, i as int), asset);
            }
            if crate::keyed_map::MapKey::same(&self.delegations[i].asset, &asset) {
                total = total + self.delegations[i].amount;
            }
            i = i + 1;
        }
        proof {
            assert(ds.subrange(0, ds.len() as int) =~= ds);
        }
        total
    }

    /// The delegations to `operator`, in order.
    pub fn calculate_delegation_by_operator(&self, operator: AccountId) -> (r: Vec<
        &BondInfoDelegator,
    >)
        ensures
            r@.len() == self@.delegations.filter(
                |d: BondInfoDelegatorView| d.operator == operator,
            ).len(),
            forall|j: int|
                0 <= j < r@.len() ==> #[trigger] r@[j]@ == self@.delegations.filter(
                    |d: BondInfoDelegatorView| d.operator == operator,
                )[j],
    {
        let ghost ds = self@.delegations;
        let ghost pred = |d: BondInfoDelegatorView| d.operator == operator;
        let mut r: Vec<&BondInfoDelegator> = Vec::new();
        let mut i: usize = 0;
        while i < self.delegations.len()
            invariant
                ds == self@.delegations,
                pred == (|d: BondInfoDelegatorView| d.operator == operator),
                i <= ds.len(),
                r@.len() == ds.subrange(0, i as int).filter(pred).len(),
                forall|j: int|
                    0 <= j < r@.len() ==> #[trigger] r@[j]@ == ds.subrange(0, i as int).filter(
                        pred,
                    )[j],
            decreases ds.len() - i,
        {
            let ghost s = ds.subrange(0, i as int + 1);
            proof {
                assert(s.drop_last() =~= ds.subrange(0, i as int));
                assert(s.last() == ds[i as int]);
                reveal(Seq::filter);
                assert(s.filter(pred) == if pred(s.last()) {
                    s.drop_last().filter(pred).push(s.last())
                } else {
                    s.drop_last().filter(pred)
                });
            }
            if self.delegations[i].operator == operator {
                r.push(&self.delegations[i]);
            }
            i = i + 1;
        }
        proof {
            assert(ds.subrange(0, ds.len() as int) =~= ds);
        }
        r
    }

    /// The total amount of the nomination delegations, saturated at the largest balance.
    pub fn total_nomination_delegations(&self) -> (r: Balance)
        ensures
            r == if nomination_sum(self@.delegations) > u128::MAX {
                u128::MAX as int
            } else {
                nomination_sum(self@.delegations)
            },
    {
        let ghost ds = self@.delegations;
        let mut total: u128 = 0;
        let mut i: usize = 0;
        while i < self.delegations.len()
            invariant
                ds == self@.delegations,
                i <= ds.len(),
                total == if nomination_sum(ds.subrange(0, i as int)) > u128::MAX {
                    u128::MAX as int
                } else {
                    nomination_sum(ds.subrange(0, i as int))
                },
            decreases ds.len() - i,
        {
            proof {
                let s = ds.subrange(0, i as int + 1);
                assert(s.drop_last() =~= ds.subrange(0, i as int));
                lemma_nomination_sum_nonneg(ds.subrange(0, i as int));
            }
            if self.delegations[i].is_nomination {
                total = total.saturating_add(self.delegations[i].amount);
            }
            i = i + 1;
        }
        proof {
            assert(ds.subrange(0, ds.len() as int) =~= ds);
        }
        total
    }
}

pub proof fn lemma_delegation_sum_prefix_le(ds: Seq<BondInfoDelegatorView>, asset: Asset, n: int)
    requires
        0 <= n <= ds.len(),
    ensures
        delegation_sum_by_asset(ds.subrange(0, n), asset) <= delegation_sum_by_asset(ds, asset),
    decreases ds.len() - n,
{
    if n < ds.len() {
        lemma_delegation_sum_prefix_le(ds, asset, n + 1);
        let s = ds.subrange(0, n + 1);
        assert(s.drop_last() =~= ds.subrange(0, n));
    } else {
        assert(ds.subrange(0, n) =~= ds);
    }
}

} // verus!
