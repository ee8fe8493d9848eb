//! The state of the multi-asset delegation pallet, its configuration, errors
//! and events.
use super::types::{
    AccountId, Balance, BlockNumber, DelegatorMetadata, DelegatorMetadataView, OperatorMetadata,
    OperatorMetadataView, OperatorSnapshot, OperatorSnapshotView, RoundIndex,
};
use crate::asset::{Asset, H160};
use crate::keyed_map::KeyedMap;
use crate::ledger::{Ledger, LedgerError};
use vstd::prelude::*;

verus! {

/// The constants the pallet is configured with.
#[derive(Clone, Copy, Debug, PartialEq, Eq)]
pub struct DelegationConfig {
    /// The minimum self-stake of an operator.
    pub min_operator_bond_amount: Balance,
    /// The minimum amount of a deposit.
    pub min_delegate_amount: Balance,
    /// Rounds an operator stays bonded after scheduling to leave.
    pub leave_operators_delay: RoundIndex,
    /// Rounds before an operator's stake decrease can be executed.
    pub operator_bond_less_delay: RoundIndex,
    /// Rounds before a withdraw request can be executed.
    pub leave_delegators_delay: RoundIndex,
    /// Rounds before a delegation unstake request can be executed.
    pub delegation_bond_less_delay: RoundIndex,
    /// The maximum number of delegations (per delegator and per operator);
    /// also the maximum number of locks on a deposit.
    pub max_delegations: u32,
    /// The maximum number of withdraw requests of a delegator.
    pub max_withdraw_requests: u32,
    /// The maximum number of unstake requests of a delegator.
    pub max_unstake_requests: u32,
    /// The maximum number of blueprints in a fixed selection.
    pub max_delegator_blueprints: u32,
    /// The account of the pallet, which holds deposited custom assets.
    pub pallet_account: AccountId,
    /// The EVM address of the pallet, which holds deposited ERC20 tokens.
    pub pallet_evm_address: H160,
    /// The account that receives slashed funds.
    pub slash_recipient: AccountId,
    /// The EVM address of the slash recipient.
    pub slash_recipient_evm_address: H160,
}

/// Why a call of the pallet was refused.
#[derive(Clone, Copy, Debug, PartialEq, Eq)]
pub enum Error {
    AlreadyOperator,
    BondTooLow,
    InvalidAmount,
    NotAnOperator,
    CannotExit,
    AlreadyLeaving,
    NotLeavingOperator,
    LeavingRoundNotReached,
    NoScheduledBondLess,
    BondLessRequestNotSatisfied,
    NotActiveOperator,
    NotOfflineOperator,
    AlreadyDelegator,
    NotDelegator,
    WithdrawRequestAlreadyExists,
    InsufficientBalance,
    NoWithdrawRequest,
    NoBondLessRequest,
    BondLessNotReady,
    BondLessRequestAlreadyExists,
    ActiveServicesUsingAsset,
    NoActiveDelegation,
    AssetNotWhitelisted,
    NotAuthorized,
    MaxBlueprintsExceeded,
    AssetNotFound,
    BlueprintAlreadyWhitelisted,
    NoWithdrawRequests,
    NoMatchingwithdrawRequest,
    AssetAlreadyInVault,
    AssetNotInVault,
    VaultNotFound,
    DuplicateBlueprintId,
    BlueprintIdNotFound,
    NotInFixedMode,
    MaxDelegationsExceeded,
    MaxUnstakeRequestsExceeded,
    MaxWithdrawRequestsExceeded,
    DepositOverflow,
    UnstakeAmountTooLarge,
    StakeOverflow,
    InsufficientStakeRemaining,
    APYExceedsMaximum,
    CapCannotBeZero,
    CapExceedsTotalSupply,
    PendingUnstakeRequestExists,
    BlueprintNotSelected,
    ERC20TransferFailed,
    SlashAlertFailed,
    EVMAbiEncode,
    EVMAbiDecode,
    LockViolation,
    DepositExceedsCapForAsset,
    OverflowRisk,
    AssetConfigNotFound,
    CannotGoOfflineWithActiveServices,
    NotNominator,
    /// The origin of a call was not the one it must be.
    BadOrigin,
    /// A balance operation was refused.
    Balances(LedgerError),
}

/// What the pallet reports of the calls it executed.
#[derive(Clone, Copy, Debug, PartialEq, Eq)]
pub enum Event {
    OperatorJoined { who: AccountId },
    OperatorLeavingScheduled { who: AccountId },
    OperatorLeaveCancelled { who: AccountId },
    OperatorLeaveExecuted { who: AccountId },
    OperatorBondMore { who: AccountId, additional_bond: Balance },
    OperatorBondLessScheduled { who: AccountId, unstake_amount: Balance },
    OperatorBondLessExecuted { who: AccountId },
    OperatorBondLessCancelled { who: AccountId },
    OperatorWentOffline { who: AccountId },
    OperatorWentOnline { who: AccountId },
    Deposited { who: AccountId, amount: Balance, asset: Asset },
    ScheduledWithdraw { who: AccountId, amount: Balance, asset: Asset, when: RoundIndex },
    ExecutedWithdraw { who: AccountId },
    CancelledWithdraw { who: AccountId, asset: Asset, amount: Balance },
    Delegated { who: AccountId, operator: AccountId, amount: Balance, asset: Asset },
    DelegatorUnstakeScheduled {
        who: AccountId,
        operator: AccountId,
        asset: Asset,
        amount: Balance,
        when: RoundIndex,
    },
    DelegatorUnstakeExecuted { who: AccountId, operator: AccountId, asset: Asset, amount: Balance },
    DelegatorUnstakeCancelled { who: AccountId, operator: AccountId, asset: Asset, amount: Balance },
    OperatorSlashed {
        operator: AccountId,
        amount: Balance,
        service_id: u64,
        blueprint_id: u64,
        era: u32,
    },
    DelegatorSlashed {
        delegator: AccountId,
        amount: Balance,
        asset: Asset,
        service_id: u64,
        blueprint_id: u64,
        era: u32,
    },
    NominationDelegated { who: AccountId, operator: AccountId, amount: Balance },
    NominationUnstakeScheduled {
        who: AccountId,
        operator: AccountId,
        amount: Balance,
        when: RoundIndex,
    },
    NominationUnstakeExecuted { who: AccountId, operator: AccountId, amount: Balance },
    NominationUnstakeCancelled { who: AccountId, operator: AccountId, amount: Balance },
}

/// The pallet: its storage and the balances it moves.
#[derive(Debug)]
pub struct MultiAssetDelegation {
    /// The constants the pallet is configured with.
    pub config: DelegationConfig,
    /// The current round.
    pub current_round: RoundIndex,
    /// The current block number.
    pub block_number: BlockNumber,
    /// Operators by account.
    pub operators: KeyedMap<AccountId, OperatorMetadata>,
    /// Delegators by account.
    pub delegators: KeyedMap<AccountId, DelegatorMetadata>,
    /// Operator snapshots by round, then by operator.
    pub at_stake: KeyedMap<RoundIndex, KeyedMap<AccountId, OperatorSnapshot>>,
    /// The balances of all accounts.
    pub ledger: Ledger,
    /// The events deposited so far.
    pub events: Vec<Event>,
}

/// Whether two ledgers hold the same balances.
pub open spec fn same_ledger(a: Ledger, b: Ledger) -> bool {
    &&& a.free@ == b.free@
    &&& a.reserved@ == b.reserved@
    &&& a.locks@ == b.locks@
    &&& a.assets@ == b.assets@
    &&& a.tokens@ == b.tokens@
}

impl MultiAssetDelegation {
    /// Configuration, round and block number agree.
    pub open spec fn same_settings(&self, other: &Self) -> bool {
        &&& self.config == other.config
        &&& self.current_round == other.current_round
        &&& self.block_number == other.block_number
    }

    /// The whole state agrees, storage by storage.
    pub open spec fn same_state(&self, other: &Self) -> bool {
        &&& self.same_settings(other)
        &&& self.operators@ == other.operators@
        &&& self.delegators@ == other.delegators@
        &&& self.at_stake@ == other.at_stake@
        &&& same_ledger(self.ledger, other.ledger)
        &&& self.events@ == other.events@
    }

    /// A pallet with empty storage and the given balances.
    pub fn new(config: DelegationConfig, ledger: Ledger) -> (r: MultiAssetDelegation)
        ensures
            r.config == config,
            r.current_round == 0,
            r.block_number == 0,
            r.operators@ == Map::<AccountId, OperatorMetadataView>::empty(),
            r.delegators@ == Map::<AccountId, DelegatorMetadataView>::empty(),
            r.at_stake@ == Map::<RoundIndex, Map<AccountId, OperatorSnapshotView>>::empty(),
            r.ledger == ledger,
            r.events@ == Seq::<Event>::empty(),
    {
        MultiAssetDelegation {
            config,
            current_round: 0,
            block_number: 0,
            operators: KeyedMap::new(),
            delegators: KeyedMap::new(),
            at_stake: KeyedMap::new(),
            ledger,
            events: Vec::new(),
        }
    }

    /// The current round.
    pub fn current_round(&self) -> (r: RoundIndex)
        ensures
            r == self.current_round,
    {
        self.current_round
    }

    /// The record of operator `who`.
    pub fn operator_info(&self, who: AccountId) -> (r: Option<&OperatorMetadata>)
        ensures
            match r {
                Some(m) => self.operators@.contains_key(who) && m@ == self.operators@[who],
                None => !self.operators@.contains_key(who),
            },
    {
        self.operators.get(&who)
    }

    /// The record of delegator `who`.
    pub fn delegators(&self, who: AccountId) -> (r: Option<&DelegatorMetadata>)
        ensures
            match r {
                Some(m) => self.delegators@.contains_key(who) && m@ == self.delegators@[who],
                None => !self.delegators@.contains_key(who),
            },
    {
        self.delegators.get(&who)
    }

    /// The snapshot of operator `who` at round `round`.
    pub fn at_stake(&self, round: RoundIndex, who: AccountId) -> (r: Option<&OperatorSnapshot>)
        ensures
            match r {
                Some(s) => self.at_stake@.contains_key(round) && self.at_stake@[round].contains_key(
                    who,
                ) && s@ == self.at_stake@[round][who],
                None => !(self.at_stake@.contains_key(round) && self.at_stake@[round].contains_key(
                    who,
                )),
            },
    {
        match self.at_stake.get(&round) {
            Some(m) => m.get(&who),
            None => None,
        }
    }

    /// Appends an event.
    pub fn deposit_event(&mut self, e: Event)
        ensures
            final(self).events@ == old(self).events@.push(e),
            final(self).config == old(self).config,
            final(self).current_round == old(self).current_round,
            final(self).block_number == old(self).block_number,
            final(self).operators@ == old(self).operators@,
            final(self).delegators@ == old(self).delegators@,
            final(self).at_stake@ == old(self).at_stake@,
            final(self).ledger == old(self).ledger,
    {
        self.events.push(e);
    }

    /// Sets the current round.
    pub fn set_current_round(&mut self, round: RoundIndex)
        ensures
            final(self).current_round == round,
            final(self).config == old(self).config,
            final(self).block_number == old(self).block_number,
            final(self).operators@ == old(self).operators@,
            final(self).delegators@ == old(self).delegators@,
            final(self).at_stake@ == old(self).at_stake@,
            final(self).ledger == old(self).ledger,
            final(self).events@ == old(self).events@,
    {
        self.current_round = round;
    }

    /// Sets the current block number.
    pub fn set_block_number(&mut self, n: BlockNumber)
        ensures
            final(self).block_number == n,
            final(self).config == old(self).config,
            final(self).current_round == old(self).current_round,
            final(self).operators@ == old(self).operators@,
            final(self).delegators@ == old(self).delegators@,
            final(self).at_stake@ == old(self).at_stake@,
            final(self).ledger == old(self).ledger,
            final(self).events@ == old(self).events@,
    {
        self.block_number = n;
    }
}

} // verus!
