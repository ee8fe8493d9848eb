//! Deposits: depositing assets into the pallet, scheduling, executing and
//! cancelling withdrawals.
use super::pallet::{same_ledger, DelegationConfig, Error, Event, MultiAssetDelegation};
use super::types::{
    new_lock, sat_add, sat_sub, total_locked, AccountId, Balance, BlockNumber, Deposit,
    DepositView, DelegatorMetadata, DelegatorMetadataView, DelegatorStatus, LockInfo,
    LockMultiplier, RoundIndex, WithdrawRequest,
};
use crate::asset::{Asset, H160};
use crate::ledger::{bal, moved, AssetHolder, LedgerError, TokenHolder};
use vstd::prelude::*;

verus! {

/// The deposit after adding `amount`, locked by `lock` if given.
pub open spec fn deposit_added(
    d: Option<DepositView>,
    amount: Balance,
    lock: Option<LockMultiplier>,
    now: BlockNumber,
) -> DepositView {
    match d {
        None => DepositView {
            amount,
            delegated_amount: 0,
            locks: match lock {
                Some(m) => Some(seq![new_lock(amount, m, now)]),
                None => None,
            },
        },
        Some(d) => DepositView {
            amount: sat_add(d.amount as int, amount as int) as u128,
            delegated_amount: d.delegated_amount,
            locks: match lock {
                None => d.locks,
                Some(m) => match d.locks {
                    Some(l) => Some(l.push(new_lock(amount, m, now))),
                    None => Some(seq![new_lock(amount, m, now)]),
                },
            },
        },
    }
}

/// Whether a deposit has room for one more lock.
pub open spec fn lock_room(d: Option<DepositView>, lock: Option<LockMultiplier>, max: u32) -> bool {
    !(lock is Some && d is Some && d->0.locks is Some && d->0.locks->0.len() >= max)
}

/// The record of `who`, or an empty one.
pub open spec fn delegator_or_default(
    dels: Map<AccountId, DelegatorMetadataView>,
    who: AccountId,
) -> DelegatorMetadataView {
    if dels.contains_key(who) {
        dels[who]
    } else {
        DelegatorMetadataView {
            deposits: Map::empty(),
            withdraw_requests: Seq::empty(),
            delegations: Seq::empty(),
            delegator_unstake_requests: Seq::empty(),
            status: DelegatorStatus::Active,
        }
    }
}

/// The deposit of `asset` that a record holds, if any.
pub open spec fn deposit_of(m: DelegatorMetadataView, asset: Asset) -> Option<DepositView> {
    if m.deposits.contains_key(asset) {
        Some(m.deposits[asset])
    } else {
        None
    }
}

/// Whether moving `amount` of custom asset `id` from `from` to `to` would succeed.
pub open spec fn asset_move_ok(
    assets: Map<AssetHolder, u128>,
    id: u64,
    from: AccountId,
    to: AccountId,
    amount: Balance,
) -> bool {
    bal(assets, AssetHolder { asset: id, who: from }) >= amount && (from == to || bal(
        assets,
        AssetHolder { asset: id, who: to },
    ) + amount <= u128::MAX)
}

/// The custom asset balances after moving `amount` of `id` from `from` to `to`.
pub open spec fn asset_moved(
    assets: Map<AssetHolder, u128>,
    id: u64,
    from: AccountId,
    to: AccountId,
    amount: Balance,
) -> Map<AssetHolder, u128> {
    moved(assets, AssetHolder { asset: id, who: from }, AssetHolder { asset: id, who: to }, amount)
}

/// Why moving `amount` of a custom asset from `who` into the pallet fails:
/// the balance of `who` is short, or else the pallet's would overflow.
pub open spec fn transfer_in_error(
    assets: Map<AssetHolder, u128>,
    asset: Asset,
    who: AccountId,
    amount: Balance,
) -> LedgerError {
    match asset {
        Asset::Custom(id) => if bal(assets, AssetHolder { asset: id, who }) < amount {
            LedgerError::InsufficientBalance
        } else {
            LedgerError::Overflow
        },
        Asset::Erc20(_) => LedgerError::InsufficientBalance,
    }
}

/// Whether an ERC20 transfer of `amount` of `token` from `from` to `to` would succeed.
pub open spec fn token_move_ok(
    tokens: Map<TokenHolder, u128>,
    token: H160,
    from: H160,
    to: H160,
    amount: Balance,
) -> bool {
    bal(tokens, TokenHolder { token, holder: from }) >= amount && (from == to || bal(
        tokens,
        TokenHolder { token, holder: to },
    ) + amount <= u128::MAX)
}

/// The ERC20 balances after such a transfer.
pub open spec fn token_moved(
    tokens: Map<TokenHolder, u128>,
    token: H160,
    from: H160,
    to: H160,
    amount: Balance,
) -> Map<TokenHolder, u128> {
    moved(tokens, TokenHolder { token, holder: from }, TokenHolder { token, holder: to }, amount)
}

/// Where the withdrawal of a set of requests has got to.
pub struct WithdrawProgress {
    /// The requests kept, in order.
    pub kept: Seq<WithdrawRequest>,
    /// The custom asset balances.
    pub assets: Map<AssetHolder, u128>,
    /// The ERC20 balances.
    pub tokens: Map<TokenHolder, u128>,
}

/// Whether a withdraw request can be executed at `round`.
pub open spec fn withdraw_ready(cfg: DelegationConfig, round: RoundIndex, q: WithdrawRequest) -> bool {
    round >= cfg.leave_delegators_delay + q.requested_round
}

/// One request of an execution: a ready request is paid out where the
/// transfer succeeds, and dropped; any other is kept.
pub open spec fn withdraw_step(
    cfg: DelegationConfig,
    round: RoundIndex,
    who: AccountId,
    evm_address: Option<H160>,
    p: WithdrawProgress,
    q: WithdrawRequest,
) -> WithdrawProgress {
    if !withdraw_ready(cfg, round, q) {
        WithdrawProgress { kept: p.kept.push(q), ..p }
    } else {
        match q.asset {
            Asset::Custom(id) => if asset_move_ok(p.assets, id, cfg.pallet_account, who, q.amount) {
                WithdrawProgress {
                    assets: asset_moved(p.assets, id, cfg.pallet_account, who, q.amount),
                    ..p
                }
            } else {
                WithdrawProgress { kept: p.kept.push(q), ..p }
            },
            Asset::Erc20(token) => match evm_address {
                Some(to) => if token_move_ok(p.tokens, token, cfg.pallet_evm_address, to, q.amount) {
                    WithdrawProgress {
                        tokens: token_moved(p.tokens, token, cfg.pallet_evm_address, to, q.amount),
                        ..p
                    }
                } else {
                    WithdrawProgress { kept: p.kept.push(q), ..p }
                },
                None => WithdrawProgress { kept: p.kept.push(q), ..p },
            },
        }
    }
}

/// The execution of all requests of `qs`, in order.
pub open spec fn withdraw_run(
    cfg: DelegationConfig,
    round: RoundIndex,
    who: AccountId,
    evm_address: Option<H160>,
    init: WithdrawProgress,
    qs: Seq<WithdrawRequest>,
) -> WithdrawProgress
    decreases qs.len(),
{
    if qs.len() == 0 {
        init
    } else {
        withdraw_step(
            cfg,
            round,
            who,
            evm_address,
            withdraw_run(cfg, round, who, evm_address, init, qs.drop_last()),
            qs.last(),
        )
    }
}

/// The account a deposit is made for, or why the origin is refused.
pub open spec fn deposit_origin(
    cfg: DelegationConfig,
    caller: AccountId,
    asset: Asset,
    evm_account: Option<AccountId>,
) -> Result<AccountId, Error> {
    match (asset, evm_account) {
        (Asset::Custom(_), None) => Ok(caller),
        (Asset::Erc20(_), Some(a)) => if caller == cfg.pallet_account {
            Ok(a)
        } else {
            Err(Error::BadOrigin)
        },
        (Asset::Erc20(_), None) => Err(Error::NotAuthorized),
        (Asset::Custom(_), Some(a)) => if a == caller {
            Ok(a)
        } else {
            Err(Error::BadOrigin)
        },
    }
}

fn deposit_origin_exec(
    cfg: &DelegationConfig,
    caller: AccountId,
    asset: Asset,
    evm_account: Option<AccountId>,
) -> (r: Result<AccountId, Error>)
    ensures
        r == deposit_origin(*cfg, caller, asset, evm_account),
{
    match (asset, evm_account) {
        (Asset::Custom(_), None) => Ok(caller),
        (Asset::Erc20(_), Some(a)) => if caller == cfg.pallet_account {
            Ok(a)
        } else {
            Err(Error::BadOrigin)
        },
        (Asset::Erc20(_), None) => Err(Error::NotAuthorized),
        (Asset::Custom(_), Some(a)) => if a == caller {
            Ok(a)
        } else {
            Err(Error::BadOrigin)
        },
    }
}

/// `i` is the first request for `amount` of `asset`.
/// The delegators after `who` moves `amount` of its deposit of `asset`
/// into a withdraw request made in `round`.
pub open spec fn withdraw_scheduled(
    dels: Map<AccountId, DelegatorMetadataView>,
    who: AccountId,
    asset: Asset,
    amount: Balance,
    round: RoundIndex,
) -> Map<AccountId, DelegatorMetadataView> {
    let m = dels[who];
    let d = m.deposits[asset];
    dels.insert(
        who,
        DelegatorMetadataView {
            deposits: m.deposits.insert(asset, DepositView { amount: (d.amount - amount) as u128, ..d }),
            withdraw_requests: m.withdraw_requests.push(
                WithdrawRequest { asset, amount, requested_round: round },
            ),
            ..m
        },
    )
}

/// The delegators after `who` cancels its withdraw request at index `i`,
/// of `amount` of `asset`, at block `now`: the amount returns to the
/// deposit, and a delegator without delegations is active again.
pub open spec fn withdraw_cancelled_at(
    dels: Map<AccountId, DelegatorMetadataView>,
    who: AccountId,
    asset: Asset,
    amount: Balance,
    now: u64,
    i: int,
) -> Map<AccountId, DelegatorMetadataView> {
    let m = dels[who];
    dels.insert(
        who,
        DelegatorMetadataView {
            deposits: m.deposits.insert(asset, deposit_added(deposit_of(m, asset), amount, None, now)),
            withdraw_requests: m.withdraw_requests.remove(i),
            status: if m.delegations.len() == 0 {
                DelegatorStatus::Active
            } else {
                m.status
            },
            ..m
        },
    )
}

pub open spec fn is_first_withdraw_match(
    qs: Seq<WithdrawRequest>,
    asset: Asset,
    amount: Balance,
    i: int,
) -> bool {
    &&& 0 <= i < qs.len()
    &&& qs[i].asset == asset
    &&& qs[i].amount == amount
    &&& forall|j: int| 0 <= j < i ==> !(qs[j].asset == asset && qs[j].amount == amount)
}

fn find_withdraw_request(qs: &Vec<WithdrawRequest>, asset: Asset, amount: Balance) -> (r: Option<
    usize,
>)
    ensures
        match r {
            Some(i) => is_first_withdraw_match(qs@, asset, amount, i as int),
            None => !(exists|i: int| is_first_withdraw_match(qs@, asset, amount, i)),
        },
{
    let mut i: usize = 0;
    while i < qs.len()
        invariant
            i <= qs@.len(),
            forall|j: int| 0 <= j < i ==> !(qs@[j].asset == asset && qs@[j].amount == amount),
        decreases qs@.len() - i,
    {
        if crate::keyed_map::MapKey::same(&qs[i].asset, &asset) && qs[i].amount == amount {
            return Some(i);
        }
        i = i + 1;
    }
    None
}

/// The account whose withdrawals `execute_withdraw` executes.
pub open spec fn withdraw_account(caller: AccountId, evm_address: Option<H160>, evm_account: AccountId) -> AccountId {
    match evm_address {
        Some(_) => evm_account,
        None => caller,
    }
}

impl MultiAssetDelegation {
    /// The execution rounds of the withdraw requests of `who` are representable.
    pub open spec fn withdraw_rounds_fit(&self, who: AccountId) -> bool {
        self.delegators@.contains_key(who) ==> forall|i: int|
            0 <= i < self.delegators@[who].withdraw_requests.len() ==> self.config.leave_delegators_delay
                + (#[trigger] self.delegators@[who].withdraw_requests[i]).requested_round <= u32::MAX
    }

    /// Only the delegators, the ledger and the events may differ.
    pub open spec fn keeps_all_but_delegators(&self, old: &Self) -> bool {
        &&& self.same_settings(old)
        &&& self.operators@ == old.operators@
        &&& self.at_stake@ == old.at_stake@
    }

    /// The account of the pallet.
    pub fn pallet_account(&self) -> (r: AccountId)
        ensures
            r == self.config.pallet_account,
    {
        self.config.pallet_account
    }

    /// The EVM address of the pallet.
    pub fn pallet_evm_account(&self) -> (r: H160)
        ensures
            r == self.config.pallet_evm_address,
    {
        self.config.pallet_evm_address
    }

    /// Moves `amount` of a custom asset from `sender` to the pallet; ERC20
    /// tokens arrive through their own contract call and move nothing here.
    pub fn handle_transfer_to_pallet(&mut self, sender: AccountId, asset: Asset, amount: Balance) -> (r:
        Result<(), Error>)
        ensures
            match asset {
                Asset::Custom(id) => {
                    &&& r is Ok <==> asset_move_ok(
                        old(self).ledger.assets@,
                        id,
                        sender,
                        old(self).config.pallet_account,
                        amount,
                    )
                    &&& r == Err::<(), Error>(Error::Balances(LedgerError::InsufficientBalance))
                        <==> bal(old(self).ledger.assets@, AssetHolder { asset: id, who: sender })
                        < amount
                    &&& r is Ok ==> final(self).ledger.assets@ == asset_moved(
                        old(self).ledger.assets@,
                        id,
                        sender,
                        old(self).config.pallet_account,
                        amount,
                    )
                    &&& r is Err ==> final(self).ledger.assets@ == old(self).ledger.assets@
                    &&& r is Err ==> r == Err::<(), Error>(
                        Error::Balances(transfer_in_error(old(self).ledger.assets@, asset, sender, amount)),
                    )
                },
                Asset::Erc20(_) => r is Ok && final(self).ledger.assets@ == old(
                    self,
                ).ledger.assets@,
            },
            final(self).ledger.free@ == old(self).ledger.free@,
            final(self).ledger.reserved@ == old(self).ledger.reserved@,
            final(self).ledger.locks@ == old(self).ledger.locks@,
            final(self).ledger.tokens@ == old(self).ledger.tokens@,
            final(self).same_settings(old(self)),
            final(self).operators@ == old(self).operators@,
            final(self).delegators@ == old(self).delegators@,
            final(self).at_stake@ == old(self).at_stake@,
            final(self).events@ == old(self).events@,
    {
        match asset {
            Asset::Custom(id) => {
                let to = self.config.pallet_account;
                let res = self.ledger.asset_transfer(id, sender, to, amount);
                proof {
                    if res is Ok {
                        assert(self.ledger.assets@ =~= asset_moved(
                            old(self).ledger.assets@,
                            id,
                            sender,
                            to,
                            amount,
                        ));
                    }
                }
                match res {
                    Ok(()) => Ok(()),
                    Err(e) => Err(Error::Balances(e)),
                }
            },
            Asset::Erc20(_) => Ok(()),
        }
    }

    /// Records a deposit of `amount` of `asset` by `who`, moving custom
    /// assets into the pallet; with `lock_multiplier` the amount is locked.
    pub fn process_deposit(
        &mut self,
        who: AccountId,
        asset: Asset,
        amount: Balance,
        lock_multiplier: Option<LockMultiplier>,
    ) -> (r: Result<(), Error>)
        ensures
            ({
                let d = deposit_of(delegator_or_default(old(self).delegators@, who), asset);
                let moves = match asset {
                    Asset::Custom(id) => asset_move_ok(
                        old(self).ledger.assets@,
                        id,
                        who,
                        old(self).config.pallet_account,
                        amount,
                    ),
                    Asset::Erc20(_) => true,
                };
                &&& r == Err::<(), Error>(Error::BondTooLow) <==> amount < old(
                    self,
                ).config.min_delegate_amount
                &&& r == Err::<(), Error>(Error::InsufficientBalance) <==> amount >= old(
                    self,
                ).config.min_delegate_amount && moves && !lock_room(
                    d,
                    lock_multiplier,
                    old(self).config.max_delegations,
                )
                &&& r is Ok <==> amount >= old(self).config.min_delegate_amount && moves
                    && lock_room(d, lock_multiplier, old(self).config.max_delegations)
                &&& amount >= old(self).config.min_delegate_amount && !moves ==> r == Err::<
                    (),
                    Error,
                >(Error::Balances(transfer_in_error(old(self).ledger.assets@, asset, who, amount)))
                &&& r is Err ==> final(self).same_state(old(self))
                &&& r is Ok ==> {
                    let m = delegator_or_default(old(self).delegators@, who);
                    &&& final(self).delegators@ == old(self).delegators@.insert(
                        who,
                        DelegatorMetadataView {
                            deposits: m.deposits.insert(
                                asset,
                                deposit_added(d, amount, lock_multiplier, old(self).block_number),
                            ),
                            ..m
                        },
                    )
                    &&& final(self).ledger.assets@ == match asset {
                        Asset::Custom(id) => asset_moved(
                            old(self).ledger.assets@,
                            id,
                            who,
                            old(self).config.pallet_account,
                            amount,
                        ),
                        Asset::Erc20(_) => old(self).ledger.assets@,
                    }
                    &&& final(self).ledger.free@ == old(self).ledger.free@
                    &&& final(self).ledger.reserved@ == old(self).ledger.reserved@
                    &&& final(self).ledger.locks@ == old(self).ledger.locks@
                    &&& final(self).ledger.tokens@ == old(self).ledger.tokens@
                    &&& final(self).keeps_all_but_delegators(old(self))
                    &&& final(self).events@ == old(self).events@
                }
            }),
    {
        if amount < self.config.min_delegate_amount {
            return Err(Error::BondTooLow);
        }
        // The transfer into the pallet must be possible.
        if let Asset::Custom(id) = asset {
            let pallet = self.config.pallet_account;
            let from_balance = self.ledger.asset_balance(id, who);
            if from_balance < amount {
                return Err(Error::Balances(LedgerError::InsufficientBalance));
            }
            if who != pallet && self.ledger.asset_balance(id, pallet) > u128::MAX - amount {
                return Err(Error::Balances(LedgerError::Overflow));
            }
        }
        // The deposit must have room for a new lock.

        let lock_full = match self.delegators.get(&who) {
            None => false,
            Some(m) => match m.deposits.get(&asset) {
                None => false,
                Some(d) => match &d.locks {
                    None => false,
                    Some(locks) => lock_multiplier.is_some() && locks.len()
                        >= self.config.max_delegations as usize,
                },
            },
        };
        if lock_full {
            return Err(Error::InsufficientBalance);
        }
        let res = self.handle_transfer_to_pallet(who, asset, amount);
        assert(res is Ok);
        let now = self.block_number;
        let max_locks = self.config.max_delegations;
        let mut m = match self.delegators.remove(&who) {
            Some(m) => m,
            None => DelegatorMetadata::default_metadata(),
        };
        let ghost m0 = m@;
        proof {
            assert(m0.deposits =~= delegator_or_default(old(self).delegators@, who).deposits);
            assert(m0.delegator_unstake_requests =~= delegator_or_default(
                old(self).delegators@,
                who,
            ).delegator_unstake_requests);
            assert(m0.delegations =~= delegator_or_default(old(self).delegators@, who).delegations);
        }
        let new_deposit = match m.deposits.remove(&asset) {
            Some(mut d) => {
                let _ = d.increase_deposited_amount(amount, lock_multiplier, now, max_locks);
                d
            },
            None => Deposit::new(amount, lock_multiplier, now),
        };
        proof {
            assert(new_deposit@ == deposit_added(deposit_of(m0, asset), amount, lock_multiplier, now));
        }
        m.deposits.insert(asset, new_deposit);
        proof {
            assert(m.deposits@ =~= m0.deposits.insert(
                asset,
                deposit_added(deposit_of(m0, asset), amount, lock_multiplier, now),
            ));
        }
        self.delegators.insert(who, m);
        Ok(())
    }

    /// `deposit`: resolves the depositing account from the origin, checks the
    /// deposit cap, records the deposit and reports it. `caller` signed the
    /// call; `evm_account` is the account that the given EVM address maps to,
    /// if one was given; `deposit_cap_remaining` is the rewards manager's
    /// answer for the asset (`None` where the asset has no configuration).
    pub fn deposit(
        &mut self,
        caller: AccountId,
        asset: Asset,
        amount: Balance,
        evm_account: Option<AccountId>,
        lock_multiplier: Option<LockMultiplier>,
        deposit_cap_remaining: Option<Balance>,
    ) -> (r: Result<(), Error>)
        ensures
            ({
                let origin = deposit_origin(old(self).config, caller, asset, evm_account);
                &&& origin is Err ==> r == Err::<(), Error>(origin->Err_0)
                &&& origin is Ok && deposit_cap_remaining is None ==> r == Err::<(), Error>(
                    Error::AssetConfigNotFound,
                )
                &&& origin is Ok && deposit_cap_remaining is Some && amount
                    > deposit_cap_remaining->0 ==> r == Err::<(), Error>(
                    Error::DepositExceedsCapForAsset,
                )
                &&& origin is Ok && deposit_cap_remaining is Some && amount
                    <= deposit_cap_remaining->0 ==> {
                    let who = origin->Ok_0;
                    let moves = match asset {
                        Asset::Custom(id) => asset_move_ok(
                            old(self).ledger.assets@,
                            id,
                            who,
                            old(self).config.pallet_account,
                            amount,
                        ),
                        Asset::Erc20(_) => true,
                    };
                    &&& r == Err::<(), Error>(Error::BondTooLow) <==> amount < old(
                        self,
                    ).config.min_delegate_amount
                    &&& r is Ok <==> amount >= old(self).config.min_delegate_amount && moves
                        && lock_room(
                        deposit_of(delegator_or_default(old(self).delegators@, who), asset),
                        lock_multiplier,
                        old(self).config.max_delegations,
                    )
                    &&& amount >= old(self).config.min_delegate_amount && !moves ==> r == Err::<
                        (),
                        Error,
                    >(Error::Balances(transfer_in_error(old(self).ledger.assets@, asset, who, amount)))
                    &&& amount >= old(self).config.min_delegate_amount && moves && !lock_room(
                        deposit_of(delegator_or_default(old(self).delegators@, who), asset),
                        lock_multiplier,
                        old(self).config.max_delegations,
                    ) ==> r == Err::<(), Error>(Error::InsufficientBalance)
                }
                &&& r is Err ==> final(self).same_state(old(self))
                &&& r is Ok ==> {
                    let who = origin->Ok_0;
                    let m = delegator_or_default(old(self).delegators@, who);
                    let d = deposit_of(m, asset);
                    &&& origin is Ok
                    &&& deposit_cap_remaining is Some && amount <= deposit_cap_remaining->0
                    &&& amount >= old(self).config.min_delegate_amount
                    &&& lock_room(d, lock_multiplier, old(self).config.max_delegations)
                    &&& final(self).delegators@ == old(self).delegators@.insert(
                        who,
                        DelegatorMetadataView {
                            deposits: m.deposits.insert(
                                asset,
                                deposit_added(d, amount, lock_multiplier, old(self).block_number),
                            ),
                            ..m
                        },
                    )
                    &&& final(self).ledger.assets@ == match asset {
                        Asset::Custom(id) => asset_moved(
                            old(self).ledger.assets@,
                            id,
                            who,
                            old(self).config.pallet_account,
                            amount,
                        ),
                        Asset::Erc20(_) => old(self).ledger.assets@,
                    }
                    &&& final(self).ledger.free@ == old(self).ledger.free@
                    &&& final(self).ledger.reserved@ == old(self).ledger.reserved@
                    &&& final(self).ledger.locks@ == old(self).ledger.locks@
                    &&& final(self).ledger.tokens@ == old(self).ledger.tokens@
                    &&& final(self).keeps_all_but_delegators(old(self))
                    &&& final(self).events@ == old(self).events@.push(
                        Event::Deposited { who, amount, asset },
                    )
                }
            }),
    {
        let who = match deposit_origin_exec(&self.config, caller, asset, evm_account) {
            Ok(w) => w,
            Err(e) => {
                return Err(e);
            },
        };
        let remaining = match deposit_cap_remaining {
            None => {
                return Err(Error::AssetConfigNotFound);
            },
            Some(x) => x,
        };
        if amount > remaining {
            return Err(Error::DepositExceedsCapForAsset);
        }
        self.process_deposit(who, asset, amount, lock_multiplier)?;
        self.deposit_event(Event::Deposited { who, amount, asset });
        Ok(())
    }

    /// Moves `amount` of the deposit of `asset` of `who` into a withdraw request.
    pub fn process_schedule_withdraw(&mut self, who: AccountId, asset: Asset, amount: Balance) -> (r:
        Result<(), Error>)
        ensures
            ({
                let dels = old(self).delegators@;
                let m = dels[who];
                let d = deposit_of(m, asset);
                let now = old(self).block_number;
                let ok_dec = d is Some && sat_sub(d->0.amount as int, total_locked(d->0, now))
                    >= amount && d->0.amount - amount >= d->0.delegated_amount;
                &&& r == Err::<(), Error>(Error::NotDelegator) <==> !dels.contains_key(who)
                &&& r == Err::<(), Error>(Error::InsufficientBalance) <==> dels.contains_key(who)
                    && !ok_dec
                &&& r == Err::<(), Error>(Error::MaxWithdrawRequestsExceeded) <==> dels.contains_key(
                    who,
                ) && ok_dec && m.withdraw_requests.len() >= old(self).config.max_withdraw_requests
                &&& r is Ok <==> dels.contains_key(who) && ok_dec && m.withdraw_requests.len() < old(
                    self,
                ).config.max_withdraw_requests
                &&& r is Err ==> final(self).same_state(old(self))
                &&& r is Ok ==> {
                    &&& final(self).delegators@ == withdraw_scheduled(
                        dels,
                        who,
                        asset,
                        amount,
                        old(self).current_round,
                    )
                    &&& same_ledger(final(self).ledger, old(self).ledger)
                    &&& final(self).keeps_all_but_delegators(old(self))
                    &&& final(self).events@ == old(self).events@
                }
            }),
    {
        let now = self.block_number;
        let max = self.config.max_withdraw_requests;
        match self.delegators.get(&who) {
            None => {
                return Err(Error::NotDelegator);
            },
            Some(m) => {
                match m.deposits.get(&asset) {
                    None => {
                        return Err(Error::InsufficientBalance);
                    },
                    Some(d) => {
                        let locked = match &d.locks {
                            None => 0u128,
                            Some(locks) => super::types::sum_unexpired_locks(locks, now),
                        };
                        if d.amount.saturating_sub(locked) < amount {
                            return Err(Error::InsufficientBalance);
                        }
                        if d.amount - amount < d.delegated_amount {
                            return Err(Error::InsufficientBalance);
                        }
                    },
                }
                if m.withdraw_requests.len() >= max as usize {
                    return Err(Error::MaxWithdrawRequestsExceeded);
                }
            },
        }
        let mut m = self.delegators.remove(&who).unwrap();
        let ghost m0 = m@;
        let mut d = m.deposits.remove(&asset).unwrap();
        let _ = d.decrease_deposited_amount(amount, now);
        m.deposits.insert(asset, d);
        m.withdraw_requests.push(
            WithdrawRequest { asset, amount, requested_round: self.current_round },
        );
        proof {
            assert(m@.deposits =~= m0.deposits.insert(
                asset,
                DepositView { amount: (m0.deposits[asset].amount - amount) as u128, ..m0.deposits[asset] },
            ));
        }
        self.delegators.insert(who, m);
        proof {
            let d0 = old(self).delegators@[who];
            assert(self.delegators@ =~= old(self).delegators@.insert(
                who,
                DelegatorMetadataView {
                    deposits: d0.deposits.insert(
                        asset,
                        DepositView { amount: (d0.deposits[asset].amount - amount) as u128, ..d0.deposits[asset] },
                    ),
                    withdraw_requests: d0.withdraw_requests.push(
                        WithdrawRequest { asset, amount, requested_round: old(self).current_round },
                    ),
                    ..d0
                },
            ));
        }
        Ok(())
    }

    /// `schedule_withdraw`: schedules the withdrawal and reports when it can
    /// be executed.
    pub fn schedule_withdraw(&mut self, who: AccountId, asset: Asset, amount: Balance) -> (r: Result<
        (),
        Error,
    >)
        requires
            old(self).current_round + old(self).config.leave_delegators_delay <= u32::MAX,
        ensures
            r is Err ==> final(self).same_state(old(self)),
            r is Ok ==> {
                let m = old(self).delegators@[who];
                let d = m.deposits[asset];
                &&& old(self).delegators@.contains_key(who) && m.deposits.contains_key(asset)
                &&& final(self).delegators@ == withdraw_scheduled(
                    old(self).delegators@,
                    who,
                    asset,
                    amount,
                    old(self).current_round,
                )
                &&& same_ledger(final(self).ledger, old(self).ledger)
                &&& final(self).keeps_all_but_delegators(old(self))
                &&& final(self).events@ == old(self).events@.push(
                    Event::ScheduledWithdraw {
                        who,
                        amount,
                        asset,
                        when: (old(self).current_round + old(
                            self,
                        ).config.leave_delegators_delay) as u32,
                    },
                )
            },
            (r is Ok) == ({
                let dels = old(self).delegators@;
                let m = dels[who];
                let d = deposit_of(m, asset);
                let now = old(self).block_number;
                &&& dels.contains_key(who)
                &&& d is Some
                &&& sat_sub(d->0.amount as int, total_locked(d->0, now)) >= amount
                &&& d->0.amount - amount >= d->0.delegated_amount
                &&& m.withdraw_requests.len() < old(self).config.max_withdraw_requests
            }),
    {
        self.process_schedule_withdraw(who, asset, amount)?;
        let when = self.current_round + self.config.leave_delegators_delay;
        self.deposit_event(Event::ScheduledWithdraw { who, amount, asset, when });
        Ok(())
    }

    /// Cancels the first withdraw request of `who` for `amount` of `asset`,
    /// returning the amount to the deposit.
    pub fn process_cancel_withdraw(&mut self, who: AccountId, asset: Asset, amount: Balance) -> (r:
        Result<(), Error>)
        ensures
            ({
                let dels = old(self).delegators@;
                let m = dels[who];
                &&& r == Err::<(), Error>(Error::NotDelegator) <==> !dels.contains_key(who)
                &&& r == Err::<(), Error>(Error::NoMatchingwithdrawRequest) <==> dels.contains_key(
                    who,
                ) && !(exists|i: int| is_first_withdraw_match(m.withdraw_requests, asset, amount, i))
                &&& r is Ok <==> dels.contains_key(who) && exists|i: int|
                    is_first_withdraw_match(m.withdraw_requests, asset, amount, i)
                &&& r is Err ==> final(self).same_state(old(self))
                &&& r is Ok ==> exists|i: int|
                    is_first_withdraw_match(m.withdraw_requests, asset, amount, i)
                        && final(self).delegators@ == withdraw_cancelled_at(
                        dels,
                        who,
                        asset,
                        amount,
                        old(self).block_number,
                        i,
                    )
                &&& r is Ok ==> same_ledger(final(self).ledger, old(self).ledger)
                    && final(self).keeps_all_but_delegators(old(self)) && final(self).events@ == old(
                    self,
                ).events@
            }),
    {
        let now = self.block_number;
        let max_locks = self.config.max_delegations;
        let idx = match self.delegators.get(&who) {
            None => {
                return Err(Error::NotDelegator);
            },
            Some(m) => match find_withdraw_request(&m.withdraw_requests, asset, amount) {
                None => {
                    return Err(Error::NoMatchingwithdrawRequest);
                },
                Some(i) => i,
            },
        };
        let mut m = self.delegators.remove(&who).unwrap();
        let ghost m0 = m@;
        let request = m.withdraw_requests.remove(idx);
        let new_deposit = match m.deposits.remove(&request.asset) {
            Some(mut d) => {
                let _ = d.increase_deposited_amount(request.amount, None, now, max_locks);
                d
            },
            None => Deposit::new(request.amount, None, now),
        };
        proof {
            assert(new_deposit@ == deposit_added(deposit_of(m0, asset), amount, None, now));
        }
        m.deposits.insert(request.asset, new_deposit);
        if m.delegations.len() == 0 {
            m.status = DelegatorStatus::Active;
        }
        proof {
            assert(m@.deposits =~= m0.deposits.insert(
                asset,
                deposit_added(deposit_of(m0, asset), amount, None, now),
            ));
            assert(m@.withdraw_requests =~= m0.withdraw_requests.remove(idx as int));
        }
        self.delegators.insert(who, m);
        proof {
            let i = idx as int;
            assert(is_first_withdraw_match(m0.withdraw_requests, asset, amount, i));
            assert(self.delegators@ =~= old(self).delegators@.insert(
                who,
                DelegatorMetadataView {
                    deposits: m0.deposits.insert(
                        asset,
                        deposit_added(deposit_of(m0, asset), amount, None, now),
                    ),
                    withdraw_requests: m0.withdraw_requests.remove(i),
                    status: if m0.delegations.len() == 0 {
                        DelegatorStatus::Active
                    } else {
                        m0.status
                    },
                    ..m0
                },
            ));
        }
        Ok(())
    }

    /// `cancel_withdraw`: cancels the withdraw request and reports it.
    pub fn cancel_withdraw(&mut self, who: AccountId, asset: Asset, amount: Balance) -> (r: Result<
        (),
        Error,
    >)
        ensures
            ({
                let dels = old(self).delegators@;
                let m = dels[who];
                &&& r == Err::<(), Error>(Error::NotDelegator) <==> !dels.contains_key(who)
                &&& r == Err::<(), Error>(Error::NoMatchingwithdrawRequest) <==> dels.contains_key(
                    who,
                ) && !(exists|i: int| is_first_withdraw_match(m.withdraw_requests, asset, amount, i))
                &&& r is Ok <==> dels.contains_key(who) && exists|i: int|
                    is_first_withdraw_match(m.withdraw_requests, asset, amount, i)
                &&& r is Err ==> final(self).same_state(old(self))
                &&& r is Ok ==> exists|i: int|
                    is_first_withdraw_match(m.withdraw_requests, asset, amount, i)
                        && final(self).delegators@ == withdraw_cancelled_at(
                        dels,
                        who,
                        asset,
                        amount,
                        old(self).block_number,
                        i,
                    )
                &&& r is Ok ==> same_ledger(final(self).ledger, old(self).ledger)
                    && final(self).keeps_all_but_delegators(old(self)) && final(self).events@ == old(
                    self,
                ).events@.push(Event::CancelledWithdraw { who, asset, amount })
            }),
    {
        self.process_cancel_withdraw(who, asset, amount)?;
        self.deposit_event(Event::CancelledWithdraw { who, asset, amount });
        Ok(())
    }

    /// Executes every ready withdraw request of `who`: custom assets are paid
    /// from the pallet's account, ERC20 tokens from the pallet's EVM address
    /// to `evm_address`. Requests that are not ready, or whose payment fails,
    /// stay in order.
    pub fn process_execute_withdraw(&mut self, who: AccountId, evm_address: Option<H160>) -> (r:
        Result<(), Error>)
        requires
            old(self).withdraw_rounds_fit(who),
        ensures
            ({
                let dels = old(self).delegators@;
                let m = dels[who];
                let run = withdraw_run(
                    old(self).config,
                    old(self).current_round,
                    who,
                    evm_address,
                    WithdrawProgress {
                        kept: Seq::empty(),
                        assets: old(self).ledger.assets@,
                        tokens: old(self).ledger.tokens@,
                    },
                    m.withdraw_requests,
                );
                &&& r == Err::<(), Error>(Error::NotDelegator) <==> !dels.contains_key(who)
                &&& r == Err::<(), Error>(Error::NoWithdrawRequests) <==> dels.contains_key(who)
                    && m.withdraw_requests.len() == 0
                &&& r is Ok <==> dels.contains_key(who) && m.withdraw_requests.len() > 0
                &&& r is Err ==> final(self).same_state(old(self))
                &&& r is Ok ==> {
                    &&& final(self).delegators@ == dels.insert(
                        who,
                        DelegatorMetadataView { withdraw_requests: run.kept, ..m },
                    )
                    &&& final(self).ledger.assets@ == run.assets
                    &&& final(self).ledger.tokens@ == run.tokens
                    &&& final(self).ledger.free@ == old(self).ledger.free@
                    &&& final(self).ledger.reserved@ == old(self).ledger.reserved@
                    &&& final(self).ledger.locks@ == old(self).ledger.locks@
                    &&& final(self).keeps_all_but_delegators(old(self))
                    &&& final(self).events@ == old(self).events@
                }
            }),
    {
        match self.delegators.get(&who) {
            None => {
                return Err(Error::NotDelegator);
            },
            Some(m) => {
                if m.withdraw_requests.len() == 0 {
                    return Err(Error::NoWithdrawRequests);
                }
            },
        }
        let mut m = self.delegators.remove(&who).unwrap();
        let ghost m0 = m@;
        let ghost qs = m@.withdraw_requests;
        let ghost init = WithdrawProgress {
            kept: Seq::empty(),
            assets: old(self).ledger.assets@,
            tokens: old(self).ledger.tokens@,
        };
        let cfg = self.config;
        let round = self.current_round;
        let mut kept: Vec<WithdrawRequest> = Vec::new();
        let mut i: usize = 0;
        while i < m.withdraw_requests.len()
            invariant
                qs == m.withdraw_requests@,
                m@ == m0,
                cfg == old(self).config,
                round == old(self).current_round,
                i <= qs.len(),
                forall|j: int|
                    0 <= j < qs.len() ==> cfg.leave_delegators_delay + (#[trigger] qs[j]).requested_round
                        <= u32::MAX,
                ({
                    let p = withdraw_run(cfg, round, who, evm_address, init, qs.subrange(0, i as int));
                    &&& kept@ == p.kept
                    &&& self.ledger.assets@ == p.assets
                    &&& self.ledger.tokens@ == p.tokens
                }),
                self.ledger.free@ == old(self).ledger.free@,
                self.ledger.reserved@ == old(self).ledger.reserved@,
                self.ledger.locks@ == old(self).ledger.locks@,
                self.same_settings(old(self)),
                self.operators@ == old(self).operators@,
                self.at_stake@ == old(self).at_stake@,
                self.events@ == old(self).events@,
                self.delegators@ == old(self).delegators@.remove(who),
            decreases qs.len() - i,
        {
            let q = m.withdraw_requests[i];
            let ghost p = withdraw_run(cfg, round, who, evm_address, init, qs.subrange(0, i as int));
            proof {
                let s = qs.subrange(0, i as int + 1);
                assert(s.drop_last() =~= qs.subrange(0, i as int));
                assert(s.last() == q);
            }
            let ready = round >= cfg.leave_delegators_delay + q.requested_round;
            let paid = if !ready {
                false
            } else {
                match q.asset {
                    Asset::Custom(id) => {
                        let res = self.ledger.asset_transfer(id, cfg.pallet_account, who, q.amount);
                        res.is_ok()
                    },
                    Asset::Erc20(token) => match evm_address {
                        Some(to) => self.ledger.token_transfer(
                            token,
                            cfg.pallet_evm_address,
                            to,
                            q.amount,
                        ),
                        None => false,
                    },
                }
            };
            if !paid {
                kept.push(q);
            }
            i = i + 1;
        }
        proof {
            assert(qs.subrange(0, qs.len() as int) =~= qs);
        }
        m.withdraw_requests = kept;
        self.delegators.insert(who, m);
        proof {
            let run = withdraw_run(cfg, round, who, evm_address, init, qs);
            assert(self.delegators@ =~= old(self).delegators@.insert(
                who,
                DelegatorMetadataView { withdraw_requests: run.kept, ..m0 },
            ));
        }
        Ok(())
    }

    /// `execute_withdraw`: resolves the withdrawing account from the origin,
    /// executes its ready withdraw requests and reports it. `caller` signed
    /// the call; with an EVM address the caller must be the pallet and
    /// `evm_account` is the account that address maps to.
    pub fn execute_withdraw(
        &mut self,
        caller: AccountId,
        evm_address: Option<H160>,
        evm_account: AccountId,
    ) -> (r: Result<(), Error>)
        requires
            old(self).withdraw_rounds_fit(withdraw_account(caller, evm_address, evm_account)),
        ensures
            ({
                let who = withdraw_account(caller, evm_address, evm_account);
                let dels = old(self).delegators@;
                let m = dels[who];
                let run = withdraw_run(
                    old(self).config,
                    old(self).current_round,
                    who,
                    evm_address,
                    WithdrawProgress {
                        kept: Seq::empty(),
                        assets: old(self).ledger.assets@,
                        tokens: old(self).ledger.tokens@,
                    },
                    m.withdraw_requests,
                );
                &&& r == Err::<(), Error>(Error::BadOrigin) <==> evm_address is Some && caller != old(
                    self,
                ).config.pallet_account
                &&& (evm_address is None || caller == old(self).config.pallet_account) ==> {
                    &&& r == Err::<(), Error>(Error::NotDelegator) <==> !dels.contains_key(who)
                    &&& r == Err::<(), Error>(Error::NoWithdrawRequests) <==> dels.contains_key(who)
                        && m.withdraw_requests.len() == 0
                }
                &&& r is Ok <==> (evm_address is None || caller == old(self).config.pallet_account)
                    && dels.contains_key(who) && m.withdraw_requests.len() > 0
                &&& r is Err ==> final(self).same_state(old(self))
                &&& r is Ok ==> {
                    &&& final(self).delegators@ == dels.insert(
                        who,
                        DelegatorMetadataView { withdraw_requests: run.kept, ..m },
                    )
                    &&& final(self).ledger.assets@ == run.assets
                    &&& final(self).ledger.tokens@ == run.tokens
                    &&& final(self).ledger.free@ == old(self).ledger.free@
                    &&& final(self).ledger.reserved@ == old(self).ledger.reserved@
                    &&& final(self).ledger.locks@ == old(self).ledger.locks@
                    &&& final(self).keeps_all_but_delegators(old(self))
                    &&& final(self).events@ == old(self).events@.push(
                        Event::ExecutedWithdraw { who },
                    )
                }
            }),
    {
        let who = match evm_address {
            Some(_) => {
                if caller != self.config.pallet_account {
                    return Err(Error::BadOrigin);
                }
                evm_account
            },
            None => caller,
        };
        self.process_execute_withdraw(who, evm_address)?;
        self.deposit_event(Event::ExecutedWithdraw { who });
        Ok(())
    }
}

} // verus!
