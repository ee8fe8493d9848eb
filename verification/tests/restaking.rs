use tangle_pallets::keyed_map::KeyedMap;
use tangle_pallets::parachain_staking::delegation_requests::{
    Bond, DelegationAction, ScheduledRequest,
};
use tangle_pallets::restaking_delegation::rewards::{
    pay_one_operator_reward, DelegatorPayout, PayoutRounds,
};
use tangle_pallets::restaking_delegation::round::{Event, OperatorSelection};
use tangle_pallets::restaking_delegation::selection::{compute_top_operator, get_rewardable_delegators};
use tangle_pallets::restaking_delegation::types::{
    AutoCompoundConfig, BondWithAutoCompound, DelayedPayout, OperatorSnapshot, OperatorState,
    RewardPayment,
};

fn bond(owner: u64, amount: u128) -> Bond {
    Bond { owner, amount }
}

fn pool() -> Vec<Bond> {
    vec![bond(1, 100), bond(2, 300), bond(3, 200), bond(4, 300)]
}

#[test]
fn top_operators_by_stake_then_account_listed_by_account() {
    assert_eq!(compute_top_operator(&pool(), 2), vec![2, 4]);
    assert_eq!(compute_top_operator(&pool(), 3), vec![2, 3, 4]);
    assert_eq!(compute_top_operator(&pool(), 1), vec![4]);
}

#[test]
fn all_or_none_of_the_pool() {
    assert_eq!(compute_top_operator(&pool(), 4), vec![1, 2, 3, 4]);
    assert_eq!(compute_top_operator(&pool(), 10), vec![1, 2, 3, 4]);
    assert!(compute_top_operator(&pool(), 0).is_empty());
    assert!(compute_top_operator(&vec![], 3).is_empty());
}

fn request(delegator: u64, action: DelegationAction<u128>) -> ScheduledRequest<u64, u128> {
    ScheduledRequest { delegator, when_executable: 9, action }
}

#[test]
fn rewardable_delegations_apply_pending_requests() {
    let top = vec![bond(10, 100), bond(11, 50), bond(12, 30), bond(13, 7)];
    let reqs = vec![
        request(10, DelegationAction::Revoke(100)),
        request(11, DelegationAction::Decrease(20)),
        request(12, DelegationAction::Decrease(40)),
        // A later request of the same delegator is the one that counts.
        request(12, DelegationAction::Decrease(5)),
    ];
    let c = get_rewardable_delegators(&top, &reqs);
    assert_eq!(
        c.rewardable_delegations,
        vec![bond(10, 0), bond(11, 30), bond(12, 25), bond(13, 7)]
    );
    assert_eq!(c.uncounted_stake, 125);
}

#[test]
fn rewardable_decrease_beyond_the_bond_leaves_nothing() {
    let c = get_rewardable_delegators(&vec![bond(10, 10)], &vec![request(10, DelegationAction::Decrease(25))]);
    assert_eq!(c.rewardable_delegations, vec![bond(10, 0)]);
    assert_eq!(c.uncounted_stake, 25);
}

fn snapshot() -> OperatorSnapshot {
    OperatorSnapshot {
        bond: 600,
        delegations: vec![
            BondWithAutoCompound { owner: 10, amount: 300, auto_compound: 50 },
            BondWithAutoCompound { owner: 11, amount: 100, auto_compound: 0 },
            BondWithAutoCompound { owner: 12, amount: 0, auto_compound: 100 },
        ],
        total: 1000,
    }
}

fn terms() -> DelayedPayout {
    DelayedPayout { round_issuance: 1000, total_staking_reward: 800, operator_commission: 200_000_000 }
}

#[test]
fn reward_is_split_by_points_commission_and_stake() {
    let (status, p) = pay_one_operator_reward(100, Some((7, 50, snapshot())), &terms());
    assert_eq!(status, RewardPayment::Paid);
    let p = p.unwrap();
    assert_eq!(p.operator, 7);
    // Half the points: 400 of the staking reward; a commission of half of a
    // fifth of the issuance (100) first, then 60% of the remaining 300.
    assert_eq!(p.operator_reward, 280);
    assert_eq!(
        p.delegators,
        vec![
            DelegatorPayout { delegator: 10, amount: 90, compounded: 45 },
            DelegatorPayout { delegator: 11, amount: 30, compounded: 0 },
        ]
    );
}

#[test]
fn solo_operator_takes_its_whole_share() {
    let solo = OperatorSnapshot { bond: 600, delegations: vec![], total: 600 };
    let (status, p) = pay_one_operator_reward(100, Some((7, 25, solo)), &terms());
    assert_eq!(status, RewardPayment::Paid);
    let p = p.unwrap();
    assert_eq!(p.operator_reward, 200);
    assert!(p.delegators.is_empty());
}

#[test]
fn shares_round_to_the_nearest_with_halves_down() {
    let solo = OperatorSnapshot { bond: 1, delegations: vec![], total: 1 };
    let t = DelayedPayout { round_issuance: 0, total_staking_reward: 3, operator_commission: 0 };
    let (_, p) = pay_one_operator_reward(2, Some((7, 1, solo)), &t);
    assert_eq!(p.unwrap().operator_reward, 1);
    let solo = OperatorSnapshot { bond: 1, delegations: vec![], total: 1 };
    let t = DelayedPayout { round_issuance: 0, total_staking_reward: 5, operator_commission: 0 };
    let (_, p) = pay_one_operator_reward(3, Some((7, 2, solo)), &t);
    // Two thirds of five is 3.33...: 3.
    assert_eq!(p.unwrap().operator_reward, 3);
}

#[test]
fn nothing_to_pay_or_an_operator_without_points() {
    assert_eq!(pay_one_operator_reward(0, Some((7, 5, snapshot())), &terms()).0, RewardPayment::Finished);
    let (status, p) = pay_one_operator_reward(100, None, &terms());
    assert_eq!(status, RewardPayment::Finished);
    assert!(p.is_none());
    let (status, p) = pay_one_operator_reward(100, Some((7, 0, snapshot())), &terms());
    assert_eq!(status, RewardPayment::Skipped);
    assert!(p.is_none());
}

fn state(bond: u128, delegation_count: u32, total_counted: u128) -> OperatorState {
    OperatorState { bond, delegation_count, total_counted }
}

fn selection() -> OperatorSelection {
    let mut operator_info = KeyedMap::new();
    operator_info.insert(1, state(1000, 1, 1100));
    operator_info.insert(2, state(500, 0, 500));
    operator_info.insert(3, state(800, 2, 900));
    let mut top_delegations = KeyedMap::new();
    top_delegations.insert(1, vec![bond(20, 100)]);
    top_delegations.insert(2, vec![]);
    top_delegations.insert(3, vec![bond(21, 60), bond(22, 40)]);
    let mut scheduled_requests = KeyedMap::new();
    scheduled_requests.insert(1, vec![request(20, DelegationAction::Decrease(30))]);
    let mut auto_compounding = KeyedMap::new();
    auto_compounding.insert(1, vec![AutoCompoundConfig { delegator: 20, value: 10 }]);
    OperatorSelection {
        total_selected: 2,
        operator_pool: vec![bond(1, 1100), bond(2, 500), bond(3, 900)],
        operator_info,
        top_delegations,
        scheduled_requests,
        auto_compounding,
        at_stake: KeyedMap::new(),
        selected_operators: vec![],
        events: vec![],
    }
}

#[test]
fn select_top_operators_snapshots_the_chosen() {
    let mut s = selection();
    assert_eq!(s.select_top_operators(5), (2, 3, 2000));
    assert_eq!(s.selected_operators, vec![1, 3]);
    let round = s.at_stake.get(&5).unwrap();
    assert!(round.get(&2).is_none());
    let one = round.get(&1).unwrap();
    assert_eq!(one.bond, 1000);
    assert_eq!(one.total, 1070);
    assert_eq!(
        one.delegations,
        vec![BondWithAutoCompound { owner: 20, amount: 70, auto_compound: 10 }]
    );
    let three = round.get(&3).unwrap();
    assert_eq!(three.total, 900);
    assert_eq!(three.delegations.len(), 2);
    assert_eq!(three.delegations[1], BondWithAutoCompound { owner: 22, amount: 40, auto_compound: 0 });
    assert_eq!(
        s.events,
        vec![
            Event::OperatorChosen { round: 5, operator_account: 1, total_exposed_amount: 1100 },
            Event::OperatorChosen { round: 5, operator_account: 3, total_exposed_amount: 900 },
        ]
    );
}

#[test]
fn without_a_choice_the_previous_round_is_kept() {
    let mut s = selection();
    assert_eq!(s.select_top_operators(5), (2, 3, 2000));
    s.events.clear();
    s.total_selected = 0;
    assert_eq!(s.select_top_operators(6), (2, 3, 1970));
    assert_eq!(s.selected_operators, vec![1, 3]);
    let round = s.at_stake.get(&6).unwrap();
    assert_eq!(round.get(&1).unwrap().total, 1070);
    assert_eq!(round.get(&3).unwrap().total, 900);
    assert_eq!(
        s.events,
        vec![
            Event::OperatorChosen { round: 6, operator_account: 1, total_exposed_amount: 1070 },
            Event::OperatorChosen { round: 6, operator_account: 3, total_exposed_amount: 900 },
        ]
    );
    // Round 5 is left as it was.
    assert_eq!(s.at_stake.get(&5).unwrap().get(&1).unwrap().total, 1070);
}

#[test]
fn update_active_keeps_the_pool_ordered() {
    let mut s = selection();
    s.update_active(2, 700);
    assert_eq!(s.operator_pool, vec![bond(1, 1100), bond(2, 700), bond(3, 900)]);
    s.update_active(0, 5);
    assert_eq!(s.operator_pool[0], bond(0, 5));
    s.update_active(9, 50);
    assert_eq!(s.operator_pool.last(), Some(&bond(9, 50)));
    s.update_active(3, 10);
    assert_eq!(
        s.operator_pool,
        vec![bond(0, 5), bond(1, 1100), bond(2, 700), bond(3, 10), bond(9, 50)]
    );
}

fn rounds() -> PayoutRounds {
    let mut delayed_payouts = KeyedMap::new();
    delayed_payouts.insert(3, terms());
    let mut points = KeyedMap::new();
    points.insert(3, 100);
    let mut pts = KeyedMap::new();
    pts.insert(7, 50);
    pts.insert(8, 0);
    let mut awarded_pts = KeyedMap::new();
    awarded_pts.insert(3, pts);
    let mut snaps = KeyedMap::new();
    snaps.insert(8, OperatorSnapshot { bond: 1, delegations: vec![], total: 1 });
    snaps.insert(7, snapshot());
    let mut at_stake = KeyedMap::new();
    at_stake.insert(3, snaps);
    PayoutRounds { reward_payment_delay: 2, delayed_payouts, points, awarded_pts, at_stake }
}

#[test]
fn delayed_payouts_pay_one_operator_per_call_then_clean_up() {
    let mut r = rounds();
    // Too early, and a round with nothing due.
    assert!(r.handle_delayed_payouts(1).is_none());
    assert!(r.handle_delayed_payouts(4).is_none());
    assert_eq!(r.at_stake.get(&3).unwrap().len(), 2);
    // Operator 8 has no points: it is passed over.
    assert!(r.handle_delayed_payouts(5).is_none());
    assert!(r.at_stake.get(&3).unwrap().get(&8).is_none());
    // Operator 7 is paid its share.
    let p = r.handle_delayed_payouts(5).unwrap();
    assert_eq!(p.operator, 7);
    assert_eq!(p.operator_reward, 280);
    assert_eq!(r.awarded_pts.get(&3).unwrap().len(), 0);
    assert!(r.delayed_payouts.get(&3).is_some());
    // Nothing is left: the round's terms and points go.
    assert!(r.handle_delayed_payouts(5).is_none());
    assert!(r.delayed_payouts.get(&3).is_none());
    assert!(r.points.get(&3).is_none());
}
