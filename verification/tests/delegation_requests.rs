use tangle_pallets::parachain_staking::delegation_requests::{
    cancel_request_with_state, Bond, CancelledScheduledRequest, DelegationAction,
    DelegationRequests, Delegator, DelegatorStatus, Error, Event, ScheduledRequest, StakingConfig,
};

#[test]
fn test_cancel_request_with_state_removes_request_for_correct_delegator_and_updates_state() {
    let mut state = Delegator {
        id: 1,
        delegations: vec![Bond { amount: 100, owner: 2 }],
        total: 100,
        less_total: 100,
        status: DelegatorStatus::Active,
    };
    let mut scheduled_requests = vec![
        ScheduledRequest { delegator: 1, when_executable: 1, action: DelegationAction::Revoke(100) },
        ScheduledRequest { delegator: 2, when_executable: 1, action: DelegationAction::Decrease(50) },
    ];
    let removed_request = cancel_request_with_state(&1, &mut state, &mut scheduled_requests);

    assert_eq!(
        removed_request,
        Some(ScheduledRequest {
            delegator: 1,
            when_executable: 1,
            action: DelegationAction::Revoke(100),
        })
    );
    assert_eq!(
        scheduled_requests,
        vec![ScheduledRequest {
            delegator: 2,
            when_executable: 1,
            action: DelegationAction::Decrease(50),
        },]
    );
    assert_eq!(
        state,
        Delegator {
            id: 1,
            delegations: vec![Bond { amount: 100, owner: 2 }],
            total: 100,
            less_total: 0,
            status: DelegatorStatus::Active,
        }
    );
}

#[test]
fn test_cancel_request_with_state_does_nothing_when_request_does_not_exist() {
    let mut state = Delegator {
        id: 1,
        delegations: vec![Bond { amount: 100, owner: 2 }],
        total: 100,
        less_total: 100,
        status: DelegatorStatus::Active,
    };
    let mut scheduled_requests = vec![ScheduledRequest {
        delegator: 2,
        when_executable: 1,
        action: DelegationAction::Decrease(50),
    }];
    let removed_request = cancel_request_with_state(&1, &mut state, &mut scheduled_requests);

    assert_eq!(removed_request, None,);
    assert_eq!(
        scheduled_requests,
        vec![ScheduledRequest {
            delegator: 2,
            when_executable: 1,
            action: DelegationAction::Decrease(50),
        },]
    );
    assert_eq!(
        state,
        Delegator {
            id: 1,
            delegations: vec![Bond { amount: 100, owner: 2 }],
            total: 100,
            less_total: 100,
            status: DelegatorStatus::Active,
        }
    );
}

fn staking() -> DelegationRequests {
    let mut s = DelegationRequests::new(StakingConfig {
        revoke_delegation_delay: 2,
        delegation_bond_less_delay: 3,
        min_delegation: 10,
        min_delegator_stk: 20,
    });
    s.delegator_state.insert(
        1,
        Delegator {
            id: 1,
            delegations: vec![Bond { owner: 7, amount: 100 }, Bond { owner: 8, amount: 50 }],
            total: 150,
            less_total: 0,
            status: DelegatorStatus::Active,
        },
    );
    s
}

#[test]
fn action_amount_of_both_kinds() {
    assert_eq!(DelegationAction::Revoke(7u128).amount(), 7);
    assert_eq!(DelegationAction::Decrease(9u128).amount(), 9);
}

#[test]
fn schedule_revoke_then_cancel_restores_pending_total() {
    let mut s = staking();
    s.round = 3;
    assert_eq!(s.delegation_schedule_revoke(7, 1), Ok(()));
    assert_eq!(s.delegator_state.get(&1).unwrap().less_total, 100);
    assert!(s.delegation_request_exists(7, 1));
    assert!(s.delegation_request_revoke_exists(7, 1));
    assert_eq!(
        s.events.last(),
        Some(&Event::DelegationRevocationScheduled {
            round: 3,
            delegator: 1,
            candidate: 7,
            scheduled_exit: 5
        })
    );
    assert_eq!(
        s.delegation_schedule_revoke(7, 1),
        Err(Error::PendingDelegationRequestAlreadyExists)
    );
    assert_eq!(s.delegation_cancel_request(7, 1), Ok(()));
    assert_eq!(s.delegator_state.get(&1).unwrap().less_total, 0);
    assert!(!s.delegation_request_exists(7, 1));
    assert_eq!(
        s.events.last(),
        Some(&Event::CancelledDelegationRequest {
            delegator: 1,
            collator: 7,
            cancelled_request: CancelledScheduledRequest {
                when_executable: 5,
                action: DelegationAction::Revoke(100)
            },
        })
    );
    assert_eq!(s.delegation_cancel_request(7, 1), Err(Error::PendingDelegationRequestDNE));
}

#[test]
fn schedule_revoke_errors() {
    let mut s = staking();
    assert_eq!(s.delegation_schedule_revoke(7, 2), Err(Error::DelegatorDNE));
    assert_eq!(s.delegation_schedule_revoke(9, 1), Err(Error::DelegationDNE));
}

#[test]
fn schedule_decrease_checks_minimums() {
    let mut s = staking();
    // the bond must stay above the decrease
    assert_eq!(s.delegation_schedule_bond_decrease(7, 1, 100), Err(Error::DelegatorBondBelowMin));
    // what is left of the bond must reach the minimum delegation
    assert_eq!(s.delegation_schedule_bond_decrease(7, 1, 95), Err(Error::DelegationBelowMin));
    // the total after the decrease must reach the minimum stake: 150 - 20 = 130
    assert_eq!(s.delegation_schedule_bond_decrease(7, 1, 40), Ok(()));
    assert!(s.delegation_request_exists(7, 1));
    assert!(!s.delegation_request_revoke_exists(7, 1));
    assert_eq!(s.delegator_state.get(&1).unwrap().less_total, 40);
    // A decrease waits the decrease delay, not the revocation delay.
    assert_eq!(
        s.scheduled_requests.get(&7).unwrap()[0].when_executable,
        3
    );
    assert_eq!(
        s.delegation_schedule_bond_decrease(8, 1, 35),
        Ok(())
    );
    let mut s2 = staking();
    s2.delegator_state.get(&1).unwrap();
    let mut d = s2.delegator_state.remove(&1).unwrap();
    d.less_total = 120;
    s2.delegator_state.insert(1, d);
    assert_eq!(s2.delegation_schedule_bond_decrease(7, 1, 20), Err(Error::DelegatorBondBelowMin));
}

#[test]
fn remove_request_with_state_lowers_pending_total() {
    let mut s = staking();
    assert_eq!(s.delegation_schedule_revoke(8, 1), Ok(()));
    let mut d = Delegator {
        id: 1,
        delegations: vec![],
        total: 0,
        less_total: 70,
        status: DelegatorStatus::Active,
    };
    s.delegation_remove_request_with_state(8, 1, &mut d);
    assert_eq!(d.less_total, 20);
    assert!(!s.delegation_request_exists(8, 1));
    s.delegation_remove_request_with_state(8, 1, &mut d);
    assert_eq!(d.less_total, 20);
}

/// The staking storage with candidates 7 and 8 counting 1_000 each.
fn staking_with_candidates() -> DelegationRequests {
    let mut s = staking();
    s.candidate_totals.insert(7, 1_000);
    s.candidate_totals.insert(8, 1_000);
    s.total = 2_000;
    s
}

#[test]
fn a_request_executes_only_once_due() {
    let mut s = staking_with_candidates();
    assert_eq!(s.delegation_execute_scheduled_request(7, 2), Err(Error::DelegatorDNE));
    assert_eq!(s.delegation_execute_scheduled_request(7, 1), Err(Error::PendingDelegationRequestDNE));
    assert_eq!(s.delegation_schedule_revoke(8, 1), Ok(()));
    s.round = 1;
    assert_eq!(
        s.delegation_execute_scheduled_request(8, 1),
        Err(Error::PendingDelegationRequestNotDueYet)
    );
    assert!(s.delegation_request_exists(8, 1));
    s.round = 2;
    assert_eq!(s.delegation_execute_scheduled_request(8, 1), Ok(()));
    let d = s.delegator_state.get(&1).unwrap();
    assert_eq!(d.delegations, vec![Bond { owner: 7, amount: 100 }]);
    assert_eq!(d.total, 100);
    assert_eq!(d.less_total, 0);
    assert!(!s.delegation_request_exists(8, 1));
    assert_eq!(s.candidate_totals.get(&8), Some(&950));
    assert_eq!(s.total, 1_950);
    assert_eq!(
        s.events.last(),
        Some(&Event::DelegationRevoked { delegator: 1, candidate: 8, unstaked_amount: 50 })
    );
}

#[test]
fn revoking_the_last_delegation_removes_the_delegator() {
    let mut s = staking_with_candidates();
    assert_eq!(s.delegation_schedule_revoke(8, 1), Ok(()));
    s.round = 2;
    assert_eq!(s.delegation_execute_scheduled_request(8, 1), Ok(()));
    assert_eq!(s.delegation_schedule_revoke(7, 1), Ok(()));
    s.round = 4;
    assert_eq!(s.delegation_execute_scheduled_request(7, 1), Ok(()));
    assert!(s.delegator_state.get(&1).is_none());
    assert_eq!(s.total, 1_850);
    let n = s.events.len();
    assert_eq!(
        s.events[n - 2],
        Event::DelegationRevoked { delegator: 1, candidate: 7, unstaked_amount: 100 }
    );
    assert_eq!(s.events[n - 1], Event::DelegatorLeft { delegator: 1, unstaked_amount: 100 });
}

#[test]
fn a_revoke_that_leaves_too_little_stake_is_refused() {
    let mut s = staking_with_candidates();
    assert_eq!(s.delegation_schedule_revoke(7, 1), Ok(()));
    // 150 - 20 = 130 covers 100; after lowering the total, it no longer does.
    let mut d = s.delegator_state.remove(&1).unwrap();
    d.total = 110;
    s.delegator_state.insert(1, d);
    s.round = 2;
    assert_eq!(s.delegation_execute_scheduled_request(7, 1), Err(Error::DelegatorBondBelowMin));
    assert!(s.delegation_request_exists(7, 1));
}

#[test]
fn a_due_decrease_lowers_the_bond_and_the_totals() {
    let mut s = staking_with_candidates();
    assert_eq!(s.delegation_schedule_bond_decrease(7, 1, 40), Ok(()));
    s.round = 3;
    assert_eq!(s.delegation_execute_scheduled_request(7, 1), Ok(()));
    let d = s.delegator_state.get(&1).unwrap();
    assert_eq!(d.delegations[0], Bond { owner: 7, amount: 60 });
    assert_eq!(d.total, 110);
    assert_eq!(d.less_total, 0);
    assert_eq!(s.candidate_totals.get(&7), Some(&960));
    assert_eq!(s.total, 1_960);
    assert_eq!(
        s.events.last(),
        Some(&Event::DelegationDecreased { delegator: 1, candidate: 7, amount: 40 })
    );
}

#[test]
fn a_decrease_without_its_candidate_is_refused() {
    let mut s = staking();
    assert_eq!(s.delegation_schedule_bond_decrease(7, 1, 40), Ok(()));
    s.round = 3;
    assert_eq!(s.delegation_execute_scheduled_request(7, 1), Err(Error::CandidateDNE));
    assert_eq!(s.delegator_state.get(&1).unwrap().delegations[0].amount, 100);
}
