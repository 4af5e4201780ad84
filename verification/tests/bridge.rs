use world_tree::bridge::{BridgeAction, BridgeEvent, Phase, StateBridge};
use world_tree::error::StateBridgeError;
use world_tree::field::Field;
use world_tree::retry::RetryPolicy;

fn root(n: u64) -> Field {
    Field::from_limbs([n, 0, 0, 0]).unwrap()
}

fn policy() -> RetryPolicy {
    RetryPolicy { base_delay_ms: 100, max_delay_ms: 1000, max_retries: 5 }
}

#[test]
fn delays_double_up_to_the_longest_wait() {
    let policy = policy();
    assert_eq!(policy.next_delay(0), Some(100));
    assert_eq!(policy.next_delay(1), Some(100));
    assert_eq!(policy.next_delay(2), Some(200));
    assert_eq!(policy.next_delay(3), Some(400));
    assert_eq!(policy.next_delay(4), Some(800));
    assert_eq!(policy.next_delay(5), Some(1000));
    assert_eq!(policy.next_delay(6), None);
    assert_eq!(policy.next_delay(u32::MAX), None);
}

#[test]
fn base_delay_is_capped_too() {
    let policy = RetryPolicy { base_delay_ms: 5000, max_delay_ms: 1000, max_retries: 2 };
    assert_eq!(policy.next_delay(1), Some(1000));
    assert_eq!(policy.next_delay(2), Some(1000));
    assert_eq!(policy.next_delay(3), None);
}

#[test]
fn doubling_does_not_overflow() {
    let policy =
        RetryPolicy { base_delay_ms: u64::MAX / 2 + 1, max_delay_ms: u64::MAX, max_retries: 70 };
    assert_eq!(policy.next_delay(1), Some(u64::MAX / 2 + 1));
    assert_eq!(policy.next_delay(2), Some(u64::MAX));
    assert_eq!(policy.next_delay(70), Some(u64::MAX));
    let slow = RetryPolicy { base_delay_ms: 1, max_delay_ms: u64::MAX, max_retries: 70 };
    assert_eq!(slow.next_delay(64), Some(1 << 63));
    assert_eq!(slow.next_delay(65), Some(u64::MAX));
    let none = RetryPolicy { base_delay_ms: 0, max_delay_ms: 10, max_retries: 3 };
    assert_eq!(none.next_delay(3), Some(0));
}

#[test]
fn without_retries_the_first_failure_is_final() {
    let policy = RetryPolicy { base_delay_ms: 100, max_delay_ms: 1000, max_retries: 0 };
    assert_eq!(policy.next_delay(0), Some(100));
    assert_eq!(policy.next_delay(1), None);
}

#[test]
fn new_bridge_waits_for_a_root() {
    let bridge = StateBridge::new(policy());
    assert_eq!(bridge.latest_root, Field::zero());
    assert_eq!(bridge.destination_root, None);
    assert_eq!(bridge.phase, Phase::Idle);
    assert_eq!(bridge.failures, 0);
    assert_eq!(bridge.policy, policy());
}

#[test]
fn only_the_newest_pending_root_is_propagated() {
    let mut bridge = StateBridge::new(policy());
    let woken = bridge.step(BridgeEvent::Notified(vec![root(1), root(2), root(3)]));
    assert_eq!(woken, BridgeAction::ReadDestinationRoot { delay_ms: 0 });
    assert_eq!(bridge.latest_root, root(3));
    assert_eq!(bridge.phase, Phase::Comparing);
    let compared = bridge.step(BridgeEvent::DestinationRoot(root(1)));
    assert_eq!(compared, BridgeAction::Propagate { root: root(3), delay_ms: 0 });
    assert_eq!(bridge.phase, Phase::Propagating);
    assert_eq!(bridge.destination_root, Some(root(1)));
    assert_eq!(bridge.step(BridgeEvent::Confirmed), BridgeAction::AwaitRoot);
    assert_eq!(bridge.phase, Phase::Idle);
    assert_eq!(bridge.destination_root, Some(root(3)));
}

#[test]
fn destination_that_is_level_gets_no_transaction() {
    let mut bridge = StateBridge::new(policy());
    bridge.step(BridgeEvent::Notified(vec![root(4), root(5)]));
    assert_eq!(bridge.step(BridgeEvent::DestinationRoot(root(5))), BridgeAction::AwaitRoot);
    assert_eq!(bridge.phase, Phase::Idle);
    assert_eq!(bridge.destination_root, Some(root(5)));
    assert_eq!(bridge.latest_root, root(5));
}

#[test]
fn waking_without_a_root_changes_nothing() {
    let mut bridge = StateBridge::new(policy());
    let before = bridge;
    assert_eq!(bridge.step(BridgeEvent::Notified(vec![])), BridgeAction::AwaitRoot);
    assert_eq!(bridge, before);
}

#[test]
fn failed_propagation_is_retried_with_growing_waits_and_then_given_up() {
    let mut bridge = StateBridge::new(RetryPolicy {
        base_delay_ms: 100,
        max_delay_ms: 350,
        max_retries: 3,
    });
    bridge.step(BridgeEvent::Notified(vec![root(7)]));
    bridge.step(BridgeEvent::DestinationRoot(root(6)));
    assert_eq!(
        bridge.step(BridgeEvent::Failed),
        BridgeAction::Propagate { root: root(7), delay_ms: 100 }
    );
    assert_eq!(bridge.failures, 1);
    assert_eq!(
        bridge.step(BridgeEvent::Failed),
        BridgeAction::Propagate { root: root(7), delay_ms: 200 }
    );
    assert_eq!(
        bridge.step(BridgeEvent::Failed),
        BridgeAction::Propagate { root: root(7), delay_ms: 350 }
    );
    assert_eq!(bridge.phase, Phase::Propagating);
    assert_eq!(
        bridge.step(BridgeEvent::Failed),
        BridgeAction::GiveUp(StateBridgeError::PropagationFailed)
    );
    assert_eq!(bridge.phase, Phase::Idle);
    assert_eq!(bridge.failures, 0);
    assert_eq!(bridge.destination_root, Some(root(6)));
    assert_eq!(bridge.latest_root, root(7));
}

#[test]
fn bridge_goes_on_after_a_failed_cycle() {
    let mut bridge =
        StateBridge::new(RetryPolicy { base_delay_ms: 1, max_delay_ms: 1, max_retries: 0 });
    bridge.step(BridgeEvent::Notified(vec![root(7)]));
    bridge.step(BridgeEvent::DestinationRoot(root(6)));
    assert_eq!(
        bridge.step(BridgeEvent::Failed),
        BridgeAction::GiveUp(StateBridgeError::PropagationFailed)
    );
    assert_eq!(
        bridge.step(BridgeEvent::Notified(vec![root(8)])),
        BridgeAction::ReadDestinationRoot { delay_ms: 0 }
    );
    assert_eq!(
        bridge.step(BridgeEvent::DestinationRoot(root(6))),
        BridgeAction::Propagate { root: root(8), delay_ms: 0 }
    );
    assert_eq!(bridge.step(BridgeEvent::Confirmed), BridgeAction::AwaitRoot);
    assert_eq!(bridge.destination_root, Some(root(8)));
}

#[test]
fn retry_succeeds_and_resets_the_count() {
    let mut bridge = StateBridge::new(policy());
    bridge.step(BridgeEvent::Notified(vec![root(7)]));
    bridge.step(BridgeEvent::DestinationRoot(root(6)));
    bridge.step(BridgeEvent::Failed);
    assert_eq!(bridge.step(BridgeEvent::Confirmed), BridgeAction::AwaitRoot);
    assert_eq!(bridge.failures, 0);
    assert_eq!(bridge.destination_root, Some(root(7)));
}

#[test]
fn failed_read_is_retried_and_then_given_up() {
    let mut bridge =
        StateBridge::new(RetryPolicy { base_delay_ms: 10, max_delay_ms: 1000, max_retries: 2 });
    bridge.step(BridgeEvent::Notified(vec![root(7)]));
    assert_eq!(
        bridge.step(BridgeEvent::ReadFailed),
        BridgeAction::ReadDestinationRoot { delay_ms: 10 }
    );
    assert_eq!(
        bridge.step(BridgeEvent::ReadFailed),
        BridgeAction::ReadDestinationRoot { delay_ms: 20 }
    );
    assert_eq!(bridge.phase, Phase::Comparing);
    assert_eq!(
        bridge.step(BridgeEvent::ReadFailed),
        BridgeAction::GiveUp(StateBridgeError::TransientChainError)
    );
    assert_eq!(bridge.phase, Phase::Idle);
    assert_eq!(bridge.destination_root, None);
}

#[test]
fn read_after_a_failed_read_starts_the_propagation_count_anew() {
    let mut bridge = StateBridge::new(policy());
    bridge.step(BridgeEvent::Notified(vec![root(7)]));
    bridge.step(BridgeEvent::ReadFailed);
    assert_eq!(bridge.failures, 1);
    assert_eq!(
        bridge.step(BridgeEvent::DestinationRoot(root(1))),
        BridgeAction::Propagate { root: root(7), delay_ms: 0 }
    );
    assert_eq!(bridge.failures, 0);
}

#[test]
fn event_out_of_turn_is_passed_over() {
    let mut bridge = StateBridge::new(policy());
    let idle = bridge;
    assert_eq!(bridge.step(BridgeEvent::DestinationRoot(root(1))), BridgeAction::KeepWaiting);
    assert_eq!(bridge.step(BridgeEvent::Confirmed), BridgeAction::KeepWaiting);
    assert_eq!(bridge.step(BridgeEvent::Failed), BridgeAction::KeepWaiting);
    assert_eq!(bridge.step(BridgeEvent::ReadFailed), BridgeAction::KeepWaiting);
    assert_eq!(bridge, idle);
    bridge.step(BridgeEvent::Notified(vec![root(2)]));
    let comparing = bridge;
    assert_eq!(bridge.step(BridgeEvent::Notified(vec![root(3)])), BridgeAction::KeepWaiting);
    assert_eq!(bridge.step(BridgeEvent::Confirmed), BridgeAction::KeepWaiting);
    assert_eq!(bridge.step(BridgeEvent::Failed), BridgeAction::KeepWaiting);
    assert_eq!(bridge, comparing);
    bridge.step(BridgeEvent::DestinationRoot(root(1)));
    let propagating = bridge;
    assert_eq!(bridge.step(BridgeEvent::Notified(vec![root(3)])), BridgeAction::KeepWaiting);
    assert_eq!(bridge.step(BridgeEvent::DestinationRoot(root(3))), BridgeAction::KeepWaiting);
    assert_eq!(bridge.step(BridgeEvent::ReadFailed), BridgeAction::KeepWaiting);
    assert_eq!(bridge, propagating);
    assert_eq!(bridge.latest_root, root(2));
}
