//! The task that relays the root of the tree to one secondary chain, as a
//! state machine.
//!
//! The machine decides; its driver waits for notifications, reads the root
//! that the destination has recorded, and submits transactions. The driver
//! hands each outcome to [`StateBridge::step`] and performs the action that
//! comes back. There is no final state.

use vstd::prelude::*;
use crate::error::StateBridgeError;
use crate::field::Field;
use crate::retry::{backoff_delay, RetryPolicy};

verus! {

/// Where a bridge stands in its cycle.
#[derive(Clone, Copy, Debug, PartialEq, Eq, Structural)]
pub enum Phase {
    /// Waiting for a notification of a new root.
    Idle,
    /// Waiting for the root that the destination has recorded.
    Comparing,
    /// Waiting for the outcome of a submitted transaction.
    Propagating,
}

/// What has happened outside the bridge.
#[derive(Debug)]
pub enum BridgeEvent {
    /// The bridge was woken; these are all pending root notifications,
    /// oldest first.
    Notified(Vec<Field>),
    /// The root that the destination has recorded was read.
    DestinationRoot(Field),
    /// Reading the root of the destination failed.
    ReadFailed,
    /// The submitted transaction was confirmed.
    Confirmed,
    /// The transaction could not be submitted, timed out or was reverted.
    Failed,
}

/// What the driver is to do next.
#[derive(Clone, Copy, Debug, PartialEq, Eq, Structural)]
pub enum BridgeAction {
    /// Wait until at least one root notification is pending, then drain them
    /// all.
    AwaitRoot,
    /// Wait for the given number of milliseconds, then read the root that the
    /// destination has recorded.
    ReadDestinationRoot { delay_ms: u64 },
    /// Wait for the given number of milliseconds, then submit a transaction
    /// that writes the root to the destination, and wait for its outcome.
    Propagate { root: Field, delay_ms: u64 },
    /// Report that this cycle has failed, then wait for the next root
    /// notification.
    GiveUp(StateBridgeError),
    /// The event does not belong to what the bridge is waiting for: go on
    /// waiting for the outcome of the last action.
    KeepWaiting,
}

/// The bridge to one secondary chain.
#[derive(Clone, Copy, Debug, PartialEq, Eq, Structural)]
pub struct StateBridge {
    /// The newest root of the tree that the bridge has seen.
    pub latest_root: Field,
    /// The root that the destination has recorded, as far as the bridge
    /// knows.
    pub destination_root: Option<Field>,
    /// Where the bridge stands in its cycle.
    pub phase: Phase,
    /// The number of failures in a row of the operation that the bridge is
    /// waiting for.
    pub failures: u32,
    /// How failed operations are retried.
    pub policy: RetryPolicy,
}

/// The newest of the given roots, or `current` where there is none.
pub open spec fn newest_root(current: Field, pending: Seq<Field>) -> Field {
    if pending.len() == 0 {
        current
    } else {
        pending.last()
    }
}

/// The bridge after a failure of the operation it is waiting for, and what
/// to do about it: `again` after a wait while retries are left, else give the
/// cycle up with `error`.
pub open spec fn after_failure(
    bridge: StateBridge,
    again: spec_fn(u64) -> BridgeAction,
    error: StateBridgeError,
) -> (StateBridge, BridgeAction) {
    if bridge.failures < bridge.policy.max_retries {
        (
            StateBridge { failures: (bridge.failures + 1) as u32, ..bridge },
            again(backoff_delay(bridge.policy, (bridge.failures + 1) as nat) as u64),
        )
    } else {
        (StateBridge { phase: Phase::Idle, failures: 0, ..bridge }, BridgeAction::GiveUp(error))
    }
}

/// The bridge after an event, and what its driver is to do next.
pub open spec fn next(bridge: StateBridge, event: BridgeEvent) -> (StateBridge, BridgeAction) {
    match (bridge.phase, event) {
        (Phase::Idle, BridgeEvent::Notified(pending)) => {
            if pending@.len() == 0 {
                (bridge, BridgeAction::AwaitRoot)
            } else {
                (
                    StateBridge {
                        latest_root: pending@.last(),
                        phase: Phase::Comparing,
                        failures: 0,
                        ..bridge
                    },
                    BridgeAction::ReadDestinationRoot { delay_ms: 0 },
                )
            }
        },
        (Phase::Comparing, BridgeEvent::DestinationRoot(recorded)) => {
            if recorded == bridge.latest_root {
                (
                    StateBridge {
                        destination_root: Some(recorded),
                        phase: Phase::Idle,
                        failures: 0,
                        ..bridge
                    },
                    BridgeAction::AwaitRoot,
                )
            } else {
                (
                    StateBridge {
                        destination_root: Some(recorded),
                        phase: Phase::Propagating,
                        failures: 0,
                        ..bridge
                    },
                    BridgeAction::Propagate { root: bridge.latest_root, delay_ms: 0 },
                )
            }
        },
        (Phase::Comparing, BridgeEvent::ReadFailed) => after_failure(
            bridge,
            |delay_ms: u64| BridgeAction::ReadDestinationRoot { delay_ms },
            StateBridgeError::TransientChainError,
        ),
        (Phase::Propagating, BridgeEvent::Confirmed) => (
            StateBridge {
                destination_root: Some(bridge.latest_root),
                phase: Phase::Idle,
                failures: 0,
                ..bridge
            },
            BridgeAction::AwaitRoot,
        ),
        (Phase::Propagating, BridgeEvent::Failed) => after_failure(
            bridge,
            |delay_ms: u64| BridgeAction::Propagate { root: bridge.latest_root, delay_ms },
            StateBridgeError::PropagationFailed,
        ),
        _ => (bridge, BridgeAction::KeepWaiting),
    }
}

impl StateBridge {
    /// A bridge that has seen no root yet and waits for the first one.
    pub fn new(policy: RetryPolicy) -> (bridge: StateBridge)
        ensures
            bridge == (StateBridge {
                latest_root: bridge.latest_root,
                destination_root: None,
                phase: Phase::Idle,
                failures: 0,
                policy,
            }),
            bridge.latest_root@ == 0,
    {
        StateBridge {
            latest_root: Field::zero(),
            destination_root: None,
            phase: Phase::Idle,
            failures: 0,
            policy,
        }
    }

    /// Takes in an event and says what to do next.
    pub fn step(&mut self, event: BridgeEvent) -> (action: BridgeAction)
        ensures
            (*final(self), action) == next(*old(self), event),
    {
        match (self.phase, event) {
            (Phase::Idle, BridgeEvent::Notified(pending)) => {
                let count = pending.len();
                if count == 0 {
                    BridgeAction::AwaitRoot
                } else {
                    self.latest_root = pending[count - 1];
                    self.phase = Phase::Comparing;
                    self.failures = 0;
                    BridgeAction::ReadDestinationRoot { delay_ms: 0 }
                }
            },
            (Phase::Comparing, BridgeEvent::DestinationRoot(recorded)) => {
                self.destination_root = Some(recorded);
                self.failures = 0;
                if recorded == self.latest_root {
                    self.phase = Phase::Idle;
                    BridgeAction::AwaitRoot
                } else {
                    self.phase = Phase::Propagating;
                    BridgeAction::Propagate { root: self.latest_root, delay_ms: 0 }
                }
            },
            (Phase::Comparing, BridgeEvent::ReadFailed) => {
                match self.fail() {
                    Some(delay_ms) => BridgeAction::ReadDestinationRoot { delay_ms },
                    None => BridgeAction::GiveUp(StateBridgeError::TransientChainError),
                }
            },
            (Phase::Propagating, BridgeEvent::Confirmed) => {
                self.destination_root = Some(self.latest_root);
                self.phase = Phase::Idle;
                self.failures = 0;
                BridgeAction::AwaitRoot
            },
            (Phase::Propagating, BridgeEvent::Failed) => {
                match self.fail() {
                    Some(delay_ms) => BridgeAction::Propagate { root: self.latest_root, delay_ms },
                    None => BridgeAction::GiveUp(StateBridgeError::PropagationFailed),
                }
            },
            _ => BridgeAction::KeepWaiting,
        }
    }

    /// Counts one more failure. The result is the wait before the retry, or
    /// nothing where the retries are used up; the bridge is then idle again.
    fn fail(&mut self) -> (res: Option<u64>)
        ensures
            old(self).failures < old(self).policy.max_retries ==> *final(self) == (StateBridge {
                failures: (old(self).failures + 1) as u32,
                ..*old(self)
            }) && res == Some(
                backoff_delay(old(self).policy, (old(self).failures + 1) as nat) as u64,
            ),
            old(self).failures >= old(self).policy.max_retries ==> *final(self) == (StateBridge {
                phase: Phase::Idle,
                failures: 0,
                ..*old(self)
            }) && res is None,
    {
        if self.failures < self.policy.max_retries {
            self.failures = self.failures + 1;
            self.policy.next_delay(self.failures)
        } else {
            self.phase = Phase::Idle;
            self.failures = 0;
            None
        }
    }
}


/// Whatever root the bridge is told to propagate is the newest root it has
/// seen.
pub proof fn lemma_propagates_latest_root(bridge: StateBridge, event: BridgeEvent)
    ensures
        next(bridge, event).1 matches BridgeAction::Propagate { root, .. } ==> root
            == bridge.latest_root && root == next(bridge, event).0.latest_root,
{
}

/// Roots that pile up while the bridge is idle are taken in as one: of all
/// that are pending when the bridge wakes, only the newest is compared with
/// the destination, and it alone is propagated if the destination has
/// recorded another root.
pub proof fn lemma_coalesced_bridging(bridge: StateBridge, pending: Vec<Field>, recorded: Field)
    requires
        bridge.phase == Phase::Idle,
        pending@.len() > 0,
    ensures
        ({
            let (woken, first) = next(bridge, BridgeEvent::Notified(pending));
            let (compared, second) = next(woken, BridgeEvent::DestinationRoot(recorded));
            &&& woken.latest_root == pending@.last()
            &&& first == BridgeAction::ReadDestinationRoot { delay_ms: 0 }
            &&& recorded != pending@.last() ==> second == BridgeAction::Propagate {
                root: pending@.last(),
                delay_ms: 0,
            } && compared.phase == Phase::Propagating
        }),
{
}

/// A destination that has already recorded the newest root gets no
/// transaction: the bridge goes back to waiting.
pub proof fn lemma_no_duplicate_propagation(
    bridge: StateBridge,
    pending: Vec<Field>,
    recorded: Field,
)
    requires
        bridge.phase == Phase::Idle,
        recorded == newest_root(bridge.latest_root, pending@),
    ensures
        ({
            let (woken, first) = next(bridge, BridgeEvent::Notified(pending));
            let (compared, second) = next(woken, BridgeEvent::DestinationRoot(recorded));
            &&& !(first is Propagate)
            &&& !(second is Propagate)
            &&& compared.phase == Phase::Idle
            &&& compared.latest_root == recorded
        }),
{
}

} // verus!
