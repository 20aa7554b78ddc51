//! The actuator takes actions decided by the controller and applies them to
//! the buckets. It knows how to carry an action out, but nothing of the
//! observations that led to it.
use vstd::prelude::*;

use crate::buckets::{
    lemma_transfer_conserves_total, lemma_transfer_within_capacity, total, transfer_error,
    transferred, within_capacity,
};
use crate::error::ControlError;

verus! {

/// A corrective instruction produced by a policy.
#[derive(Clone, Copy, Debug, PartialEq, Eq, Structural)]
pub enum Action {
    /// Move `amount` from bucket `source` to bucket `destination`.
    Transfer { source: u64, destination: u64, amount: u64 },
    /// Leave the buckets as they are.
    NoAction,
}

/// The device through which the actuator changes the buckets.
pub trait FinalControlElement: View<V = Map<u64, u64>> {
    /// Moves `amount` from `source` to `destination`, or changes nothing and
    /// says why the transfer is invalid.
    fn transfer(&mut self, source: u64, destination: u64, amount: u64) -> (r: Result<
        (),
        ControlError,
    >)
        ensures
            match transfer_error(old(self)@, source, destination, amount) {
                Some(e) => r == Err::<(), ControlError>(e) && final(self)@ == old(self)@,
                None => r is Ok && final(self)@ == transferred(
                    old(self)@,
                    source,
                    destination,
                    amount,
                ),
            },
    ;

    /// Adds a new bucket and returns its identifier, or changes nothing.
    fn add_bucket(&mut self) -> (r: Result<u64, ControlError>)
        ensures
            r is Err ==> final(self)@ == old(self)@,
            r matches Ok(id) ==> {
                &&& !old(self)@.contains_key(id)
                &&& final(self)@.contains_key(id)
                &&& final(self)@.remove(id) == old(self)@
            },
    ;
}

/// What one actuator cycle did.
#[derive(Clone, Copy, Debug, PartialEq, Eq, Structural)]
pub enum ActuatorStep {
    /// The transfer was applied.
    Applied(Action),
    /// The transfer was invalid and dropped; the buckets are unchanged. It is
    /// not retried: the next controller cycle decides afresh.
    Rejected(Action, ControlError),
    /// `NoAction` was received; nothing to do.
    Skipped,
    /// Shutdown was requested: the loop ends without touching the buckets.
    Terminated,
    /// The channel closed while no shutdown had been requested.
    Failed(ControlError),
}

/// The buckets after `action` is carried out on `m`; an invalid transfer
/// changes nothing.
pub open spec fn applied(m: Map<u64, u64>, action: Action) -> Map<u64, u64> {
    match action {
        Action::Transfer { source, destination, amount } => {
            if transfer_error(m, source, destination, amount) is None {
                transferred(m, source, destination, amount)
            } else {
                m
            }
        },
        Action::NoAction => m,
    }
}

/// `action` carried out `n` times in a row on `m`.
pub open spec fn applied_times(m: Map<u64, u64>, action: Action, n: nat) -> Map<u64, u64>
    decreases n,
{
    if n == 0 {
        m
    } else {
        applied(applied_times(m, action, (n - 1) as nat), action)
    }
}

/// The outcome of one actuator cycle on buckets `m`, given what the channel
/// delivered (`None` once it is closed) and whether shutdown was requested.
pub open spec fn step_of(
    m: Map<u64, u64>,
    received: Option<Action>,
    cancelled: bool,
) -> ActuatorStep {
    if cancelled {
        ActuatorStep::Terminated
    } else {
        match received {
            None => ActuatorStep::Failed(ControlError::ChannelClosed),
            Some(Action::NoAction) => ActuatorStep::Skipped,
            Some(Action::Transfer { source, destination, amount }) => match transfer_error(
                m,
                source,
                destination,
                amount,
            ) {
                Some(e) => ActuatorStep::Rejected(
                    Action::Transfer { source, destination, amount },
                    e,
                ),
                None => ActuatorStep::Applied(Action::Transfer { source, destination, amount }),
            },
        }
    }
}

/// The buckets after one actuator cycle.
pub open spec fn state_after_step(
    m: Map<u64, u64>,
    received: Option<Action>,
    cancelled: bool,
) -> Map<u64, u64> {
    match received {
        Some(action) => if cancelled {
            m
        } else {
            applied(m, action)
        },
        None => m,
    }
}

/// One actuator cycle: carries out what the channel delivered, unless
/// shutdown was requested, in which case nothing more is processed.
pub fn actuate<B: FinalControlElement>(
    element: &mut B,
    received: Option<Action>,
    cancelled: bool,
) -> (r: ActuatorStep)
    ensures
        r == step_of(old(element)@, received, cancelled),
        final(element)@ == state_after_step(old(element)@, received, cancelled),
{
    if cancelled {
        return ActuatorStep::Terminated;
    }
    match received {
        None => ActuatorStep::Failed(ControlError::ChannelClosed),
        Some(Action::NoAction) => ActuatorStep::Skipped,
        Some(action @ Action::Transfer { source, destination, amount }) => {
            match element.transfer(source, destination, amount) {
                Ok(()) => ActuatorStep::Applied(action),
                Err(e) => ActuatorStep::Rejected(action, e),
            }
        },
    }
}

/// `NoAction` is idempotent: carried out any number of times, it leaves the
/// buckets as they were.
pub proof fn lemma_no_action_idempotent(m: Map<u64, u64>, n: nat)
    ensures
        applied_times(m, Action::NoAction, n) == m,
    decreases n,
{
    if n > 0 {
        lemma_no_action_idempotent(m, (n - 1) as nat);
    }
}

/// Carrying out any action keeps every quantity within `[0, MAX_QUANTITY]`.
pub proof fn lemma_applied_within_capacity(m: Map<u64, u64>, action: Action)
    requires
        within_capacity(m),
    ensures
        within_capacity(applied(m, action)),
{
    if let Action::Transfer { source, destination, amount } = action {
        if transfer_error(m, source, destination, amount) is None {
            lemma_transfer_within_capacity(m, source, destination, amount);
        }
    }
}

/// Carrying out any action conserves the sum of all quantities.
pub proof fn lemma_applied_conserves_total(m: Map<u64, u64>, action: Action)
    requires
        m.dom().finite(),
    ensures
        total(applied(m, action)) == total(m),
{
    if let Action::Transfer { source, destination, amount } = action {
        if transfer_error(m, source, destination, amount) is None {
            lemma_transfer_conserves_total(m, source, destination, amount);
        }
    }
}

} // verus!
