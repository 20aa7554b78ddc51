//! A policy is one control strategy: it reads the sensor and emits the action
//! the actuator should take.
use vstd::prelude::*;

use crate::actuator::Action;
use crate::buckets::{transfer_error, within_capacity};
use crate::sensor::{is_largest, is_smallest, largest_of, smallest_of, Sensor};

verus! {

/// The available control strategies.
#[derive(Clone, Copy, Debug, PartialEq, Eq, Structural)]
pub enum Policy {
    /// Move half the gap between the largest and the smallest bucket from
    /// the former to the latter.
    Spread,
    /// Never act.
    NoOp,
}

/// The action `policy` decides on for the bucket levels `m`.
///
/// Spread halves the gap (rounding down) instead of closing it: the buckets
/// converge over several cycles rather than in one step.
pub open spec fn planned_action(policy: Policy, m: Map<u64, u64>) -> Action {
    match policy {
        Policy::Spread => match (smallest_of(m), largest_of(m)) {
            (Some((low, low_qty)), Some((high, high_qty))) => if low == high {
                Action::NoAction
            } else {
                Action::Transfer {
                    source: high,
                    destination: low,
                    amount: ((high_qty - low_qty) / 2) as u64,
                }
            },
            _ => Action::NoAction,
        },
        Policy::NoOp => Action::NoAction,
    }
}

impl Policy {
    /// Decides the next action from the sensor's current levels.
    pub fn analyze<S: Sensor>(&self, sensor: &S) -> (r: Action)
        ensures
            r == planned_action(*self, sensor@),
    {
        match self {
            Policy::Spread => {
                let min_bucket = sensor.get_smallest_bucket();
                let max_bucket = sensor.get_largest_bucket();
                match (min_bucket, max_bucket) {
                    (Some((min_id, min_qty)), Some((max_id, max_qty))) => {
                        if min_id == max_id {
                            // All buckets hold the same quantity.
                            Action::NoAction
                        } else {
                            Action::Transfer {
                                source: max_id,
                                destination: min_id,
                                amount: (max_qty - min_qty) / 2,
                            }
                        }
                    },
                    _ => Action::NoAction,
                }
            },
            Policy::NoOp => Action::NoAction,
        }
    }
}

/// On buckets within capacity, a transfer that Spread decides on is always
/// valid: the largest bucket can give half the gap, and the smallest can take
/// it without passing the largest.
pub proof fn lemma_spread_action_is_valid(m: Map<u64, u64>)
    requires
        within_capacity(m),
    ensures
        planned_action(Policy::Spread, m) matches Action::Transfer { source, destination, amount }
            ==> transfer_error(m, source, destination, amount) is None,
{
    if let (Some((low, low_qty)), Some((high, high_qty))) = (smallest_of(m), largest_of(m)) {
        let lo = choose|id: u64| is_smallest(m, id);
        let hi = choose|id: u64| is_largest(m, id);
        assert(m.contains_key(lo) && m.contains_key(hi));
        assert(m[lo] <= m[hi]);
    }
}

} // verus!
