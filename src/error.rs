//! The errors of the control loop.
use vstd::prelude::*;

verus! {

/// Everything that can go wrong in the control loop.
#[derive(Clone, Copy, Debug, PartialEq, Eq, Structural)]
pub enum ControlError {
    /// No bucket carries this identifier.
    UnknownBucket { bucket: u64 },
    /// A transfer asked for more than its source holds.
    InsufficientSource { amount: u64, available: u64 },
    /// A transfer would lift its destination above `MAX_QUANTITY`.
    Overflow { amount: u64, destination_quantity: u64 },
    /// The action channel closed while no shutdown had been requested.
    ChannelClosed,
    /// The bucket backend does not offer the operation.
    Unsupported,
}

} // verus!
