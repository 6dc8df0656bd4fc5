//! Why an execution attempt did not commit.
use vstd::prelude::*;

verus! {

#[derive(Debug, Clone, Copy, PartialEq, Eq, Structural)]
pub enum Rejection {
    /// The instruction's arguments could not be decoded.
    MalformedArgs,
    /// The approval engine denied the requested reads.
    ReadRejected,
    /// The approval engine denied the intended writes.
    WriteRejected,
    /// Intents on one key mix Receive and Send.
    AggregationConflict,
    /// Merged amounts on one key exceed the representable maximum.
    AmountOverflow,
    /// A Send exceeds the stored balance, or there is no record to send from.
    InsufficientBalance,
}

} // verus!
