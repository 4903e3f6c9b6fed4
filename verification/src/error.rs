//! Conditions on which a node stops.

use vstd::prelude::*;

verus! {

/// A condition that ends the node. A store error that can be retried is
/// not among them: the counter recovers from it by itself.
#[derive(Clone, Copy, Debug, PartialEq, Eq, Structural)]
pub enum NodeError {
    /// No handler exists for the payload that arrived.
    UnsupportedType,
    /// The store answered with an error code that cannot be retried.
    FatalStore { code: u64 },
    /// The node's own id is missing from the peer list or from a supplied topology.
    MissingSelf,
    /// A reply arrived that answers no request in flight.
    UnmatchedReply,
    /// The request id counter has reached its last value.
    IdsExhausted,
    /// A counter value does not fit in 64 bits.
    Overflow,
    /// No offset above the last one of a key is left.
    OffsetsExhausted,
}

} // verus!
