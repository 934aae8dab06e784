//! The ways in which an operation of the engine can fail.
use vstd::prelude::*;

verus! {

/// Why an operation was refused. An operation of the algebra, a call of one
/// layer, a forward pass and the loading of a snapshot change nothing when
/// they are refused. A backward pass keeps the steps of the layers behind the
/// one that refused, and training keeps the steps of the samples before the
/// one that failed: their contracts say exactly what is left.
#[derive(Clone, Copy, Debug, PartialEq, Eq, Structural)]
pub enum Error {
    /// The shapes of the operands do not fit the operation.
    DimensionMismatch,
    /// A snapshot is malformed, or does not fit the network it is loaded into.
    DeserializationFailure,
}

} // verus!
