//! Errors reported while synthesizing circuits.

use vstd::prelude::*;

verus! {

/// The reason a witness was rejected.
#[derive(Clone, Copy, Debug, PartialEq, Eq)]
pub enum WitnessError {
    /// A gate's `a * b = c` check failed.
    GateCheckFailed,
    /// A spare `D` wire was assigned a nonzero value although its gate has
    /// `c != 0`.
    AuxiliaryConstraintFailed,
    /// A linear constraint did not evaluate to zero.
    ConstraintFailed,
    /// An inverse of zero was requested.
    DivisionByZero,
    /// The point at infinity was supplied where an affine point is needed.
    PointAtInfinity,
}

/// Errors of circuit synthesis.
#[derive(Clone, Copy, Debug, PartialEq, Eq)]
pub enum Error {
    /// The witness does not satisfy the circuit.
    InvalidWitness(WitnessError),
    /// A fixed-length vector was given the wrong number of elements.
    VectorLengthMismatch { expected: usize, actual: usize },
    /// A header encoding exceeded `limit` elements: its fixed size less the
    /// place of the suffix.
    MalformedEncoding { limit: usize },
}

} // verus!
