//! Why a parallel pass was given up, and how a batch can fail.

use vstd::prelude::*;

verus! {

/// The conditions that end the parallel pass over a batch.
#[derive(Clone, Copy, Debug, PartialEq, Eq, Structural)]
pub enum Error {
    /// The estimator had no prediction for one of the transactions.
    EstimationFailed,
    /// A transaction read or wrote a key that its estimate did not name.
    UnestimatedWrite,
    /// The interpreter reported a fault while a transaction ran
    /// speculatively.
    InvariantViolation,
}

/// The errors that a batch ends with. `F` is the interpreter's own fault.
#[derive(Debug, PartialEq, Eq)]
pub enum BlockError<F> {
    /// The parallel pass ended with [`Error::InvariantViolation`].
    InvariantViolation,
    /// The interpreter reported a fault while the batch ran sequentially.
    Interpreter(F),
}

impl Error {
    /// Whether the batch is run again sequentially after this condition.
    pub fn falls_back(&self) -> (fallback: bool)
        ensures
            fallback <==> *self != Error::InvariantViolation,
    {
        match self {
            Error::EstimationFailed => true,
            Error::UnestimatedWrite => true,
            Error::InvariantViolation => false,
        }
    }
}

} // verus!
