use vstd::prelude::*;

verus! {

/// Why a generation request failed.
#[derive(Debug, Clone, Copy, PartialEq, Eq)]
pub enum PrimeError {
    /// The requested bit length is below the supported floor.
    InvalidParameter(usize),
    /// The randomness source reported a failure.
    RandomnessSourceFailure,
    /// The search gave up after its attempt guard ran out.
    AttemptsExhausted,
}

} // verus!
