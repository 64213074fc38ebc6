use vstd::prelude::*;

verus! {

/// The ways in which making, reading or checking a proof can fail.
#[derive(Clone, Copy, Debug, PartialEq, Eq, Structural)]
pub enum ProofError {
    /// The proof is well formed but the algebraic check failed, a point that
    /// should not be the identity was, or the declared size is out of range.
    VerificationError,
    /// A structural defect: a bad length, a non-canonical point or scalar,
    /// or a challenge that cannot be inverted.
    FormatError,
}

} // verus!
