//! Error types of the library.
//!
//! Proof generation, decoding of serialized data, and proof verification
//! fail in distinct ways, and each failure is reported by its own type so
//! that a caller can tell an unsatisfiable witness from a truncated buffer
//! from a rejected proof.

use vstd::prelude::*;

verus! {

/// A chunk proof could not be generated: the requested witness cannot
/// satisfy the chunk circuit's constraints.  The inputs are deterministic,
/// so retrying cannot help.
#[derive(Clone, Copy, Debug, PartialEq, Eq, Structural)]
pub enum GenerationError {
    /// The record claims to be a base case (all factors still remaining)
    /// while its running product is not the multiplicative identity.
    BaseCaseProductMismatch,
    /// Two consecutive records do not agree: the later record's "before"
    /// state differs from the earlier record's "after" state.
    BrokenLinkage,
    /// A record does not satisfy the chunk circuit's single-record
    /// constraints.
    UnsatisfiableRecord,
}

/// Serialized data could not be decoded.  Fatal to the operation that
/// attempted the decode; no in-memory state is affected.
#[derive(Clone, Copy, Debug, PartialEq, Eq, Structural)]
pub enum DecodeError {
    /// A public-input vector holds fewer values than the layout demands.
    TooFewPublicInputs,
    /// A value is not a canonical field element.
    NonCanonicalFieldElement,
    /// A byte buffer ends in the middle of a field element.
    TruncatedBuffer,
}

/// A syntactically valid proof failed to verify, or the proof bytes could
/// not be decoded at all.  Always recoverable: the caller rejects the
/// proof.
#[derive(Clone, Copy, Debug, PartialEq, Eq, Structural)]
pub enum VerificationError {
    /// The proof bytes could not be decoded.
    Malformed(DecodeError),
    /// The backend rejected the proof.
    Rejected,
}

} // verus!
