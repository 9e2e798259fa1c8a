//! A library for proving knowledge of a product of consecutive integers.
//!
//! The prover convinces a verifier that it knows a field element `k` such
//! that the product of `n` consecutive field elements starting at `k`
//! equals a publicly claimed value, for an `n` fixed before the first proof
//! is generated but not bounded at circuit-design time.  The constraint
//! circuit has a fixed, small size: each proof folds one bounded chunk of
//! factors into a running product and verifies a proof of the same circuit
//! applied to the earlier chunks, so that the verification cost of the
//! final proof stays constant however large `n` is.
//!
//! The constraint-circuit backend (polynomial commitments, hashing,
//! proof objects) is an external collaborator driven by the shell around
//! the library.  The library holds everything the system decides and
//! computes on plain values, all of it verified: the Goldilocks field
//! arithmetic of the records, the public-record bookkeeping of the
//! accumulation and its proving loop, the byte codec of public inputs,
//! the swap schedules and the permutation-gate wire layout.

pub mod accumulation;
pub mod chunk_record;
pub mod codec;
pub mod consecutive_product;
pub mod errors;
pub mod goldilocks;
pub mod permutation_gate;
pub mod permutation_utilities;
pub mod swap_schedule;

pub use consecutive_product::ConsecutiveProduct;
pub use goldilocks::fe_add;
pub use goldilocks::fe_mul;
pub use permutation_gate::general_permutation_gate;
pub use permutation_gate::PermutationGate;
pub use permutation_gate::PermutationGateWitnessGenerator;
pub use permutation_gate::SwapIndexOutOfRange;
pub use permutation_utilities::inverse_permutation;
pub use permutation_utilities::KnuthL;
pub use permutation_utilities::PermutationsIter;
