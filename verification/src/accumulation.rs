//! The accumulation driver: the decisions of the proving loop and of the
//! terminal compression step, on plain values.
//!
//! Proof generation repeats chunk proofs until the remaining-factor
//! counter reaches zero, then compresses the last proof into one that
//! exposes only the run length and the final product.  The backend call
//! that turns a record into an actual proof is outside work performed by
//! the shell around the library; the records themselves - which witness to
//! request, in which order, and what every proof must expose - are
//! computed and checked here.

use crate::chunk_record::chain_wf;
use crate::chunk_record::constraints_hold;
use crate::chunk_record::is_base_case;
use crate::chunk_record::is_base_case_record;
use crate::chunk_record::lemma_chain_product;
use crate::chunk_record::linked;
use crate::chunk_record::links;
use crate::chunk_record::record_wf;
use crate::chunk_record::try_chunk_step;
use crate::chunk_record::ChunkPublicRecord;
use crate::chunk_record::CHUNK_SIZE;
use crate::chunk_record::COUNTER_BOUND;
use crate::codec::decode_public_inputs;
use crate::codec::spec_decoded_words;
use crate::errors::DecodeError;
use crate::errors::GenerationError;
use crate::errors::VerificationError;
use crate::goldilocks::fe_valid;
use crate::goldilocks::spec_consecutive_product;
use crate::goldilocks::FIELD_ORDER;
use vstd::prelude::*;

verus! {

/// The public values of the terminal proof: the run length and the product
/// of all its factors, and nothing else.
#[derive(Clone, Copy, Debug, PartialEq, Eq, Structural)]
pub struct FinalPublicRecord {
    /// How many consecutive factors the product multiplies.
    pub n_factors: u64,
    /// The product of the `n_factors` consecutive factors.
    pub product: u64,
}

/// How many chunk proofs an accumulation run over `n_factors` factors
/// takes: one per started chunk, and a single one for an empty run.
pub open spec fn spec_run_length(n_factors: int) -> int {
    if n_factors == 0 {
        1
    } else {
        (n_factors + CHUNK_SIZE - 1) / (CHUNK_SIZE as int)
    }
}

/// Computes the full schedule of chunk records an accumulation run must
/// prove, in proving order.
///
/// Generation succeeds exactly when the starting product is the
/// multiplicative identity; the base-case rule of the chunk circuit makes
/// any other witness unsatisfiable.  On success the schedule is a
/// well-formed chain: the first record is the base case, each record
/// continues its predecessor, the last record has no factor remaining, and
/// its running product is the consecutive product of all `n_factors`
/// factors starting at `first_factor`.
#[verifier::rlimit(100)]
pub fn accumulation_schedule(n_factors: u32, first_factor: u64, starting_product: u64) -> (r:
    Result<Vec<ChunkPublicRecord>, GenerationError>)
    requires
        fe_valid(first_factor),
        fe_valid(starting_product),
    ensures
        r is Err <==> starting_product != 1,
        r matches Err(e) ==> e == GenerationError::BaseCaseProductMismatch,
        r matches Ok(recs) ==> {
            &&& chain_wf(recs@)
            &&& recs@.len() == spec_run_length(n_factors as int)
            &&& recs@[0].n_factors == n_factors
            &&& recs@[0].remaining_before == n_factors
            &&& recs@[0].first_factor_before == first_factor
            &&& recs@[0].product_before == 1
            &&& recs@.last().remaining_after == 0
            &&& recs@.last().n_factors == n_factors
            &&& recs@.last().product_after == spec_consecutive_product(
                first_factor as int,
                n_factors as nat,
            )
        },
{
    let n: u64 = n_factors as u64;
    let first = match try_chunk_step(n, n, first_factor, starting_product) {
        Err(e) => { return Err(e) },
        Ok(rec) => rec,
    };
    let mut recs: Vec<ChunkPublicRecord> = Vec::new();
    recs.push(first);
    let mut remaining: u64 = first.remaining_after;
    let mut ff: u64 = first.first_factor_after;
    let mut prod: u64 = first.product_after;
    while remaining > 0
        invariant
            n < COUNTER_BOUND,
            recs@.len() >= 1,
            chain_wf(recs@),
            recs@[0] == first,
            remaining == recs@.last().remaining_after,
            ff == recs@.last().first_factor_after,
            prod == recs@.last().product_after,
            fe_valid(ff),
            fe_valid(prod),
            recs@.last().n_factors == n,
            remaining > 0 ==> remaining < n,
            remaining > 0 ==> n - remaining == recs@.len() * CHUNK_SIZE,
            remaining == 0 ==> n <= recs@.len() * CHUNK_SIZE,
            (recs@.len() - 1) * CHUNK_SIZE < n || n == 0,
            n == 0 ==> recs@.len() == 1,
        decreases remaining,
    {
        let rec = match try_chunk_step(n, remaining, ff, prod) {
            Err(_) => {
                proof {
                    assert(false);
                }
                return Err(GenerationError::BaseCaseProductMismatch);
            },
            Ok(rec) => rec,
        };
        proof {
            crate::chunk_record::lemma_chain_push(recs@, rec);
        }
        recs.push(rec);
        remaining = rec.remaining_after;
        ff = rec.first_factor_after;
        prod = rec.product_after;
    }
    proof {
        lemma_chain_product(recs@);
        // The run length: every record but the last folds a full chunk, so
        // (len - 1) * k < n <= len * k, which pins len to the ceiling of
        // n / k.
        let len = recs@.len() as int;
        let k = CHUNK_SIZE as int;
        if n != 0 {
            assert(len * k >= n);
            assert((len - 1) * k < n);
            vstd::arithmetic::div_mod::lemma_fundamental_div_mod_converse(
                n + k - 1,
                k,
                len,
                n + k - 1 - len * k,
            );
        }
    }
    Ok(recs)
}

/// The terminal compression step: consumes the record of a completed run
/// and re-exposes exactly its run length and final product, discarding the
/// bookkeeping fields.
pub fn compress(rec: &ChunkPublicRecord) -> (r: FinalPublicRecord)
    requires
        record_wf(*rec),
        rec.remaining_after == 0,
    ensures
        r.n_factors == rec.n_factors,
        r.product == rec.product_after,
{
    FinalPublicRecord { n_factors: rec.n_factors, product: rec.product_after }
}

/// The fixed public-input order of a chunk proof:
/// `[n_factors, remaining_before, remaining_after, first_factor_before,
/// first_factor_after, product_before, product_after]`.
pub fn chunk_public_inputs(rec: &ChunkPublicRecord) -> (v: Vec<u64>)
    ensures
        v@ =~= seq![
            rec.n_factors,
            rec.remaining_before,
            rec.remaining_after,
            rec.first_factor_before,
            rec.first_factor_after,
            rec.product_before,
            rec.product_after,
        ],
{
    let mut v: Vec<u64> = Vec::new();
    v.push(rec.n_factors);
    v.push(rec.remaining_before);
    v.push(rec.remaining_after);
    v.push(rec.first_factor_before);
    v.push(rec.first_factor_after);
    v.push(rec.product_before);
    v.push(rec.product_after);
    v
}

/// Reads a chunk record back from a proof's public inputs.
///
/// A chunk proof exposes the seven record values first, followed by the
/// backend's verifier-data values, so at least seven inputs must be
/// present and each must be a canonical field element; otherwise the proof
/// is malformed and decoding fails without touching any state.
pub fn record_from_public_inputs(v: &Vec<u64>) -> (r: Result<ChunkPublicRecord, DecodeError>)
    ensures
        v@.len() < 7 ==> r == Err::<ChunkPublicRecord, DecodeError>(
            DecodeError::TooFewPublicInputs,
        ),
        v@.len() >= 7 && (exists|i: int| 0 <= i < 7 && v@[i] >= FIELD_ORDER) ==> r == Err::<
            ChunkPublicRecord,
            DecodeError,
        >(DecodeError::NonCanonicalFieldElement),
        r is Ok <==> v@.len() >= 7 && (forall|i: int| 0 <= i < 7 ==> v@[i] < FIELD_ORDER),
        r matches Ok(rec) ==> {
            &&& v@.len() >= 7
            &&& rec.n_factors == v@[0]
            &&& rec.remaining_before == v@[1]
            &&& rec.remaining_after == v@[2]
            &&& rec.first_factor_before == v@[3]
            &&& rec.first_factor_after == v@[4]
            &&& rec.product_before == v@[5]
            &&& rec.product_after == v@[6]
        },
{
    if v.len() < 7 {
        return Err(DecodeError::TooFewPublicInputs);
    }
    let mut i: usize = 0;
    while i < 7
        invariant
            v@.len() >= 7,
            0 <= i <= 7,
            forall|j: int| 0 <= j < i ==> v@[j] < FIELD_ORDER,
        decreases 7 - i,
    {
        if v[i] >= FIELD_ORDER {
            return Err(DecodeError::NonCanonicalFieldElement);
        }
        i = i + 1;
    }
    Ok(
        ChunkPublicRecord {
            n_factors: v[0],
            remaining_before: v[1],
            remaining_after: v[2],
            first_factor_before: v[3],
            first_factor_after: v[4],
            product_before: v[5],
            product_after: v[6],
        },
    )
}

/// The fixed public-input order of the terminal proof: `[n_factors,
/// product]`.
pub fn final_public_inputs(rec: &FinalPublicRecord) -> (v: Vec<u64>)
    ensures
        v@ =~= seq![rec.n_factors, rec.product],
{
    let mut v: Vec<u64> = Vec::new();
    v.push(rec.n_factors);
    v.push(rec.product);
    v
}

/// Reads the terminal record back from a final proof's public inputs.
///
/// The compression circuit exposes exactly two public values; any other
/// count, or a non-canonical value, marks a malformed proof.
pub fn final_from_public_inputs(v: &Vec<u64>) -> (r: Result<FinalPublicRecord, DecodeError>)
    ensures
        v@.len() != 2 ==> r == Err::<FinalPublicRecord, DecodeError>(
            DecodeError::TooFewPublicInputs,
        ),
        v@.len() == 2 && (v@[0] >= FIELD_ORDER || v@[1] >= FIELD_ORDER) ==> r == Err::<
            FinalPublicRecord,
            DecodeError,
        >(DecodeError::NonCanonicalFieldElement),
        r matches Ok(rec) ==> {
            &&& v@.len() == 2
            &&& rec.n_factors == v@[0]
            &&& rec.product == v@[1]
        },
        r is Ok <==> v@.len() == 2 && v@[0] < FIELD_ORDER && v@[1] < FIELD_ORDER,
{
    if v.len() != 2 {
        return Err(DecodeError::TooFewPublicInputs);
    }
    if v[0] >= FIELD_ORDER || v[1] >= FIELD_ORDER {
        return Err(DecodeError::NonCanonicalFieldElement);
    }
    Ok(FinalPublicRecord { n_factors: v[0], product: v[1] })
}

/// Checks a whole sequence of chunk records as the chunk circuit would
/// along a run: every record satisfies the single-record constraints, the
/// first is a base case, and each record continues its predecessor.
///
/// Succeeds exactly on well-formed chains; a broken chain is reported by
/// its first failure.
pub fn validate_chain(recs: &Vec<ChunkPublicRecord>) -> (r: Result<(), GenerationError>)
    ensures
        r is Ok <==> chain_wf(recs@),
        r == Err::<(), GenerationError>(GenerationError::UnsatisfiableRecord) ==> recs@.len() == 0
            || (exists|i: int| 0 <= i < recs@.len() && !record_wf(#[trigger] recs@[i])),
        r == Err::<(), GenerationError>(GenerationError::BrokenLinkage) ==> !is_base_case(
            recs@[0],
        ) || (exists|i: int| 1 <= i < recs@.len() && !links(recs@[i - 1], #[trigger] recs@[i])),
{
    if recs.len() == 0 {
        return Err(GenerationError::UnsatisfiableRecord);
    }
    if !is_base_case_record(&recs[0]) {
        return Err(GenerationError::BrokenLinkage);
    }
    let mut i: usize = 0;
    while i < recs.len()
        invariant
            recs@.len() >= 1,
            0 <= i <= recs@.len(),
            is_base_case(recs@[0]),
            forall|m: int| 0 <= m < i ==> record_wf(#[trigger] recs@[m]),
            forall|m: int| 1 <= m < i ==> links(recs@[m - 1], #[trigger] recs@[m]),
        decreases recs@.len() - i,
    {
        if !constraints_hold(&recs[i]) {
            return Err(GenerationError::UnsatisfiableRecord);
        }
        if i > 0 && !linked(&recs[i - 1], &recs[i]) {
            return Err(GenerationError::BrokenLinkage);
        }
        i = i + 1;
    }
    Ok(())
}

/// What verifying the payload of a final proof yields, as a function of
/// the proof bytes alone.
pub open spec fn spec_verify_final(b: Seq<u8>) -> Result<FinalPublicRecord, VerificationError> {
    if b.len() % 8 != 0 {
        Err(VerificationError::Malformed(DecodeError::TruncatedBuffer))
    } else {
        let v = spec_decoded_words(b);
        if v.len() != 2 {
            Err(VerificationError::Malformed(DecodeError::TooFewPublicInputs))
        } else if v[0] >= FIELD_ORDER || v[1] >= FIELD_ORDER {
            Err(VerificationError::Malformed(DecodeError::NonCanonicalFieldElement))
        } else {
            Ok(FinalPublicRecord { n_factors: v[0], product: v[1] })
        }
    }
}

/// Decodes the public outputs of a serialized final proof: exactly the
/// run length and the product, each a canonical field element written as
/// eight little-endian bytes.
///
/// The result is a pure function of the proof bytes, so verifying the
/// same final proof twice yields the same result; the backend's
/// cryptographic check, performed by the shell around the library, comes
/// on top of this decoding.
pub fn verify_final_payload(bytes: &Vec<u8>) -> (r: Result<FinalPublicRecord, VerificationError>)
    ensures
        r == spec_verify_final(bytes@),
{
    let words: Vec<u64> = match decode_public_inputs(bytes) {
        Err(e) => { return Err(VerificationError::Malformed(e)) },
        Ok(w) => w,
    };
    match final_from_public_inputs(&words) {
        Err(e) => Err(VerificationError::Malformed(e)),
        Ok(rec) => Ok(rec),
    }
}

} // verus!
