//! The public record of one chunk proof, and the constraints the chunk
//! circuit imposes on it.
//!
//! Every chunk proof exposes seven public values.  The circuit constrains
//! them so that the record describes one fold step: up to `CHUNK_SIZE`
//! consecutive factors are multiplied into the running product, the
//! remaining-factor counter drops by that many, and the first factor
//! advances by the same amount.  A base-case record (no factors consumed
//! yet) must start from the multiplicative identity; every other record
//! must continue exactly where its predecessor's record stopped.

use crate::consecutive_product::ConsecutiveProduct;
use crate::errors::GenerationError;
use crate::goldilocks::fe_add;
use crate::goldilocks::fe_mul;
use crate::goldilocks::fe_valid;
use crate::goldilocks::lemma_consecutive_product_base_mod;
use crate::goldilocks::lemma_consecutive_product_range;
use crate::goldilocks::lemma_consecutive_product_split;
use crate::goldilocks::spec_consecutive_product;
use crate::goldilocks::spec_fe_add;
use crate::goldilocks::spec_fe_mul;
use crate::goldilocks::FIELD_ORDER;
use vstd::arithmetic::div_mod::lemma_add_mod_noop_right;
use vstd::arithmetic::div_mod::lemma_small_mod;
use vstd::prelude::*;

verus! {

/// How many consecutive factors one chunk proof can fold into the running
/// product.
pub const CHUNK_SIZE: u64 = 32;

/// The exclusive bound the circuit range-checks the factor counters
/// against: `2^32`.
pub const COUNTER_BOUND: u64 = 0x1_0000_0000;

/// The public values of one chunk proof, in the order the proof exposes
/// them.
#[derive(Clone, Copy, Debug, PartialEq, Eq, Structural)]
pub struct ChunkPublicRecord {
    /// How many factors the whole accumulation run multiplies; the same in
    /// every record of a run.
    pub n_factors: u64,
    /// How many factors were still to be folded before this chunk.
    pub remaining_before: u64,
    /// How many factors are still to be folded after this chunk.
    pub remaining_after: u64,
    /// The first factor this chunk folds.
    pub first_factor_before: u64,
    /// The first factor the following chunk folds.
    pub first_factor_after: u64,
    /// The running product before this chunk.
    pub product_before: u64,
    /// The running product after this chunk.
    pub product_after: u64,
}

/// How many factors a chunk folds: all the remaining ones, capped at the
/// chunk size.
pub open spec fn spec_chunk_count(remaining_before: u64) -> u64 {
    if remaining_before < CHUNK_SIZE {
        remaining_before
    } else {
        CHUNK_SIZE
    }
}

/// A record is a base case when no factor has been folded yet.  The
/// counter is non-increasing along a run, so this can hold only of the
/// very first chunk.
pub open spec fn is_base_case(r: ChunkPublicRecord) -> bool {
    r.remaining_before == r.n_factors
}

/// The constraints the chunk circuit imposes on a single record:
/// range-checked counters, canonical field values, the fold arithmetic of
/// one chunk, and the identity-product rule for a base case.
pub open spec fn record_wf(r: ChunkPublicRecord) -> bool {
    &&& r.n_factors < COUNTER_BOUND
    &&& r.remaining_before < COUNTER_BOUND
    &&& fe_valid(r.first_factor_before)
    &&& fe_valid(r.product_before)
    &&& r.remaining_after == r.remaining_before - spec_chunk_count(r.remaining_before)
    &&& r.first_factor_after == spec_fe_add(
        r.first_factor_before as int,
        spec_chunk_count(r.remaining_before) as int,
    )
    &&& r.product_after == spec_fe_mul(
        r.product_before as int,
        spec_consecutive_product(
            r.first_factor_before as int,
            spec_chunk_count(r.remaining_before) as nat,
        ),
    )
    &&& (is_base_case(r) ==> r.product_before == 1)
}

/// Public-input continuity: a record continues its predecessor when its
/// "before" state equals the predecessor's "after" state and both belong
/// to the same run.
pub open spec fn links(prev: ChunkPublicRecord, cur: ChunkPublicRecord) -> bool {
    &&& cur.remaining_before == prev.remaining_after
    &&& cur.first_factor_before == prev.first_factor_after
    &&& cur.product_before == prev.product_after
    &&& cur.n_factors == prev.n_factors
}

/// A well-formed chain of records: every record satisfies the circuit's
/// constraints, the first is a base case, and each one continues its
/// predecessor.
pub open spec fn chain_wf(s: Seq<ChunkPublicRecord>) -> bool {
    &&& s.len() >= 1
    &&& is_base_case(s[0])
    &&& forall|i: int| 0 <= i < s.len() ==> record_wf(#[trigger] s[i])
    &&& forall|i: int| 1 <= i < s.len() ==> links(s[i - 1], #[trigger] s[i])
}

/// How many consecutive factors a chunk folds, computed as the circuit
/// does: all the remaining ones, capped at the chunk size.
pub fn chunk_count(remaining_before: u64) -> (r: u64)
    ensures
        r == spec_chunk_count(remaining_before),
{
    if remaining_before < CHUNK_SIZE {
        remaining_before
    } else {
        CHUNK_SIZE
    }
}

/// Computes the record of one chunk proof from the state the chunk starts
/// in, exactly as the circuit's witness generation would, or reports why
/// no proof can be generated from that state.
///
/// Generation fails precisely on a forged base case: a state that claims
/// all factors are still remaining while its running product is not the
/// multiplicative identity.
pub fn try_chunk_step(
    n_factors: u64,
    remaining_before: u64,
    first_factor_before: u64,
    product_before: u64,
) -> (r: Result<ChunkPublicRecord, GenerationError>)
    requires
        n_factors < COUNTER_BOUND,
        remaining_before < COUNTER_BOUND,
        fe_valid(first_factor_before),
        fe_valid(product_before),
    ensures
        r is Err <==> (remaining_before == n_factors && product_before != 1),
        r matches Err(e) ==> e == GenerationError::BaseCaseProductMismatch,
        r matches Ok(rec) ==> {
            &&& record_wf(rec)
            &&& rec.n_factors == n_factors
            &&& rec.remaining_before == remaining_before
            &&& rec.first_factor_before == first_factor_before
            &&& rec.product_before == product_before
        },
{
    if remaining_before == n_factors && product_before != 1 {
        return Err(GenerationError::BaseCaseProductMismatch);
    }
    let count: u64 = chunk_count(remaining_before);
    let remaining_after: u64 = remaining_before - count;
    let first_factor_after: u64 = fe_add(first_factor_before, count);
    let prefix_products: ConsecutiveProduct = ConsecutiveProduct::new(
        first_factor_before,
        CHUNK_SIZE as usize,
    );
    let chunk_product: u64 = match prefix_products.partial_product(count as usize) {
        Some(p) => p,
        None => {
            proof {
                assert(false);
            }
            0
        },
    };
    proof {
        lemma_consecutive_product_range(first_factor_before as int, count as nat);
    }
    let product_after: u64 = fe_mul(product_before, chunk_product);
    Ok(
        ChunkPublicRecord {
            n_factors,
            remaining_before,
            remaining_after,
            first_factor_before,
            first_factor_after,
            product_before,
            product_after,
        },
    )
}

/// Checks that a single record satisfies the chunk circuit's constraints.
///
/// This is the circuit's constraint system as a pure function: a record
/// passes exactly when it is well formed.
pub fn constraints_hold(r: &ChunkPublicRecord) -> (ok: bool)
    ensures
        ok == record_wf(*r),
{
    if !(r.n_factors < COUNTER_BOUND && r.remaining_before < COUNTER_BOUND
        && r.first_factor_before < FIELD_ORDER && r.product_before < FIELD_ORDER) {
        return false;
    }
    if is_base_case_record(r) && r.product_before != 1 {
        return false;
    }
    let count: u64 = chunk_count(r.remaining_before);
    if r.remaining_after != r.remaining_before - count {
        return false;
    }
    if r.first_factor_after != fe_add(r.first_factor_before, count) {
        return false;
    }
    let prefix_products: ConsecutiveProduct = ConsecutiveProduct::new(
        r.first_factor_before,
        CHUNK_SIZE as usize,
    );
    let chunk_product: u64 = match prefix_products.partial_product(count as usize) {
        Some(p) => p,
        None => {
            proof {
                assert(false);
            }
            0
        },
    };
    proof {
        lemma_consecutive_product_range(r.first_factor_before as int, count as nat);
    }
    r.product_after == fe_mul(r.product_before, chunk_product)
}

/// Whether a record is a base case: all factors of the run still remain.
pub fn is_base_case_record(r: &ChunkPublicRecord) -> (b: bool)
    ensures
        b == is_base_case(*r),
{
    r.remaining_before == r.n_factors
}

/// Checks public-input continuity between a record and its predecessor.
pub fn linked(prev: &ChunkPublicRecord, cur: &ChunkPublicRecord) -> (b: bool)
    ensures
        b == links(*prev, *cur),
{
    cur.remaining_before == prev.remaining_after && cur.first_factor_before
        == prev.first_factor_after && cur.product_before == prev.product_after && cur.n_factors
        == prev.n_factors
}

/// Appending a record that continues the last one keeps a chain well
/// formed.
pub proof fn lemma_chain_push(s: Seq<ChunkPublicRecord>, rec: ChunkPublicRecord)
    requires
        chain_wf(s),
        record_wf(rec),
        links(s.last(), rec),
    ensures
        chain_wf(s.push(rec)),
{
    let t = s.push(rec);
    assert(t[0] == s[0]);
    assert forall|i: int| 0 <= i < t.len() implies record_wf(#[trigger] t[i]) by {
        if i < s.len() {
            assert(t[i] == s[i]);
        } else {
            assert(t[i] == rec);
        }
    }
    assert forall|i: int| 1 <= i < t.len() implies links(t[i - 1], #[trigger] t[i]) by {
        if i < s.len() {
            assert(t[i] == s[i]);
            assert(t[i - 1] == s[i - 1]);
        } else {
            assert(t[i] == rec);
            assert(t[i - 1] == s[s.len() - 1]);
        }
    }
}

/// The state a well-formed chain reaches after its first `i + 1` records:
/// the counter never exceeds the run length, and the running product is
/// exactly the consecutive product of the factors folded so far.
proof fn lemma_chain_state(s: Seq<ChunkPublicRecord>, i: int)
    requires
        chain_wf(s),
        s[0].product_before == 1,
        0 <= i < s.len(),
    ensures
        s[i].n_factors == s[0].n_factors,
        s[i].remaining_after <= s[0].n_factors,
        s[i].product_after == spec_consecutive_product(
            s[0].first_factor_before as int,
            (s[0].n_factors - s[i].remaining_after) as nat,
        ),
        s[i].first_factor_after == (s[0].first_factor_before + (s[0].n_factors
            - s[i].remaining_after)) % (FIELD_ORDER as int),
    decreases i,
{
    let q = FIELD_ORDER as int;
    let f0 = s[0].first_factor_before as int;
    let n = s[0].n_factors;
    if i == 0 {
        let c = spec_chunk_count(s[0].remaining_before);
        assert(s[0].remaining_before == n);
        assert(s[0].remaining_after == n - c);
        assert(s[0].product_after == spec_consecutive_product(f0, c as nat) % q) by {
            assert(s[0].product_after == (1 * spec_consecutive_product(f0, c as nat)) % q);
        }
        lemma_consecutive_product_range(f0, c as nat);
        lemma_small_mod(spec_consecutive_product(f0, c as nat) as nat, q as nat);
    } else {
        lemma_chain_state(s, i - 1);
        let prev = s[i - 1];
        let cur = s[i];
        let d = (n - prev.remaining_after) as nat;
        let c = spec_chunk_count(cur.remaining_before) as nat;
        assert(links(prev, cur));
        assert(record_wf(cur));
        // The counter only decreases, so d + c never exceeds n.
        assert(cur.remaining_after == cur.remaining_before - c);
        assert(n - cur.remaining_after == d + c);
        // The chunk's own product starts at the first factor reached so far.
        assert(cur.first_factor_before == (f0 + d) % q);
        lemma_consecutive_product_base_mod(f0 + d, c);
        assert(spec_consecutive_product(cur.first_factor_before as int, c)
            == spec_consecutive_product(f0 + d, c));
        // Splitting the full product at d factors.
        lemma_consecutive_product_split(f0, d, c);
        assert(cur.product_after == (prev.product_after * spec_consecutive_product(
            cur.first_factor_before as int,
            c,
        )) % q);
        assert(cur.product_after == spec_consecutive_product(f0, (d + c) as nat));
        // The first factor advances by the chunk count, modulo the order.
        lemma_add_mod_noop_right(c as int, f0 + d, q);
        assert(cur.first_factor_after == ((f0 + d) % q + c) % q);
        assert(((f0 + d) % q + c) % q == (f0 + d + c) % q);
    }
}

/// The law of a completed accumulation chain: when a well-formed chain
/// starts from the identity product and ends with no factor remaining, its
/// last record exposes the run length and the consecutive product of all
/// `n_factors` factors starting at the chain's first factor.
pub proof fn lemma_chain_product(s: Seq<ChunkPublicRecord>)
    requires
        chain_wf(s),
        s[0].product_before == 1,
        s.last().remaining_after == 0,
    ensures
        s.last().n_factors == s[0].n_factors,
        s.last().product_after == spec_consecutive_product(
            s[0].first_factor_before as int,
            s[0].n_factors as nat,
        ),
{
    lemma_chain_state(s, s.len() - 1);
}

} // verus!
