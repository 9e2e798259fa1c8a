//! Arithmetic in the Goldilocks field, the base field of the proving
//! backend.
//!
//! A field element is represented canonically as a `u64` smaller than the
//! prime `2^64 - 2^32 + 1`.  The library computes with these plain values
//! wherever it reasons about the public records of a proof; the backend's
//! own field type appears only at the boundary, converted to and from this
//! canonical form.

use vstd::arithmetic::div_mod::lemma_add_mod_noop_right;
use vstd::arithmetic::div_mod::lemma_mod_bound;
use vstd::arithmetic::div_mod::lemma_mul_mod_noop_general;
use vstd::arithmetic::div_mod::lemma_small_mod;
use vstd::prelude::*;

verus! {

/// The Goldilocks prime, `2^64 - 2^32 + 1`.
pub const FIELD_ORDER: u64 = 0xFFFF_FFFF_0000_0001;

/// A canonical field element: a residue reduced modulo the field order.
pub open spec fn fe_valid(x: u64) -> bool {
    x < FIELD_ORDER
}

/// The sum of two field elements, as a mathematical integer.
pub open spec fn spec_fe_add(a: int, b: int) -> int {
    (a + b) % (FIELD_ORDER as int)
}

/// The product of two field elements, as a mathematical integer.
pub open spec fn spec_fe_mul(a: int, b: int) -> int {
    (a * b) % (FIELD_ORDER as int)
}

/// The product of `count` consecutive field elements starting at `base`:
/// `base * (base + 1) * ... * (base + count - 1)` with every operation
/// taken modulo the field order, and the empty product equal to one.
#[verifier::opaque]
pub open spec fn spec_consecutive_product(base: int, count: nat) -> int
    decreases count,
{
    if count == 0 {
        1
    } else {
        spec_fe_mul(
            spec_consecutive_product(base, (count - 1) as nat),
            (base + count - 1) % (FIELD_ORDER as int),
        )
    }
}

/// A consecutive product is always a canonical residue.
pub proof fn lemma_consecutive_product_range(base: int, count: nat)
    ensures
        0 <= spec_consecutive_product(base, count) < FIELD_ORDER,
    decreases count,
{
    reveal_with_fuel(spec_consecutive_product, 2);
    if count == 0 {
    } else {
        lemma_consecutive_product_range(base, (count - 1) as nat);
        lemma_mod_bound(
            spec_consecutive_product(base, (count - 1) as nat) * ((base + count - 1) % (
            FIELD_ORDER as int)),
            FIELD_ORDER as int,
        );
    }
}

/// Reducing the base modulo the field order does not change a consecutive
/// product: every factor is reduced anyway.
pub proof fn lemma_consecutive_product_base_mod(base: int, count: nat)
    ensures
        spec_consecutive_product(base % (FIELD_ORDER as int), count) == spec_consecutive_product(
            base,
            count,
        ),
    decreases count,
{
    let q = FIELD_ORDER as int;
    reveal_with_fuel(spec_consecutive_product, 2);
    if count == 0 {
    } else {
        lemma_consecutive_product_base_mod(base, (count - 1) as nat);
        lemma_add_mod_noop_right(count - 1, base, q);
        assert((base % q + count - 1) % q == (base + count - 1) % q);
    }
}

/// Splitting a consecutive product: the product of `d + c` factors starting
/// at `base` is the product of the first `d` factors times the product of
/// the following `c` factors, modulo the field order.
pub proof fn lemma_consecutive_product_split(base: int, d: nat, c: nat)
    ensures
        spec_consecutive_product(base, d + c) == spec_fe_mul(
            spec_consecutive_product(base, d),
            spec_consecutive_product(base + d, c),
        ),
    decreases c,
{
    let q = FIELD_ORDER as int;
    reveal_with_fuel(spec_consecutive_product, 2);
    let left = spec_consecutive_product(base, d);
    lemma_consecutive_product_range(base, d);
    if c == 0 {
        lemma_small_mod(left as nat, q as nat);
        assert(spec_fe_mul(left, 1) == left * 1 % q);
        assert(left * 1 == left);
    } else {
        lemma_consecutive_product_split(base, d, (c - 1) as nat);
        let mid = spec_consecutive_product(base + d, (c - 1) as nat);
        let last = (base + d + c - 1) % q;
        // spec_consecutive_product(base + d, c) == (mid * last) % q by definition.
        // spec_consecutive_product(base, d + c) == (spec_consecutive_product(base, (d+c-1)) * last) % q.
        assert(spec_consecutive_product(base, (d + c) as nat) == (spec_consecutive_product(
            base,
            ((d + c) - 1) as nat,
        ) * last) % q);
        assert(spec_consecutive_product(base, ((d + c) - 1) as nat) == (left * mid) % q);
        // ((left * mid) % q * last) % q == (left * (mid * last)) % q
        lemma_mul_mod_noop_general(left * mid, last, q);
        assert(((left * mid) % q * last) % q == (left * mid * last) % q);
        lemma_mul_mod_noop_general(left, mid * last, q);
        assert((left * ((mid * last) % q)) % q == (left * (mid * last)) % q);
        assert(left * mid * last == left * (mid * last)) by (nonlinear_arith);
    }
}

/// Adds two field elements modulo the field order.
pub fn fe_add(a: u64, b: u64) -> (r: u64)
    requires
        fe_valid(a),
        fe_valid(b),
    ensures
        fe_valid(r),
        r == spec_fe_add(a as int, b as int),
{
    let wide: u128 = (a as u128) + (b as u128);
    let order: u128 = FIELD_ORDER as u128;
    if wide >= order {
        (wide - order) as u64
    } else {
        proof {
            lemma_small_mod((a + b) as nat, FIELD_ORDER as nat);
        }
        wide as u64
    }
}

/// Multiplies two field elements modulo the field order.
pub fn fe_mul(a: u64, b: u64) -> (r: u64)
    requires
        fe_valid(a),
        fe_valid(b),
    ensures
        fe_valid(r),
        r == spec_fe_mul(a as int, b as int),
{
    proof {
        assert((a as u128) * (b as u128) <= u128::MAX) by (nonlinear_arith)
            requires
                a < 0x1_0000_0000_0000_0000,
                b < 0x1_0000_0000_0000_0000,
        ;
    }
    let wide: u128 = (a as u128) * (b as u128);
    let order: u128 = FIELD_ORDER as u128;
    let rem: u128 = wide % order;
    proof {
        assert(rem < order);
    }
    rem as u64
}

} // verus!
