//! The prefix-product subcircuit, modeled on canonical field values.
//!
//! For a base value `b` and a fixed count `K` the subcircuit carries `K + 1`
//! signals `P[0..=K]` with `P[0] = 1` and `P[i+1] = P[i] * (b + i)`, all in
//! the Goldilocks field.  This type computes those values; the circuit in
//! the backend carries one wire per value and is built by the shell around
//! the library.

use crate::goldilocks::fe_add;
use crate::goldilocks::fe_mul;
use crate::goldilocks::fe_valid;
use crate::goldilocks::spec_consecutive_product;
use crate::goldilocks::spec_fe_add;
use crate::goldilocks::FIELD_ORDER;
use vstd::arithmetic::div_mod::lemma_add_mod_noop_right;
use vstd::arithmetic::div_mod::lemma_small_mod;
use vstd::prelude::*;

verus! {

/// The prefix products of a run of consecutive field elements.
///
/// For the first factor `f` and length `n_factors`, the value at index
/// `idx` is `f * (f + 1) * ... * (f + idx - 1)` in the field, so index `0`
/// holds the empty product `1` and index `n_factors` holds the full
/// product.
pub struct ConsecutiveProduct {
    n_factors: usize,
    first_factor: u64,
    product_values: Vec<u64>,
}

impl ConsecutiveProduct {
    /// The first factor of the run, as the contracts speak of it.
    pub closed spec fn spec_first_factor(&self) -> u64 {
        self.first_factor
    }

    /// The length of the run, as the contracts speak of it.
    pub closed spec fn spec_n_factors(&self) -> usize {
        self.n_factors
    }

    /// The stored prefix products, as the contracts speak of them.
    pub closed spec fn values(&self) -> Seq<u64> {
        self.product_values@
    }

    /// The shape every constructed value has: one prefix product per index,
    /// each the consecutive product of that many factors.
    pub open spec fn wf(&self) -> bool {
        &&& fe_valid(self.spec_first_factor())
        &&& self.values().len() == self.spec_n_factors() + 1
        &&& forall|i: int|
            0 <= i < self.values().len() ==> self.values()[i] == spec_consecutive_product(
                self.spec_first_factor() as int,
                i as nat,
            )
    }

    /// Computes all prefix products of `n_factors` consecutive field
    /// elements starting at `first_factor`.
    pub fn new(first_factor: u64, n_factors: usize) -> (r: ConsecutiveProduct)
        requires
            fe_valid(first_factor),
            1 <= n_factors < usize::MAX,
        ensures
            r.wf(),
            r.spec_n_factors() == n_factors,
            r.spec_first_factor() == first_factor,
    {
        let mut product_values: Vec<u64> = Vec::new();
        product_values.push(1);
        proof {
            reveal_with_fuel(spec_consecutive_product, 1);
        }
        let mut next_factor: u64 = first_factor;
        let mut idx: usize = 0;
        proof {
            lemma_small_mod(first_factor as nat, FIELD_ORDER as nat);
        }
        while idx < n_factors
            invariant
                fe_valid(first_factor),
                n_factors < usize::MAX,
                0 <= idx <= n_factors,
                product_values@.len() == idx + 1,
                fe_valid(next_factor),
                next_factor == spec_fe_add(first_factor as int, idx as int),
                forall|i: int|
                    0 <= i < product_values@.len() ==> product_values@[i]
                        == spec_consecutive_product(first_factor as int, i as nat),
            decreases n_factors - idx,
        {
            proof {
                reveal_with_fuel(spec_consecutive_product, 2);
                crate::goldilocks::lemma_consecutive_product_range(first_factor as int, idx as nat);
            }
            let prev: u64 = product_values[idx];
            let next_value: u64 = fe_mul(prev, next_factor);
            product_values.push(next_value);
            next_factor = fe_add(next_factor, 1);
            proof {
                lemma_add_mod_noop_right(1int, (first_factor + idx) as int, FIELD_ORDER as int);
            }
            idx = idx + 1;
        }
        ConsecutiveProduct { n_factors, first_factor, product_values }
    }

    /// The first factor of the run.
    pub fn first_factor(&self) -> (r: u64)
        ensures
            r == self.spec_first_factor(),
    {
        self.first_factor
    }

    /// A copy of all the prefix products, from the empty product up to the
    /// product of the full run.
    pub fn clone_product_values(&self) -> (r: Vec<u64>)
        ensures
            r@ == self.values(),
    {
        let mut out: Vec<u64> = Vec::new();
        let mut idx: usize = 0;
        while idx < self.product_values.len()
            invariant
                0 <= idx <= self.product_values@.len(),
                out@ == self.product_values@.take(idx as int),
            decreases self.product_values@.len() - idx,
        {
            out.push(self.product_values[idx]);
            idx = idx + 1;
        }
        proof {
            assert(self.product_values@.take(self.product_values@.len() as int)
                =~= self.product_values@);
        }
        out
    }

    /// The product of the first `n_factors` factors of the run, or `None`
    /// when the run is shorter than that.
    pub fn partial_product(&self, n_factors: usize) -> (r: Option<u64>)
        requires
            self.wf(),
        ensures
            n_factors <= self.spec_n_factors() ==> r == Some(
                spec_consecutive_product(self.spec_first_factor() as int, n_factors as nat) as u64,
            ),
            n_factors > self.spec_n_factors() ==> r is None,
    {
        if n_factors < self.product_values.len() {
            Some(self.product_values[n_factors])
        } else {
            None
        }
    }

    /// The product of the whole run.
    pub fn final_product(&self) -> (r: u64)
        requires
            self.wf(),
        ensures
            r == spec_consecutive_product(
                self.spec_first_factor() as int,
                self.spec_n_factors() as nat,
            ) as u64,
    {
        self.product_values[self.product_values.len() - 1]
    }

    /// How many factors the run multiplies together.
    pub fn n_factors(&self) -> (r: usize)
        ensures
            r == self.spec_n_factors(),
    {
        self.n_factors
    }
}

} // verus!
