//! Swap schedules: fixed sequences of position pairs, of which a selected
//! subset of swaps realizes a given permutation.
//!
//! The permutation gate executes a fixed sequence of conditional swaps;
//! which swaps actually happen is chosen by boolean selectors.  A schedule
//! names the positions of those conditional swaps for a given length, and
//! a selection for a concrete permutation is computed by running a sorting
//! strategy over it and recording which comparisons swapped.

use crate::permutation_utilities::is_permutation_of;
use crate::permutation_utilities::lemma_sorted_permutation_is_identity;
use crate::permutation_utilities::lemma_swap_preserves_permutation;
use crate::permutation_utilities::lemma_swap_to_multiset;
use crate::permutation_utilities::vec_swap;
use vstd::prelude::*;

verus! {

/// Applies one conditional swap to a sequence: exchanges the two
/// positions when the selector is set, otherwise leaves the sequence
/// unchanged.
pub open spec fn spec_one_swap<T>(s: Seq<T>, t: (bool, usize, usize)) -> Seq<T> {
    if t.0 {
        s.update(t.1 as int, s[t.2 as int]).update(t.2 as int, s[t.1 as int])
    } else {
        s
    }
}

/// Applies a whole schedule of conditional swaps, first entry first.
pub open spec fn spec_apply_swaps<T>(s: Seq<T>, sched: Seq<(bool, usize, usize)>) -> Seq<T>
    decreases sched.len(),
{
    if sched.len() == 0 {
        s
    } else {
        spec_apply_swaps(spec_one_swap(s, sched[0]), sched.drop_first())
    }
}

/// The swap positions of a schedule, selectors dropped.
pub open spec fn spec_positions_of(sched: Seq<(bool, usize, usize)>) -> Seq<(usize, usize)> {
    sched.map_values(|t: (bool, usize, usize)| (t.1, t.2))
}

/// A sequence is sorted in non-decreasing order.
pub open spec fn spec_sorted(s: Seq<usize>) -> bool {
    forall|i: int, j: int| 0 <= i < j < s.len() ==> s[i] <= s[j]
}

/// Appending one conditional swap to a schedule applies it last.
pub proof fn lemma_apply_swaps_push<T>(s: Seq<T>, sched: Seq<(bool, usize, usize)>, t: (bool, usize, usize))
    ensures
        spec_apply_swaps(s, sched.push(t)) == spec_one_swap(spec_apply_swaps(s, sched), t),
    decreases sched.len(),
{
    assert(spec_apply_swaps(s, sched.push(t)) == spec_apply_swaps(
        spec_one_swap(s, sched.push(t)[0]),
        sched.push(t).drop_first(),
    ));
    if sched.len() == 0 {
        assert(sched.push(t).drop_first() =~= Seq::<(bool, usize, usize)>::empty());
        assert(sched.push(t)[0] == t);
        assert(spec_apply_swaps(spec_one_swap(s, t), Seq::<(bool, usize, usize)>::empty())
            == spec_one_swap(s, t));
        assert(spec_apply_swaps(s, sched) == s);
    } else {
        assert(sched.push(t).drop_first() =~= sched.drop_first().push(t));
        assert(sched.push(t)[0] == sched[0]);
        lemma_apply_swaps_push(spec_one_swap(s, sched[0]), sched.drop_first(), t);
        assert(spec_apply_swaps(s, sched) == spec_apply_swaps(
            spec_one_swap(s, sched[0]),
            sched.drop_first(),
        ));
    }
}

/// A strategy that turns permutations into selections of a fixed swap
/// schedule.
///
/// For every length the strategy fixes one sequence of candidate swaps -
/// `spec_positions`, a function of the count alone - and for a concrete
/// permutation it chooses which of them to perform.  Both methods are
/// pinned to that one sequence, so a circuit row built from
/// `get_swap_sequence` always lines up, swap for swap, with the selectors
/// a witness builder records.  The count bound is a machine limit: the
/// candidate swaps may be quadratic in the count and each consumes wires.
pub trait SwapSchedule {
    /// The fixed positions of the conditional swaps the strategy attempts
    /// on `n_objects` entries; they depend on the count alone, never on
    /// the entries.
    spec fn spec_positions(n_objects: nat) -> Seq<(usize, usize)>;

    /// The sequence of swaps that would be attempted on a vector of
    /// `n_objects` entries.
    fn get_swap_sequence(n_objects: usize) -> (r: Vec<(usize, usize)>)
        requires
            n_objects <= 0x4000,
        ensures
            r@ == Self::spec_positions(n_objects as nat),
            r@.len() <= n_objects * n_objects,
            forall|k: int|
                0 <= k < r@.len() ==> (#[trigger] r@[k]).0 < n_objects && r@[k].1 < n_objects,
    ;

    /// Runs the strategy over `permutation` and records, for every
    /// attempted swap, whether it was performed and between which
    /// positions - the strategy's fixed positions for this length.
    ///
    /// For every permutation there is a valid selection, one whose
    /// selected swaps realize the input permutation when played back in
    /// order; the bubble-sort strategy's own contract proves that much,
    /// carrying the permutation all the way to the identity arrangement.
    fn permutation_to_swap_schedule(permutation: &mut Vec<usize>) -> (r: Vec<(bool, usize, usize)>)
        requires
            old(permutation)@.len() <= 0x4000,
        ensures
            final(permutation)@.len() == old(permutation)@.len(),
            final(permutation)@.to_multiset() == old(permutation)@.to_multiset(),
            spec_positions_of(r@) == Self::spec_positions(old(permutation)@.len() as nat),
            forall|k: int|
                0 <= k < r@.len() ==> (#[trigger] r@[k]).1 < old(permutation)@.len() && r@[k].2
                    < old(permutation)@.len(),
    ;
}

/// The default strategy of the library.
pub type DefaultSwapSchedule = RecusriveSplitTwoSchedule;

/// The sequence of swaps attempted by the bubble sort algorithm.  It has
/// quadratic length in the permutation length.
pub struct BubbleSortSwapSchedule {}

/// A divide-and-conquer strategy: route entries across the two halves,
/// then recurse into each half.  Its schedule has sub-quadratic length in
/// the permutation length.
pub struct RecusriveSplitTwoSchedule {}

/// One bubble pass with the given limit: the adjacent pairs (0,1) up to
/// (limit-1, limit).
pub open spec fn spec_bubble_pass(limit: nat) -> Seq<(usize, usize)> {
    Seq::new(limit, |j: int| (j as usize, (j + 1) as usize))
}

/// The passes with limits `limit`, `limit - 1`, ..., 1, concatenated in
/// that order.
pub open spec fn spec_bubble_positions_down(limit: nat) -> Seq<(usize, usize)>
    decreases limit,
{
    if limit == 0 {
        Seq::empty()
    } else {
        spec_bubble_pass(limit) + spec_bubble_positions_down((limit - 1) as nat)
    }
}

/// The swap positions bubble sort attempts on `n` entries: shrinking
/// passes of adjacent pairs, a function of the count alone.
pub open spec fn spec_bubble_positions(n: nat) -> Seq<(usize, usize)> {
    if n < 2 {
        Seq::empty()
    } else {
        spec_bubble_positions_down((n - 1) as nat)
    }
}

/// Sorts `permutation` by bubble sort and records every comparison as a
/// conditional swap of adjacent positions.
///
/// Playing the recorded schedule back over the original vector reproduces
/// the sorted vector; on a permutation of `0..n` the selected swaps carry
/// it all the way to the identity arrangement, so they realize the
/// permutation exactly.
pub fn bubble_sort_swap_schedule(permutation: &mut Vec<usize>) -> (r: Vec<(bool, usize, usize)>)
    ensures
        final(permutation)@.len() == old(permutation)@.len(),
        final(permutation)@.to_multiset() == old(permutation)@.to_multiset(),
        spec_sorted(final(permutation)@),
        final(permutation)@ == spec_apply_swaps(old(permutation)@, r@),
        is_permutation_of(old(permutation)@, old(permutation)@.len() as nat)
            ==> final(permutation)@ == Seq::new(
            old(permutation)@.len() as nat,
            |i: int| i as usize,
        ),
        forall|k: int|
            0 <= k < r@.len() ==> (#[trigger] r@[k]).1 + 1 == r@[k].2 && r@[k].2
                < old(permutation)@.len(),
        r@.len() * 2 == old(permutation)@.len() * (old(permutation)@.len() - 1),
        spec_positions_of(r@) == spec_bubble_positions(old(permutation)@.len() as nat),
{
    let n: usize = permutation.len();
    let mut sched: Vec<(bool, usize, usize)> = Vec::new();
    if n < 2 {
        proof {
            assert(n * (n - 1) == 0) by (nonlinear_arith)
                requires
                    0 <= n < 2,
            ;
            assert(spec_positions_of(sched@) =~= spec_bubble_positions(n as nat));
        }
        return sched;
    }
    let mut i: usize = n - 1;
    while i > 0
        invariant
            2 <= n,
            0 <= i <= n - 1,
            permutation@.len() == n,
            permutation@ == spec_apply_swaps(old(permutation)@, sched@),
            permutation@.to_multiset() == old(permutation)@.to_multiset(),
            forall|k: int|
                0 <= k < sched@.len() ==> (#[trigger] sched@[k]).1 + 1 == sched@[k].2
                    && sched@[k].2 < n,
            sched@.len() * 2 == (n - 1) * n - i * (i + 1),
            spec_positions_of(sched@) + spec_bubble_positions_down(i as nat)
                == spec_bubble_positions_down((n - 1) as nat),
            forall|k1: int, k2: int|
                0 <= k1 <= i < k2 < n ==> permutation@[k1] <= permutation@[k2],
            forall|k1: int, k2: int|
                i <= k1 < k2 < n ==> permutation@[k1] <= permutation@[k2],
            is_permutation_of(old(permutation)@, n as nat) ==> is_permutation_of(
                permutation@,
                n as nat,
            ),
        decreases i,
    {
        let ghost processed = spec_positions_of(sched@);
        proof {
            assert(spec_positions_of(sched@) =~= processed + spec_bubble_pass(i as nat).take(0));
        }
        let mut j: usize = 0;
        while j < i
            invariant
                2 <= n,
                1 <= i <= n - 1,
                0 <= j <= i,
                permutation@.len() == n,
                permutation@ == spec_apply_swaps(old(permutation)@, sched@),
                permutation@.to_multiset() == old(permutation)@.to_multiset(),
                forall|k: int|
                    0 <= k < sched@.len() ==> (#[trigger] sched@[k]).1 + 1 == sched@[k].2
                        && sched@[k].2 < n,
                sched@.len() * 2 == (n - 1) * n - i * (i + 1) + 2 * j,
                processed + spec_bubble_positions_down(i as nat) == spec_bubble_positions_down(
                    (n - 1) as nat,
                ),
                spec_positions_of(sched@) == processed + spec_bubble_pass(i as nat).take(j as int),
                forall|m: int| 0 <= m < j ==> permutation@[m] <= permutation@[j as int],
                forall|k1: int, k2: int|
                    0 <= k1 <= i < k2 < n ==> permutation@[k1] <= permutation@[k2],
                forall|k1: int, k2: int|
                    i <= k1 < k2 < n ==> permutation@[k1] <= permutation@[k2],
                is_permutation_of(old(permutation)@, n as nat) ==> is_permutation_of(
                    permutation@,
                    n as nat,
                ),
            decreases i - j,
        {
            let ghost before = permutation@;
            let ghost sched_before = sched@;
            let a: usize = permutation[j];
            let b: usize = permutation[j + 1];
            if a > b {
                proof {
                    lemma_swap_to_multiset(permutation@, j as int, j + 1);
                    if is_permutation_of(old(permutation)@, n as nat) {
                        lemma_swap_preserves_permutation(
                            permutation@,
                            j as int,
                            j + 1,
                            n as nat,
                        );
                    }
                }
                vec_swap(permutation, j, j + 1);
                sched.push((true, j, j + 1));
            } else {
                sched.push((false, j, j + 1));
            }
            proof {
                lemma_apply_swaps_push(old(permutation)@, sched_before, sched@.last());
                assert(sched@ =~= sched_before.push(sched@.last()));
                assert(permutation@ == spec_one_swap(before, sched@.last()));
                assert(spec_positions_of(sched@) =~= spec_positions_of(sched_before).push(
                    (j, (j + 1) as usize),
                ));
                assert(spec_bubble_pass(i as nat)[j as int] == (j, (j + 1) as usize));
                assert(spec_bubble_pass(i as nat).take(j + 1) =~= spec_bubble_pass(
                    i as nat,
                ).take(j as int).push(spec_bubble_pass(i as nat)[j as int]));
                assert(spec_positions_of(sched@) =~= processed + spec_bubble_pass(i as nat).take(
                    j + 1,
                ));
            }
            j = j + 1;
        }
        proof {
            assert((n - 1) * n - i * (i + 1) + 2 * i == (n - 1) * n - (i - 1) * i)
                by (nonlinear_arith);
            // The finished pass joins the processed prefix: down(i) peels
            // off as pass(i) followed by down(i - 1).
            assert(spec_bubble_pass(i as nat).take(i as int) =~= spec_bubble_pass(i as nat));
            assert(spec_bubble_positions_down(i as nat) == spec_bubble_pass(i as nat)
                + spec_bubble_positions_down((i - 1) as nat));
            assert((processed + spec_bubble_pass(i as nat)) + spec_bubble_positions_down(
                (i - 1) as nat,
            ) =~= processed + (spec_bubble_pass(i as nat) + spec_bubble_positions_down(
                (i - 1) as nat,
            )));
        }
        i = i - 1;
    }
    proof {
        assert(spec_sorted(permutation@));
        if is_permutation_of(old(permutation)@, n as nat) {
            lemma_sorted_permutation_is_identity(permutation@, n as nat);
        }
        assert(spec_bubble_positions_down(0) =~= Seq::<(usize, usize)>::empty());
        assert(spec_positions_of(sched@) + spec_bubble_positions_down(0) =~= spec_positions_of(
            sched@,
        ));
        assert(spec_positions_of(sched@) == spec_bubble_positions(n as nat));
    }
    sched
}

impl SwapSchedule for BubbleSortSwapSchedule {
    open spec fn spec_positions(n_objects: nat) -> Seq<(usize, usize)> {
        spec_bubble_positions(n_objects)
    }

    fn get_swap_sequence(n_objects: usize) -> (r: Vec<(usize, usize)>) {
        let mut identity: Vec<usize> = Vec::new();
        let mut i: usize = 0;
        while i < n_objects
            invariant
                0 <= i <= n_objects,
                identity@.len() == i,
            decreases n_objects - i,
        {
            identity.push(i);
            i = i + 1;
        }
        let sched = bubble_sort_swap_schedule(&mut identity);
        proof {
            assert(sched@.len() <= n_objects * n_objects) by (nonlinear_arith)
                requires
                    sched@.len() * 2 == n_objects * (n_objects - 1),
                    n_objects >= 0,
            ;
        }
        strip_selectors(&sched, n_objects)
    }

    fn permutation_to_swap_schedule(permutation: &mut Vec<usize>) -> (r: Vec<(bool, usize, usize)>)
        ensures
            spec_sorted(final(permutation)@),
            final(permutation)@ == spec_apply_swaps(old(permutation)@, r@),
            is_permutation_of(old(permutation)@, old(permutation)@.len() as nat)
                ==> final(permutation)@ == Seq::new(
                old(permutation)@.len() as nat,
                |i: int| i as usize,
            ),
            r@.len() * 2 == old(permutation)@.len() * (old(permutation)@.len() - 1),
    {
        bubble_sort_swap_schedule(permutation)
    }
}

/// Copies the positions of a schedule, dropping the selectors.
fn strip_selectors(sched: &Vec<(bool, usize, usize)>, n_objects: usize) -> (r: Vec<(usize, usize)>)
    requires
        forall|k: int|
            0 <= k < sched@.len() ==> (#[trigger] sched@[k]).1 < n_objects && sched@[k].2
                < n_objects,
    ensures
        r@ == spec_positions_of(sched@),
        forall|k: int|
            0 <= k < r@.len() ==> (#[trigger] r@[k]).0 < n_objects && r@[k].1 < n_objects,
{
    let mut r: Vec<(usize, usize)> = Vec::new();
    let mut i: usize = 0;
    while i < sched.len()
        invariant
            0 <= i <= sched@.len(),
            r@.len() == i,
            forall|k: int| 0 <= k < i ==> r@[k] == (#[trigger] sched@[k].1, sched@[k].2),
        decreases sched@.len() - i,
    {
        let entry: (bool, usize, usize) = sched[i];
        r.push((entry.1, entry.2));
        i = i + 1;
    }
    proof {
        assert(r@ =~= spec_positions_of(sched@));
    }
    r
}

/// The swap positions the divide-and-conquer strategy attempts on a run
/// of `len` entries sitting at `offset`: first the preparation swaps
/// inside the first half, then one cross swap per second-half position,
/// then the swaps of each half.  The positions depend only on the length
/// and the offset, never on the entries.
pub open spec fn spec_split_positions(len: nat, offset: int) -> Seq<(usize, usize)>
    decreases len,
{
    if len < 2 {
        Seq::empty()
    } else if len == 2 {
        seq![(offset as usize, (offset + 1) as usize)]
    } else {
        let c = ((len + 1) / 2) as nat;
        let f = (len - c) as nat;
        spec_split_positions(c, offset) + Seq::new(
            f as nat,
            |idx: int| ((offset + idx) as usize, (offset + c + idx) as usize),
        ) + spec_split_positions(c, offset) + spec_split_positions(f, offset + c)
    }
}

/// Every position the divide-and-conquer strategy attempts lies inside
/// the run it was computed for.
pub proof fn lemma_split_positions_range(len: nat, offset: int)
    requires
        0 <= offset,
        offset + len <= usize::MAX,
    ensures
        forall|k: int|
            0 <= k < spec_split_positions(len, offset).len() ==> offset <= (
            #[trigger] spec_split_positions(len, offset)[k]).0 < offset + len && offset
                <= spec_split_positions(len, offset)[k].1 < offset + len,
    decreases len,
{
    if len < 2 {
    } else if len == 2 {
    } else {
        let c = ((len + 1) / 2) as nat;
        let f = (len - c) as nat;
        vstd::arithmetic::div_mod::lemma_fundamental_div_mod((len + 1) as int, 2);
        assert(c + f == len);
        assert(f <= c);
        lemma_split_positions_range(c, offset);
        lemma_split_positions_range(c, offset);
        lemma_split_positions_range(f, offset + c);
        let p1 = spec_split_positions(c, offset);
        let cross = Seq::new(
            f as nat,
            |idx: int| ((offset + idx) as usize, (offset + c + idx) as usize),
        );
        let p2 = spec_split_positions(f, offset + c);
        let whole = p1 + cross + p1 + p2;
        assert(spec_split_positions(len, offset) == whole);
        assert forall|k: int|
            0 <= k < whole.len() implies offset <= (#[trigger] whole[k]).0 < offset + len && offset
            <= whole[k].1 < offset + len by {
            let a = p1.len() as int;
            let b = a + cross.len() as int;
            let d = b + p1.len() as int;
            if k < a {
                assert(whole[k] == p1[k]);
            } else if k < b {
                assert(whole[k] == cross[k - a]);
            } else if k < d {
                assert(whole[k] == p1[k - b]);
            } else {
                assert(whole[k] == p2[k - d]);
            }
        }
    }
}

/// The divide-and-conquer schedule never exceeds `len * (len - 1)`
/// entries.
pub proof fn lemma_split_positions_len(len: nat, offset: int)
    ensures
        spec_split_positions(len, offset).len() <= len * (len - 1),
        spec_split_positions(len, offset).len() <= len * len,
    decreases len,
{
    if len < 2 {
        assert(spec_split_positions(len, offset).len() == 0);
        assert(len * (len - 1) == 0 && len * len >= 0) by (nonlinear_arith)
            requires
                0 <= len < 2,
        ;
    } else if len == 2 {
        assert(spec_split_positions(len, offset).len() == 1);
        assert(len * (len - 1) == 2 && len * len == 4) by (nonlinear_arith)
            requires
                len == 2,
        ;
    } else {
        let c = ((len + 1) / 2) as nat;
        let f = (len - c) as nat;
        vstd::arithmetic::div_mod::lemma_fundamental_div_mod((len + 1) as int, 2);
        assert(c + f == len);
        assert(c - 1 <= f <= c);
        assert(2 <= c < len);
        lemma_split_positions_len(c, offset);
        lemma_split_positions_len(f, offset + c);
        let total = spec_split_positions(len, offset).len();
        assert(total <= 2 * (c * (c - 1)) + f + f * (f - 1));
        assert(2 * (c * (c - 1)) + f + f * (f - 1) <= len * (len - 1) && len * (len - 1) <= len
            * len) by (nonlinear_arith)
            requires
                c + f == len,
                c - 1 <= f <= c,
                1 <= c,
        ;
    }
}

/// Dropping the selectors distributes over concatenation.
pub proof fn lemma_positions_concat(a: Seq<(bool, usize, usize)>, b: Seq<(bool, usize, usize)>)
    ensures
        spec_positions_of(a + b) == spec_positions_of(a) + spec_positions_of(b),
{
    assert(spec_positions_of(a + b) =~= spec_positions_of(a) + spec_positions_of(b));
}

/// A sequence that extends another agrees with it before the extension:
/// its tail from any earlier point is the shorter sequence's tail followed
/// by the extension.
pub proof fn lemma_skip_decompose<T>(a: Seq<T>, b: Seq<T>, base: int)
    requires
        0 <= base <= a.len() <= b.len(),
        b.subrange(0, a.len() as int) == a,
    ensures
        b.skip(base) =~= a.skip(base) + b.skip(a.len() as int),
{
    assert forall|m: int| 0 <= m < b.len() - base implies b.skip(base)[m] == (a.skip(base)
        + b.skip(a.len() as int))[m] by {
        if base + m < a.len() {
            assert(b.subrange(0, a.len() as int)[base + m] == b[base + m]);
        }
    }
}

/// Routes the entries of `permutation` across its two halves and recurses
/// into each half, recording every attempted swap; the recorded swaps are
/// appended to `out`.
///
/// The attempted positions are exactly the strategy's fixed schedule for
/// the vector's length at `offset`: they do not depend on the entries, so
/// one selector per scheduled swap is always the right count.
pub fn recursive_permutation_to_2_split_schedule(
    permutation: &mut Vec<usize>,
    offset: usize,
    out: Vec<(bool, usize, usize)>,
) -> (r: Vec<(bool, usize, usize)>)
    requires
        offset + old(permutation)@.len() < usize::MAX,
    ensures
        final(permutation)@.len() == old(permutation)@.len(),
        final(permutation)@.to_multiset() == old(permutation)@.to_multiset(),
        r@.len() == out@.len() + spec_split_positions(
            old(permutation)@.len() as nat,
            offset as int,
        ).len(),
        r@.subrange(0, out@.len() as int) == out@,
        spec_positions_of(r@.skip(out@.len() as int)) == spec_split_positions(
            old(permutation)@.len() as nat,
            offset as int,
        ),
    decreases old(permutation)@.len(),
{
    let len: usize = permutation.len();
    let mut out: Vec<(bool, usize, usize)> = out;
    if len < 2 {
        proof {
            assert(out@.subrange(0, out@.len() as int) =~= out@);
            assert(out@.skip(out@.len() as int) =~= Seq::<(bool, usize, usize)>::empty());
            assert(spec_positions_of(Seq::<(bool, usize, usize)>::empty())
                =~= Seq::<(usize, usize)>::empty());
        }
        return out;
    }
    if len == 2 {
        let ghost out0 = out@;
        let first: usize = permutation[0];
        let second: usize = permutation[1];
        if first > second {
            proof {
                lemma_swap_to_multiset(permutation@, 0, 1);
            }
            vec_swap(permutation, 0, 1);
            out.push((true, offset, offset + 1));
        } else {
            out.push((false, offset, offset + 1));
        }
        proof {
            assert(out@.subrange(0, out0.len() as int) =~= out0);
            assert(out@.skip(out0.len() as int) =~= seq![out@.last()]);
            assert(spec_positions_of(seq![out@.last()]) =~= seq![
                (offset, (offset + 1) as usize),
            ]);
        }
        return out;
    }
    let split_idx: usize = (len + 1) / 2;
    let part2_offset: usize = offset + split_idx;
    proof {
        vstd::arithmetic::div_mod::lemma_fundamental_div_mod((len + 1) as int, 2);
    }
    // Split the run into its two halves.
    let mut part1: Vec<usize> = Vec::new();
    let mut i: usize = 0;
    while i < split_idx
        invariant
            split_idx <= permutation@.len(),
            0 <= i <= split_idx,
            part1@ == permutation@.subrange(0, i as int),
        decreases split_idx - i,
    {
        part1.push(permutation[i]);
        proof {
            assert(part1@ =~= permutation@.subrange(0, i + 1));
        }
        i = i + 1;
    }
    let mut part2: Vec<usize> = Vec::new();
    let mut i: usize = split_idx;
    while i < len
        invariant
            split_idx <= len == permutation@.len(),
            split_idx <= i <= len,
            part2@ == permutation@.subrange(split_idx as int, i as int),
        decreases len - i,
    {
        part2.push(permutation[i]);
        proof {
            assert(part2@ =~= permutation@.subrange(split_idx as int, i + 1));
        }
        i = i + 1;
    }
    // Track which first-half entries must change place before the cross
    // swaps: a permutation of the first half, written as disjoint swaps.
    // Its entries live in offset..offset+split_idx, like the run itself,
    // so the recursion below routes and selects exactly as it would on
    // the run's own half.
    let mut prepare_part1: Vec<usize> = Vec::new();
    let mut i: usize = 0;
    while i < split_idx
        invariant
            0 <= i <= split_idx,
            split_idx <= len,
            offset + len < usize::MAX,
            prepare_part1@.len() == i,
        decreases split_idx - i,
    {
        prepare_part1.push(offset + i);
        i = i + 1;
    }
    let mut idx1: usize = 0;
    let mut idx2: usize = 0;
    while idx2 < part2.len()
        invariant
            part1@.len() == split_idx,
            part2@.len() == len - split_idx,
            part2@.len() <= part1@.len(),
            prepare_part1@.len() == split_idx,
            0 <= idx2 <= part2@.len(),
            0 <= idx1 <= part1@.len(),
            split_idx <= len <= old(permutation)@.len(),
            offset + len < usize::MAX,
            part1@.to_multiset() == old(permutation)@.subrange(
                0,
                split_idx as int,
            ).to_multiset(),
        decreases part2@.len() - idx2,
    {
        if part2[idx2] < part2_offset && part1[idx2] < part2_offset {
            // Search the first half for an entry that belongs to the
            // second half and can take this one's place.
            while idx1 < part1.len() && !(part1[idx1] >= part2_offset && (idx1 >= part2.len()
                || part2[idx1] >= part2_offset))
                invariant
                    part1@.len() == split_idx,
                    part2@.len() == len - split_idx,
                    0 <= idx1 <= part1@.len(),
                decreases part1@.len() - idx1,
            {
                idx1 = idx1 + 1;
            }
            if idx1 < part1.len() {
                proof {
                    lemma_swap_to_multiset(part1@, idx1 as int, idx2 as int);
                }
                vec_swap(&mut part1, idx1, idx2);
                prepare_part1.set(idx1, offset + idx2);
                prepare_part1.set(idx2, offset + idx1);
                idx1 = idx1 + 1;
            }
        }
        idx2 = idx2 + 1;
    }
    let ghost out0 = out@;
    // The preparation swaps inside the first half.
    let prepare_schedule: Vec<(bool, usize, usize)> = recursive_permutation_to_2_split_schedule(
        &mut prepare_part1,
        offset,
        Vec::new(),
    );
    let ghost prep_seq = prepare_schedule@;
    let mut prepare_schedule: Vec<(bool, usize, usize)> = prepare_schedule;
    // One cross swap per second-half position will follow the preparation
    // swaps: migrate every entry to the half it belongs to.
    let ghost cross_positions = Seq::new(
        (len - split_idx) as nat,
        |idx: int| ((offset + idx) as usize, (offset + split_idx + idx) as usize),
    );
    out.append(&mut prepare_schedule);
    proof {
        assert(out@ == out0 + prep_seq);
        assert(out@.subrange(0, out0.len() as int) =~= out0);
        assert(out@.skip(out0.len() as int) =~= prep_seq);
        assert(cross_positions.take(0) =~= Seq::<(usize, usize)>::empty());
        assert(spec_positions_of(out@.skip(out0.len() as int)) =~= spec_positions_of(prep_seq)
            + cross_positions.take(0));
    }
    let mut idx: usize = 0;
    while idx < part2.len()
        invariant
            part1@.len() == split_idx,
            part2@.len() == len - split_idx,
            part2@.len() <= part1@.len(),
            part2_offset == offset + split_idx,
            offset + len < usize::MAX,
            split_idx < len,
            0 <= idx <= part2@.len(),
            cross_positions == Seq::new(
                (len - split_idx) as nat,
                |k: int| ((offset + k) as usize, (offset + split_idx + k) as usize),
            ),
            out@.len() == out0.len() + prep_seq.len() + idx,
            out@.subrange(0, out0.len() as int) == out0,
            spec_positions_of(out@.skip(out0.len() as int)) == spec_positions_of(prep_seq)
                + cross_positions.take(idx as int),
            split_idx <= len <= old(permutation)@.len(),
            part1@.to_multiset().add(part2@.to_multiset()) == old(permutation)@.subrange(
                0,
                split_idx as int,
            ).to_multiset().add(
                old(permutation)@.subrange(split_idx as int, len as int).to_multiset(),
            ),
        decreases part2@.len() - idx,
    {
        let ghost out_before = out@;
        let selector: bool = if part2[idx] < part2_offset {
            let v1: usize = part1[idx];
            let v2: usize = part2[idx];
            let ghost p1_before = part1@;
            let ghost p2_before = part2@;
            part1.set(idx, v2);
            part2.set(idx, v1);
            proof {
                // Exchanging one entry of each half keeps their combined
                // multiset.
                broadcast use vstd::multiset::group_multiset_axioms;
                broadcast use vstd::seq_lib::group_to_multiset_ensures;

                vstd::seq_lib::to_multiset_update(p1_before, idx as int, v2);
                vstd::seq_lib::to_multiset_update(p2_before, idx as int, v1);
                assert(p1_before.contains(v1));
                assert(p2_before.contains(v2));
                assert(part1@.to_multiset().add(part2@.to_multiset())
                    =~= p1_before.to_multiset().add(p2_before.to_multiset()));
            }
            true
        } else {
            false
        };
        out.push((selector, idx + offset, idx + part2_offset));
        proof {
            let base = out0.len() as int;
            let entry = (selector, (idx + offset) as usize, (idx + part2_offset) as usize);
            assert(out@ == out_before.push(entry));
            assert(out@.subrange(0, base) =~= out_before.subrange(0, base));
            assert(out@.skip(base) =~= out_before.skip(base).push(entry));
            assert(spec_positions_of(out@.skip(base)) =~= spec_positions_of(
                out_before.skip(base),
            ).push(((idx + offset) as usize, (idx + part2_offset) as usize)));
            assert(cross_positions[idx as int] == ((idx + offset) as usize, (idx
                + part2_offset) as usize));
            assert(cross_positions.take(idx + 1) =~= cross_positions.take(idx as int).push(
                cross_positions[idx as int],
            ));
        }
        idx = idx + 1;
    }
    // Recurse into each half, then put the halves back together.
    let ghost out1 = out@;
    let ghost p1_cross = part1@;
    let ghost p2_cross = part2@;
    let out: Vec<(bool, usize, usize)> = recursive_permutation_to_2_split_schedule(
        &mut part1,
        offset,
        out,
    );
    let ghost out2 = out@;
    let out: Vec<(bool, usize, usize)> = recursive_permutation_to_2_split_schedule(
        &mut part2,
        part2_offset,
        out,
    );
    let ghost p1_final = part1@;
    let ghost p2_final = part2@;
    let mut combined: Vec<usize> = part1;
    let mut part2: Vec<usize> = part2;
    combined.append(&mut part2);
    *permutation = combined;
    proof {
        let c = split_idx as nat;
        let f = (len - split_idx) as nat;
        let p1 = spec_split_positions(c, offset as int);
        let p2 = spec_split_positions(f, offset + c);
        let whole = p1 + cross_positions + p1 + p2;
        assert(spec_split_positions(len as nat, offset as int) == whole);
        assert(cross_positions.take(f as int) =~= cross_positions);
        assert(spec_positions_of(prep_seq) == p1) by {
            assert(prep_seq.skip(0) =~= prep_seq);
        }
        // Stack the four segments: each recursion extended the schedule
        // and contributed its own positions.
        let base = out0.len() as int;
        assert(spec_positions_of(out1.skip(base)) == p1 + cross_positions);
        lemma_skip_decompose(out1, out2, base);
        lemma_positions_concat(out1.skip(base), out2.skip(out1.len() as int));
        assert(spec_positions_of(out2.skip(out1.len() as int)) == p1) by {
            assert(out2.skip(out1.len() as int) =~= out2.skip(out1.len() as int));
        }
        assert(spec_positions_of(out2.skip(base)) == p1 + cross_positions + p1);
        lemma_skip_decompose(out2, out@, base);
        lemma_positions_concat(out2.skip(base), out@.skip(out2.len() as int));
        assert(spec_positions_of(out@.skip(out2.len() as int)) == p2);
        assert(spec_positions_of(out@.skip(base)) == p1 + cross_positions + p1 + p2);
        assert(out@.subrange(0, base) =~= out0) by {
            assert(out@.subrange(0, out2.len() as int) == out2);
            assert(out2.subrange(0, out1.len() as int) == out1);
            assert forall|m: int| 0 <= m < base implies out@.subrange(0, base)[m] == out0[m] by {
                assert(out@[m] == out@.subrange(0, out2.len() as int)[m]);
                assert(out2[m] == out2.subrange(0, out1.len() as int)[m]);
                assert(out1[m] == out1.subrange(0, base)[m]);
            }
        }
        assert(out@.len() == out0.len() + whole.len());
        // The halves were only rearranged, separately and across, so the
        // reassembled vector is a rearrangement of the input.
        assert(permutation@.to_multiset() == old(permutation)@.to_multiset()) by {
            broadcast use vstd::multiset::group_multiset_axioms;

            let sub1 = old(permutation)@.subrange(0, split_idx as int);
            let sub2 = old(permutation)@.subrange(split_idx as int, len as int);
            vstd::seq_lib::lemma_multiset_commutative(p1_final, p2_final);
            vstd::seq_lib::lemma_multiset_commutative(sub1, sub2);
            assert(old(permutation)@ =~= sub1 + sub2);
            assert(permutation@ == p1_final + p2_final);
            assert(p1_final.to_multiset() == p1_cross.to_multiset());
            assert(p2_final.to_multiset() == p2_cross.to_multiset());
        }
    }
    out
}

impl SwapSchedule for RecusriveSplitTwoSchedule {
    open spec fn spec_positions(n_objects: nat) -> Seq<(usize, usize)> {
        spec_split_positions(n_objects, 0)
    }

    fn get_swap_sequence(n_objects: usize) -> (r: Vec<(usize, usize)>) {
        let mut identity: Vec<usize> = Vec::new();
        let mut i: usize = 0;
        while i < n_objects
            invariant
                0 <= i <= n_objects,
                identity@.len() == i,
            decreases n_objects - i,
        {
            identity.push(i);
            i = i + 1;
        }
        let sched = recursive_permutation_to_2_split_schedule(&mut identity, 0, Vec::new());
        proof {
            lemma_split_positions_range(n_objects as nat, 0);
            lemma_split_positions_len(n_objects as nat, 0);
            assert(sched@.skip(0) =~= sched@);
            assert forall|k: int|
                0 <= k < sched@.len() implies (#[trigger] sched@[k]).1 < n_objects && sched@[k].2
                < n_objects by {
                assert(spec_positions_of(sched@)[k] == (sched@[k].1, sched@[k].2));
            }
        }
        strip_selectors(&sched, n_objects)
    }

    fn permutation_to_swap_schedule(permutation: &mut Vec<usize>) -> (r: Vec<(bool, usize, usize)>) {
        let sched = recursive_permutation_to_2_split_schedule(permutation, 0, Vec::new());
        proof {
            lemma_split_positions_range(old(permutation)@.len() as nat, 0);
            assert(sched@.skip(0) =~= sched@);
            assert forall|k: int|
                0 <= k < sched@.len() implies (#[trigger] sched@[k]).1 < old(permutation)@.len()
                && sched@[k].2 < old(permutation)@.len() by {
                assert(spec_positions_of(sched@)[k] == (sched@[k].1, sched@[k].2));
            }
        }
        sched
    }
}

} // verus!
