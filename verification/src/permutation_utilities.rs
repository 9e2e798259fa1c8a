//! Utilities on permutations of `0..n`: enumeration in lexicographic
//! order, and inversion.

use vstd::prelude::*;

verus! {

/// `s` is a permutation of `0..n`: it has length `n`, every entry is below
/// `n`, and no entry repeats.
pub open spec fn is_permutation_of(s: Seq<usize>, n: nat) -> bool {
    &&& s.len() == n
    &&& forall|i: int| 0 <= i < s.len() ==> (#[trigger] s[i]) < n
    &&& forall|i: int, j: int| 0 <= i < j < s.len() ==> s[i] != s[j]
}

/// `a` comes strictly before `b` in lexicographic order: they agree on a
/// prefix and then `a` holds the smaller entry.
pub open spec fn lex_precedes(a: Seq<usize>, b: Seq<usize>) -> bool {
    exists|j: int|
        0 <= j < a.len() && j < b.len() && a.subrange(0, j) == b.subrange(0, j) && a[j] < b[j]
}

/// Swaps two entries of a vector.
pub fn vec_swap(v: &mut Vec<usize>, i: usize, j: usize)
    requires
        i < old(v)@.len(),
        j < old(v)@.len(),
    ensures
        final(v)@ == old(v)@.update(i as int, old(v)@[j as int]).update(
            j as int,
            old(v)@[i as int],
        ),
        final(v)@.len() == old(v)@.len(),
{
    let a: usize = v[i];
    let b: usize = v[j];
    v.set(i, b);
    v.set(j, a);
    proof {
        assert(v@ =~= old(v)@.update(i as int, old(v)@[j as int]).update(
            j as int,
            old(v)@[i as int],
        ));
    }
}

/// Swapping two entries keeps the multiset of a sequence: the result is
/// a rearrangement of the input.
pub proof fn lemma_swap_to_multiset<T>(s: Seq<T>, i: int, j: int)
    ensures
        0 <= i < s.len() && 0 <= j < s.len() ==> s.update(i, s[j]).update(j, s[i]).to_multiset()
            == s.to_multiset(),
{
    broadcast use vstd::multiset::group_multiset_axioms;
    broadcast use vstd::seq_lib::group_to_multiset_ensures;

    if 0 <= i < s.len() && 0 <= j < s.len() {
        if i == j {
            assert(s.update(i, s[j]).update(j, s[i]) =~= s);
        } else {
            let t1 = s.update(i, s[j]);
            let t2 = t1.update(j, s[i]);
            vstd::seq_lib::to_multiset_update(s, i, s[j]);
            vstd::seq_lib::to_multiset_update(t1, j, s[i]);
            assert(t1[j] == s[j]);
            assert(s.to_multiset().contains(s[i]));
            assert(s.to_multiset().contains(s[j]));
            assert(t2.to_multiset() =~= s.to_multiset());
        }
    }
}

/// Swapping two entries keeps a permutation a permutation.
pub proof fn lemma_swap_preserves_permutation(s: Seq<usize>, i: int, j: int, n: nat)
    requires
        is_permutation_of(s, n),
        0 <= i < s.len(),
        0 <= j < s.len(),
    ensures
        is_permutation_of(s.update(i, s[j]).update(j, s[i]), n),
{
    let t = s.update(i, s[j]).update(j, s[i]);
    assert(t.len() == s.len());
    assert forall|k: int| 0 <= k < t.len() implies (#[trigger] t[k]) < n by {
        if k == j {
            assert(t[k] == s[i]);
        } else if k == i {
            assert(t[k] == s[j]);
        } else {
            assert(t[k] == s[k]);
        }
    }
    assert forall|k: int, m: int| 0 <= k < m < t.len() implies t[k] != t[m] by {
        let sk = if k == i {
            j
        } else if k == j {
            i
        } else {
            k
        };
        let sm = if m == i {
            j
        } else if m == j {
            i
        } else {
            m
        };
        assert(t[k] == s[sk]);
        assert(t[m] == s[sm]);
        assert(sk != sm);
    }
}

/// In a sorted permutation of `0..n` every entry is at least its
/// position: the entries strictly increase from a non-negative start.
proof fn lemma_sorted_permutation_lower(s: Seq<usize>, n: nat, d: int)
    requires
        is_permutation_of(s, n),
        forall|i: int, j: int| 0 <= i < j < s.len() ==> s[i] <= s[j],
        0 <= d < s.len(),
    ensures
        s[d] >= d,
    decreases d,
{
    if d > 0 {
        lemma_sorted_permutation_lower(s, n, d - 1);
        assert(s[d - 1] != s[d]);
    }
}

/// In a sorted permutation of `0..n` every entry is at most its
/// position: the entries strictly increase up to a bound of `n - 1`.
proof fn lemma_sorted_permutation_upper(s: Seq<usize>, n: nat, d: int)
    requires
        is_permutation_of(s, n),
        forall|i: int, j: int| 0 <= i < j < s.len() ==> s[i] <= s[j],
        0 <= d < s.len(),
    ensures
        s[d] <= d,
    decreases s.len() - d,
{
    if d < s.len() - 1 {
        lemma_sorted_permutation_upper(s, n, d + 1);
        assert(s[d] != s[d + 1]);
    }
}

/// A sorted permutation of `0..n` is the identity: sorting a
/// permutation's entries puts every one at its own position, so a swap
/// selection that sorts realizes the permutation exactly.
pub proof fn lemma_sorted_permutation_is_identity(s: Seq<usize>, n: nat)
    requires
        is_permutation_of(s, n),
        forall|i: int, j: int| 0 <= i < j < s.len() ==> s[i] <= s[j],
    ensures
        s == Seq::new(n, |i: int| i as usize),
{
    assert forall|d: int| 0 <= d < s.len() implies s[d] == d by {
        lemma_sorted_permutation_lower(s, n, d);
        lemma_sorted_permutation_upper(s, n, d);
    }
    assert(s =~= Seq::new(n, |i: int| i as usize));
}

/// Writes the inverse of `permutation` into `output_buffer`: the entry at
/// position `permutation[i]` becomes `i`.
///
/// The caller guarantees that the input is an actual permutation and that
/// the buffer is at least as long; any entries beyond the permutation's
/// length are left as they were.
pub fn inverse_permutation(permutation: &Vec<usize>, output_buffer: &mut Vec<usize>)
    requires
        is_permutation_of(permutation@, permutation@.len() as nat),
        old(output_buffer)@.len() >= permutation@.len(),
    ensures
        final(output_buffer)@.len() == old(output_buffer)@.len(),
        forall|i: int|
            0 <= i < permutation@.len() ==> final(output_buffer)@[#[trigger] permutation@[i] as int]
                == i,
        forall|j: int|
            permutation@.len() <= j < final(output_buffer)@.len() ==> final(output_buffer)@[j]
                == old(output_buffer)@[j],
{
    let mut i: usize = 0;
    while i < permutation.len()
        invariant
            is_permutation_of(permutation@, permutation@.len() as nat),
            output_buffer@.len() == old(output_buffer)@.len() >= permutation@.len(),
            0 <= i <= permutation@.len(),
            forall|m: int|
                0 <= m < i ==> output_buffer@[#[trigger] permutation@[m] as int] == m,
            forall|j: int|
                permutation@.len() <= j < output_buffer@.len() ==> output_buffer@[j] == old(
                    output_buffer,
                )@[j],
        decreases permutation@.len() - i,
    {
        let slot: usize = permutation[i];
        output_buffer.set(slot, i);
        proof {
            assert forall|m: int|
                0 <= m < i + 1 implies output_buffer@[#[trigger] permutation@[m] as int] == m by {
                if m < i {
                    assert(permutation@[m] != permutation@[i as int]);
                }
            }
        }
        i = i + 1;
    }
}

/// Enumerates the permutations of `0..n` in lexicographic order, by
/// Knuth's plain-changes-free "algorithm L".
///
/// Each call of `next` yields the current permutation and advances the
/// internal state to its lexicographic successor; after the last
/// permutation (the strictly descending one) the enumeration is finished
/// and `next` yields nothing.
pub struct KnuthL {
    n_objects: usize,
    permutation: Option<Vec<usize>>,
}

impl KnuthL {
    /// How many objects the enumerated permutations act on.
    pub closed spec fn spec_n_objects(&self) -> usize {
        self.n_objects
    }

    /// The permutation the next call of `next` will yield, if the
    /// enumeration is not finished.
    pub closed spec fn current(&self) -> Option<Seq<usize>> {
        match self.permutation {
            Some(v) => Some(v@),
            None => None,
        }
    }

    /// The state is either finished or holds a permutation of `0..n`.
    pub open spec fn wf(&self) -> bool {
        match self.current() {
            Some(s) => is_permutation_of(s, self.spec_n_objects() as nat),
            None => true,
        }
    }

    /// Starts the enumeration of the permutations of `0..n_objects`, at
    /// the identity permutation.  An enumeration of zero objects is
    /// finished from the start.
    pub fn new(n_objects: usize) -> (r: KnuthL)
        ensures
            r.wf(),
            r.spec_n_objects() == n_objects,
            n_objects == 0 ==> r.current() is None,
            n_objects > 0 ==> (r.current() matches Some(s) && s == Seq::new(
                n_objects as nat,
                |i: int| i as usize,
            )),
    {
        if n_objects == 0 {
            return KnuthL { n_objects, permutation: None };
        }
        let mut v: Vec<usize> = Vec::new();
        let mut i: usize = 0;
        while i < n_objects
            invariant
                0 <= i <= n_objects,
                v@.len() == i,
                forall|m: int| 0 <= m < i ==> v@[m] == m,
            decreases n_objects - i,
        {
            v.push(i);
            i = i + 1;
        }
        proof {
            assert(v@ =~= Seq::new(n_objects as nat, |k: int| k as usize));
        }
        KnuthL { n_objects, permutation: Some(v) }
    }

    /// Yields the current permutation and advances to its lexicographic
    /// successor, or yields nothing when the enumeration is finished.
    pub fn next(&mut self) -> (r: Option<Vec<usize>>)
        requires
            old(self).wf(),
        ensures
            final(self).wf(),
            final(self).spec_n_objects() == old(self).spec_n_objects(),
            old(self).current() is None ==> r is None && final(self).current() is None,
            old(self).current() matches Some(s) ==> (r matches Some(out) && out@ == s
                && is_permutation_of(out@, old(self).spec_n_objects() as nat)),
            old(self).current() matches Some(s) ==> (final(self).current() matches Some(t)
                ==> lex_precedes(s, t)),
            old(self).current() matches Some(s) ==> (final(self).current() is None ==> forall|
                k: int,
            |
                0 <= k < s.len() - 1 ==> #[trigger] s[k] > s[k + 1]),
    {
        let output: Vec<usize> = match &self.permutation {
            None => { return None },
            Some(v) => v.clone(),
        };
        let mut array: Vec<usize> = output.clone();
        let n_objects: usize = array.len();
        if n_objects == 0 {
            self.permutation = None;
            return Some(output);
        }
        // Find the last position j with array[j] <= array[j + 1]; if there
        // is none, the current permutation is the last one.
        let mut boundary: usize = n_objects - 1;
        while boundary > 0 && !(array[boundary - 1] <= array[boundary])
            invariant
                0 <= boundary <= array@.len() - 1,
                array@.len() == n_objects,
                forall|m: int| boundary <= m < n_objects - 1 ==> #[trigger] array@[m] > array@[m + 1],
            decreases boundary,
        {
            boundary = boundary - 1;
        }
        if boundary == 0 {
            self.permutation = None;
            return Some(output);
        }
        let j: usize = boundary - 1;
        // Find the last position l > j with array[j] <= array[l]; position
        // j + 1 qualifies, so the search always succeeds.
        let mut l: usize = n_objects - 1;
        while l > j + 1 && !(array[j] <= array[l])
            invariant
                j + 1 <= l <= array@.len() - 1,
            decreases l,
        {
            l = l - 1;
        }
        proof {
            lemma_swap_preserves_permutation(array@, j as int, l as int, self.n_objects as nat);
            // The two entries differ, and the search left the larger one
            // at l, so the entry at j strictly grows.
            assert(array@[j as int] != array@[l as int]);
            assert(array@[j as int] <= array@[l as int]);
        }
        let ghost before_swap = array@;
        vec_swap(&mut array, j, l);
        let ghost after_swap = array@;
        proof {
            assert(after_swap[j as int] > before_swap[j as int]);
            assert(forall|k: int| 0 <= k < j ==> after_swap[k] == before_swap[k]);
        }
        // Reverse the suffix after j.
        let mut lo: usize = j + 1;
        let mut hi: usize = n_objects - 1;
        while lo < hi
            invariant
                j + 1 <= lo,
                hi <= array@.len() - 1,
                array@.len() == n_objects,
                is_permutation_of(array@, self.n_objects as nat),
                forall|k: int| 0 <= k <= j ==> array@[k] == after_swap[k],
            decreases hi + 1 - lo,
        {
            proof {
                lemma_swap_preserves_permutation(array@, lo as int, hi as int, self.n_objects as nat);
            }
            vec_swap(&mut array, lo, hi);
            lo = lo + 1;
            hi = hi - 1;
        }
        proof {
            // The yielded permutation precedes the new state: they agree
            // below j and the entry at j grew.
            assert(output@.subrange(0, j as int) =~= array@.subrange(0, j as int));
            assert(output@[j as int] < array@[j as int]);
            assert(lex_precedes(output@, array@));
        }
        self.permutation = Some(array);
        Some(output)
    }
}

/// Enumerates all the permutations of a given length, yielding each one as
/// a fresh vector.
pub struct PermutationsIter {
    inner: KnuthL,
}

impl PermutationsIter {
    /// The underlying enumeration state is well formed.
    pub closed spec fn wf(&self) -> bool {
        self.inner.wf()
    }

    /// How many objects the enumerated permutations act on.
    pub closed spec fn spec_n_objects(&self) -> usize {
        self.inner.spec_n_objects()
    }

    /// The permutation the next call of `next` will yield, if the
    /// enumeration is not finished.
    pub closed spec fn current(&self) -> Option<Seq<usize>> {
        self.inner.current()
    }

    /// Starts an enumeration of the permutations of `0..n_objects`, at
    /// the identity permutation.
    pub fn new(n_objects: usize) -> (r: PermutationsIter)
        ensures
            r.wf(),
            r.spec_n_objects() == n_objects,
            n_objects == 0 ==> r.current() is None,
            n_objects > 0 ==> (r.current() matches Some(s) && s == Seq::new(
                n_objects as nat,
                |i: int| i as usize,
            )),
    {
        PermutationsIter { inner: KnuthL::new(n_objects) }
    }

    /// Yields the next permutation and advances to its lexicographic
    /// successor, or yields nothing once all have been yielded.
    pub fn next(&mut self) -> (r: Option<Vec<usize>>)
        requires
            old(self).wf(),
        ensures
            final(self).wf(),
            final(self).spec_n_objects() == old(self).spec_n_objects(),
            old(self).current() is None ==> r is None && final(self).current() is None,
            old(self).current() matches Some(s) ==> (r matches Some(out) && out@ == s
                && is_permutation_of(out@, old(self).spec_n_objects() as nat)),
            old(self).current() matches Some(s) ==> (final(self).current() matches Some(t)
                ==> lex_precedes(s, t)),
            old(self).current() matches Some(s) ==> (final(self).current() is None ==> forall|
                k: int,
            |
                0 <= k < s.len() - 1 ==> #[trigger] s[k] > s[k + 1]),
    {
        self.inner.next()
    }
}

} // verus!
