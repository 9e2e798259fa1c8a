//! The permutation gate: a fixed sequence of conditional swaps embedded in
//! a circuit row, together with its wire layout, its witness semantics and
//! its serialized descriptor.
//!
//! A permutation row acts on `n_objects` input wires.  For every scheduled swap it
//! reads one boolean selector wire and writes two intermediate wires
//! holding the conditionally swapped pair; the last position an object
//! reaches is its output.  The wire layout is pure arithmetic over the
//! object count and the schedule length, and is verified here; the
//! constraint-polynomial plumbing of the backend lives in the shell around
//! the library.

use crate::codec::spec_words_bytes;
use crate::errors::DecodeError;
use crate::swap_schedule::spec_apply_swaps;
use crate::swap_schedule::spec_positions_of;
use crate::swap_schedule::SwapSchedule;
use vstd::prelude::*;

verus! {

/// A swap schedule named a position outside the objects it acts on.
#[derive(Clone, Copy, Debug, PartialEq, Eq)]
pub struct SwapIndexOutOfRange {
    /// The number of objects; every position must lie below it.
    pub max_allowed: usize,
    /// The offending pair of positions.
    pub found: (usize, usize),
}

/// The permutation gate: how many objects it permutes, which conditional
/// swaps it attempts, and whether it spends constraints on forcing the
/// selectors to be boolean.
#[derive(Debug, Clone)]
pub struct PermutationGate {
    n_objects: usize,
    swap_schedule: Vec<(usize, usize)>,
    enforce_boolean_selectors: bool,
}

/// Interleaves selectors with swap positions into one schedule of
/// conditional swaps.
pub open spec fn spec_selected_swaps(sels: Seq<bool>, positions: Seq<(usize, usize)>) -> Seq<
    (bool, usize, usize),
> {
    Seq::new(positions.len(), |k: int| (k < sels.len() && sels[k], positions[k].0, positions[k].1))
}

/// Splitting a schedule into its selectors and its positions and
/// interleaving them again gives the schedule back: what a sorting
/// strategy records is exactly what this permutation row replays.
pub proof fn lemma_selected_swaps_recover_schedule(sched: Seq<(bool, usize, usize)>)
    ensures
        spec_selected_swaps(
            sched.map_values(|t: (bool, usize, usize)| t.0),
            spec_positions_of(sched),
        ) == sched,
{
    assert(spec_selected_swaps(
        sched.map_values(|t: (bool, usize, usize)| t.0),
        spec_positions_of(sched),
    ) =~= sched);
}

/// The word part of a descriptor parses as a gate: a leading object
/// count and schedule length, a matching number of pair words, sizes that
/// fit the machine's wire arithmetic, and every pair below the count.
pub open spec fn spec_descriptor_words_wf(w: Seq<u64>) -> bool {
    &&& w.len() >= 2
    &&& (w.len() - 2) % 2 == 0
    &&& w[1] == ((w.len() - 2) / 2) as u64
    &&& w[0] <= (usize::MAX / 4) as u64
    &&& (w.len() - 2) / 2 <= usize::MAX / 8
    &&& forall|j: int|
        0 <= j < (w.len() - 2) / 2 ==> #[trigger] w[2 + 2 * j] < w[0] && w[2 + 2 * j + 1] < w[0]
}

/// A byte string is a well-formed gate descriptor: at least two words and
/// a flag byte, framed as whole words, the flag boolean, and the words
/// parsing as a gate.
pub open spec fn spec_descriptor_wf(b: Seq<u8>) -> bool {
    &&& b.len() >= 17
    &&& (b.len() - 1) % 8 == 0
    &&& b.last() <= 1
    &&& spec_descriptor_words_wf(crate::codec::spec_decoded_words(b.take(b.len() - 1)))
}

impl PermutationGate {
    /// The number of objects, as the contracts speak of it.
    pub closed spec fn spec_n_objects(&self) -> usize {
        self.n_objects
    }

    /// The swap schedule, as the contracts speak of it.
    pub closed spec fn spec_swap_schedule(&self) -> Seq<(usize, usize)> {
        self.swap_schedule@
    }

    /// Whether the selectors are constrained to be boolean.
    pub closed spec fn spec_enforce_boolean_selectors(&self) -> bool {
        self.enforce_boolean_selectors
    }

    /// The shape every constructed gate has: each scheduled position lies
    /// below the object count, and the wire layout fits the machine.
    pub open spec fn wf(&self) -> bool {
        &&& forall|k: int|
            0 <= k < self.spec_swap_schedule().len() ==> (#[trigger] self.spec_swap_schedule()[k]).0
                < self.spec_n_objects() && self.spec_swap_schedule()[k].1 < self.spec_n_objects()
        &&& 2 * self.spec_n_objects() + 3 * self.spec_swap_schedule().len() <= usize::MAX
    }

    /// Builds a gate from a swap schedule.
    ///
    /// Fails exactly when the schedule names a position that is not below
    /// `n_objects`, and reports the first such pair.
    pub fn try_new(
        n_objects: usize,
        swap_schedule: Vec<(usize, usize)>,
        enforce_boolean_selectors: bool,
    ) -> (r: Result<PermutationGate, SwapIndexOutOfRange>)
        requires
            2 * n_objects + 3 * swap_schedule@.len() <= usize::MAX,
        ensures
            r is Ok <==> (forall|k: int|
                0 <= k < swap_schedule@.len() ==> (#[trigger] swap_schedule@[k]).0 < n_objects
                    && swap_schedule@[k].1 < n_objects),
            r matches Ok(g) ==> {
                &&& g.wf()
                &&& g.spec_n_objects() == n_objects
                &&& g.spec_swap_schedule() == swap_schedule@
                &&& g.spec_enforce_boolean_selectors() == enforce_boolean_selectors
            },
            r matches Err(e) ==> e.max_allowed == n_objects && (exists|k: int|
                0 <= k < swap_schedule@.len() && e.found == (#[trigger] swap_schedule@[k]) && (
                swap_schedule@[k].0 >= n_objects || swap_schedule@[k].1 >= n_objects) && (forall|
                    m: int,
                |
                    0 <= m < k ==> (#[trigger] swap_schedule@[m]).0 < n_objects
                        && swap_schedule@[m].1 < n_objects)),
    {
        let mut k: usize = 0;
        while k < swap_schedule.len()
            invariant
                0 <= k <= swap_schedule@.len(),
                forall|m: int|
                    0 <= m < k ==> (#[trigger] swap_schedule@[m]).0 < n_objects
                        && swap_schedule@[m].1 < n_objects,
            decreases swap_schedule@.len() - k,
        {
            let pair: (usize, usize) = swap_schedule[k];
            if n_objects <= pair.0 || n_objects <= pair.1 {
                return Err(SwapIndexOutOfRange { max_allowed: n_objects, found: pair });
            }
            k = k + 1;
        }
        Ok(PermutationGate { n_objects, swap_schedule, enforce_boolean_selectors })
    }

    /// Getter for the number of objects being swapped.
    pub fn n_objects(&self) -> (r: usize)
        ensures
            r == self.spec_n_objects(),
    {
        self.n_objects
    }

    /// Getter for the sequence of swaps this gate performs.
    pub fn swap_schedule(&self) -> (r: Vec<(usize, usize)>)
        ensures
            r@ == self.spec_swap_schedule(),
    {
        let mut r: Vec<(usize, usize)> = Vec::new();
        let mut k: usize = 0;
        while k < self.swap_schedule.len()
            invariant
                0 <= k <= self.swap_schedule@.len(),
                r@ == self.swap_schedule@.take(k as int),
            decreases self.swap_schedule@.len() - k,
        {
            r.push(self.swap_schedule[k]);
            k = k + 1;
        }
        proof {
            assert(self.swap_schedule@.take(self.swap_schedule@.len() as int)
                =~= self.swap_schedule@);
        }
        r
    }

    /// The position of the `i`-th input wire.
    pub fn input_wire(&self, i: usize) -> (r: usize)
        requires
            i < self.spec_n_objects(),
        ensures
            r == i,
    {
        i
    }

    /// The position of the `i`-th swap-selector wire.
    pub fn selector_wire(&self, i: usize) -> (r: usize)
        requires
            self.wf(),
            i < self.spec_swap_schedule().len(),
        ensures
            r == 2 * self.spec_n_objects() + i,
    {
        2 * self.n_objects + i
    }

    /// The position of the first intermediate wire of the `i`-th swap.
    pub fn idx1_wire(&self, i: usize) -> (r: usize)
        requires
            self.wf(),
            i < self.spec_swap_schedule().len(),
        ensures
            r == 2 * self.spec_n_objects() + self.spec_swap_schedule().len() + i,
    {
        2 * self.n_objects + self.swap_schedule.len() + i
    }

    /// The position of the second intermediate wire of the `i`-th swap.
    pub fn idx2_wire(&self, i: usize) -> (r: usize)
        requires
            self.wf(),
            i < self.spec_swap_schedule().len(),
        ensures
            r == 2 * self.spec_n_objects() + 2 * self.spec_swap_schedule().len() + i,
    {
        2 * self.n_objects + 2 * self.swap_schedule.len() + i
    }

    /// The position of the `i`-th output wire: values in a circuit are
    /// immutable, so the permuted objects are read from fresh wires.
    pub fn output_wire(&self, i: usize) -> (r: usize)
        requires
            self.wf(),
            i < self.spec_n_objects(),
        ensures
            r == self.spec_n_objects() + i,
    {
        self.n_objects + i
    }

    /// Runs the witness semantics: plays the scheduled swaps over
    /// concrete values, performing exactly those whose selector is set,
    /// and returns the permuted values.
    pub fn apply_to_values(&self, input_values: &Vec<u64>, selectors: &Vec<bool>) -> (r: Vec<u64>)
        requires
            self.wf(),
            input_values@.len() == self.spec_n_objects(),
            selectors@.len() == self.spec_swap_schedule().len(),
        ensures
            r@.len() == input_values@.len(),
            r@ == spec_apply_swaps(
                input_values@,
                spec_selected_swaps(selectors@, self.spec_swap_schedule()),
            ),
    {
        let ghost plan = spec_selected_swaps(selectors@, self.spec_swap_schedule());
        let mut values: Vec<u64> = Vec::new();
        let mut k: usize = 0;
        while k < input_values.len()
            invariant
                0 <= k <= input_values@.len(),
                values@ == input_values@.take(k as int),
            decreases input_values@.len() - k,
        {
            values.push(input_values[k]);
            k = k + 1;
        }
        proof {
            assert(input_values@.take(input_values@.len() as int) =~= input_values@);
        }
        let mut swap_nr: usize = 0;
        while swap_nr < selectors.len()
            invariant
                self.wf(),
                input_values@.len() == self.spec_n_objects(),
                selectors@.len() == self.spec_swap_schedule().len(),
                plan == spec_selected_swaps(selectors@, self.spec_swap_schedule()),
                0 <= swap_nr <= selectors@.len(),
                values@.len() == input_values@.len(),
                values@ == spec_apply_swaps(input_values@, plan.take(swap_nr as int)),
            decreases selectors@.len() - swap_nr,
        {
            let ghost before = values@;
            let pair: (usize, usize) = self.swap_schedule[swap_nr];
            if selectors[swap_nr] {
                let a: u64 = values[pair.0];
                let b: u64 = values[pair.1];
                values.set(pair.0, b);
                values.set(pair.1, a);
            }
            proof {
                let t = plan[swap_nr as int];
                assert(values@ == crate::swap_schedule::spec_one_swap(before, t)) by {
                    if t.0 {
                        assert(values@ =~= before.update(t.1 as int, before[t.2 as int]).update(
                            t.2 as int,
                            before[t.1 as int],
                        ));
                    }
                }
                crate::swap_schedule::lemma_apply_swaps_push(
                    input_values@,
                    plan.take(swap_nr as int),
                    t,
                );
                assert(plan.take(swap_nr + 1) =~= plan.take(swap_nr as int).push(t));
            }
            swap_nr = swap_nr + 1;
        }
        proof {
            assert(plan.take(plan.len() as int) =~= plan);
        }
        values
    }

    /// The serialized descriptor: the object count, the
    /// schedule length, the schedule pairs - all as eight little-endian
    /// bytes each - and one flag byte.
    pub closed spec fn spec_descriptor_words(&self) -> Seq<u64> {
        seq![
            self.n_objects as u64,
            self.swap_schedule@.len() as u64,
        ] + Seq::new(
            self.swap_schedule@.len() * 2,
            |k: int|
                if k % 2 == 0 {
                    self.swap_schedule@[k / 2].0 as u64
                } else {
                    self.swap_schedule@[k / 2].1 as u64
                },
        )
    }

    /// The full serialized descriptor, flag byte included.
    pub open spec fn spec_descriptor_bytes(&self) -> Seq<u8> {
        spec_words_bytes(self.spec_descriptor_words()) + seq![
            if self.spec_enforce_boolean_selectors() {
                1u8
            } else {
                0u8
            },
        ]
    }

    /// Writes the descriptor: object count, schedule length, the
    /// schedule pairs, and the selector-enforcement flag.
    pub fn serialize(&self) -> (r: Vec<u8>)
        requires
            self.spec_swap_schedule().len() * 16 + 17 <= usize::MAX,
        ensures
            r@ == self.spec_descriptor_bytes(),
    {
        let mut words: Vec<u64> = Vec::new();
        words.push(self.n_objects as u64);
        words.push(self.swap_schedule.len() as u64);
        let mut k: usize = 0;
        while k < self.swap_schedule.len()
            invariant
                0 <= k <= self.swap_schedule@.len(),
                words@.len() == 2 + k * 2,
                words@[0] == self.n_objects as u64,
                words@[1] == self.swap_schedule@.len() as u64,
                forall|m: int|
                    0 <= m < k ==> words@[2 + 2 * m] == (#[trigger] self.swap_schedule@[m]).0 as u64
                        && words@[2 + 2 * m + 1] == self.swap_schedule@[m].1 as u64,
            decreases self.swap_schedule@.len() - k,
        {
            let pair: (usize, usize) = self.swap_schedule[k];
            words.push(pair.0 as u64);
            words.push(pair.1 as u64);
            k = k + 1;
        }
        proof {
            assert(words@ =~= self.spec_descriptor_words()) by {
                assert forall|m: int| 0 <= m < words@.len() implies words@[m]
                    == self.spec_descriptor_words()[m] by {
                    if m >= 2 {
                        vstd::arithmetic::div_mod::lemma_fundamental_div_mod(m - 2, 2);
                    }
                }
            }
        }
        let mut bytes: Vec<u8> = crate::codec::encode_public_inputs(&words);
        bytes.push(if self.enforce_boolean_selectors { 1 } else { 0 });
        bytes
    }

    /// Reads a gate back from its serialized descriptor.
    ///
    /// Succeeds exactly on well-formed descriptors, and then the
    /// descriptor is exactly the serialization of the returned gate;
    /// together with `lemma_serialized_descriptor_wf` and
    /// `lemma_descriptor_bytes_injective` this makes descriptors
    /// round-trip.  A buffer with the wrong framing, or a schedule
    /// position at or above the object count, is rejected.
    pub fn deserialize(bytes: &Vec<u8>) -> (r: Result<PermutationGate, DecodeError>)
        ensures
            r is Ok <==> spec_descriptor_wf(bytes@),
            r matches Ok(g) ==> g.wf() && bytes@ == g.spec_descriptor_bytes(),
    {
        if bytes.len() < 17 || (bytes.len() - 1) % 8 != 0 {
            return Err(DecodeError::TruncatedBuffer);
        }
        let words_bytes: Vec<u8> = copy_prefix(bytes, bytes.len() - 1);
        let flag_byte: u8 = bytes[bytes.len() - 1];
        proof {
            assert(flag_byte == bytes@.last());
        }
        if flag_byte > 1 {
            return Err(DecodeError::NonCanonicalFieldElement);
        }
        let words: Vec<u64> = match crate::codec::decode_public_inputs(&words_bytes) {
            Ok(w) => w,
            Err(e) => {
                proof {
                    assert(false);
                }
                return Err(e);
            },
        };
        proof {
            assert(words@ == crate::codec::spec_decoded_words(bytes@.take(bytes@.len() - 1)));
        }
        let gate = match Self::gate_from_words(&words, flag_byte == 1) {
            Ok(g) => g,
            Err(e) => { return Err(e) },
        };
        proof {
            lemma_descriptor_reassembled(gate, words@, words_bytes@, bytes@, flag_byte);
        }
        Ok(gate)
    }

    /// Rebuilds a gate from its descriptor words and its flag.  Succeeds
    /// exactly when the words parse as a gate.
    fn gate_from_words(words: &Vec<u64>, enforce_boolean_selectors: bool) -> (r: Result<
        PermutationGate,
        DecodeError,
    >)
        ensures
            r is Ok <==> spec_descriptor_words_wf(words@),
            r matches Ok(g) ==> g.wf() && g.spec_descriptor_words() == words@
                && g.spec_enforce_boolean_selectors() == enforce_boolean_selectors,
    {
        if words.len() < 2 {
            return Err(DecodeError::TooFewPublicInputs);
        }
        let n_objects_word: u64 = words[0];
        let schedule_len_word: u64 = words[1];
        if n_objects_word > usize::MAX as u64 {
            return Err(DecodeError::NonCanonicalFieldElement);
        }
        if schedule_len_word != ((words.len() - 2) / 2) as u64 || (words.len() - 2) % 2 != 0 {
            return Err(DecodeError::TruncatedBuffer);
        }
        let n_objects: usize = n_objects_word as usize;
        let schedule_len: usize = (words.len() - 2) / 2;
        if n_objects > usize::MAX / 4 || schedule_len > usize::MAX / 8 {
            return Err(DecodeError::NonCanonicalFieldElement);
        }
        let mut swap_schedule: Vec<(usize, usize)> = Vec::new();
        let mut m: usize = 0;
        while m < schedule_len
            invariant
                words@.len() == 2 + schedule_len * 2,
                words@[0] == n_objects as u64,
                n_objects <= usize::MAX / 4,
                schedule_len <= usize::MAX / 8,
                0 <= m <= schedule_len,
                swap_schedule@.len() == m,
                forall|j: int|
                    0 <= j < m ==> ((#[trigger] swap_schedule@[j]).0 as u64 == words@[2 + 2 * j]
                        && swap_schedule@[j].1 as u64 == words@[2 + 2 * j + 1]
                        && swap_schedule@[j].0 < n_objects && swap_schedule@[j].1 < n_objects),
            decreases schedule_len - m,
        {
            proof {
                vstd::arithmetic::div_mod::lemma_fundamental_div_mod(usize::MAX as int, 8);
            }
            let first_word: u64 = words[2 + 2 * m];
            let second_word: u64 = words[2 + 2 * m + 1];
            if first_word >= n_objects as u64 || second_word >= n_objects as u64 {
                proof {
                    // The offending pair falsifies the in-range clause of
                    // the parsing predicate.
                    assert(!(words@[2 + 2 * (m as int)] < words@[0] && words@[2 + 2 * (m as int)
                        + 1] < words@[0]));
                }
                return Err(DecodeError::NonCanonicalFieldElement);
            }
            swap_schedule.push((first_word as usize, second_word as usize));
            m = m + 1;
        }
        let gate = PermutationGate { n_objects, swap_schedule, enforce_boolean_selectors };
        proof {
            assert(gate.spec_descriptor_words() =~= words@) by {
                assert forall|j: int| 0 <= j < words@.len() implies gate.spec_descriptor_words()[j]
                    == words@[j] by {
                    if j >= 2 {
                        vstd::arithmetic::div_mod::lemma_fundamental_div_mod(j - 2, 2);
                    }
                }
            }
            assert(spec_descriptor_words_wf(words@)) by {
                assert forall|j: int|
                    0 <= j < (words@.len() - 2) / 2 implies #[trigger] words@[2 + 2 * j]
                    < words@[0] && words@[2 + 2 * j + 1] < words@[0] by {
                    assert(swap_schedule@[j].0 < n_objects && swap_schedule@[j].1 < n_objects);
                }
            }
        }
        Ok(gate)
    }
}

/// A descriptor whose word part spells out a gate's words, and whose
/// last byte is its flag, is that gate's own serialization.
proof fn lemma_descriptor_reassembled(
    gate: PermutationGate,
    words: Seq<u64>,
    words_bytes: Seq<u8>,
    bytes: Seq<u8>,
    flag_byte: u8,
)
    requires
        words_bytes == spec_words_bytes(words),
        gate.spec_descriptor_words() == words,
        flag_byte == if gate.spec_enforce_boolean_selectors() {
            1u8
        } else {
            0u8
        },
        bytes.len() >= 1,
        words_bytes == bytes.take(bytes.len() - 1),
        flag_byte == bytes.last(),
    ensures
        bytes == gate.spec_descriptor_bytes(),
{
    assert(bytes =~= words_bytes + seq![flag_byte]);
}

/// The descriptor words of a gate that fits the machine parse back as a
/// gate.
proof fn lemma_descriptor_words_of_gate_wf(gate: PermutationGate)
    requires
        gate.wf(),
        gate.spec_n_objects() <= usize::MAX / 4,
        gate.spec_swap_schedule().len() <= usize::MAX / 8,
    ensures
        spec_descriptor_words_wf(gate.spec_descriptor_words()),
{
    let w = gate.spec_descriptor_words();
    let schedule_len = gate.spec_swap_schedule().len() as int;
    assert(w.len() == 2 + 2 * schedule_len);
    assert(w[0] == gate.spec_n_objects() as u64);
    assert(w[1] == gate.spec_swap_schedule().len() as u64);
    assert((w.len() - 2) / 2 == schedule_len);
    assert forall|j: int| 0 <= j < schedule_len implies #[trigger] w[2 + 2 * j] < w[0] && w[2 + 2
        * j + 1] < w[0] by {
        vstd::arithmetic::div_mod::lemma_fundamental_div_mod_converse(2 * j, 2, j, 0);
        vstd::arithmetic::div_mod::lemma_fundamental_div_mod_converse(2 * j + 1, 2, j, 1);
        assert(w[2 + 2 * j] == gate.spec_swap_schedule()[j].0 as u64);
        assert(w[2 + 2 * j + 1] == gate.spec_swap_schedule()[j].1 as u64);
        assert(gate.spec_swap_schedule()[j].0 < gate.spec_n_objects());
        assert(gate.spec_swap_schedule()[j].1 < gate.spec_n_objects());
    }
}

/// A gate that fits the machine serializes to a well-formed descriptor,
/// so deserializing what `serialize` wrote succeeds.
#[verifier::rlimit(100)]
pub proof fn lemma_serialized_descriptor_wf(gate: PermutationGate)
    requires
        gate.wf(),
        gate.spec_n_objects() <= usize::MAX / 4,
        gate.spec_swap_schedule().len() <= usize::MAX / 8,
    ensures
        spec_descriptor_wf(gate.spec_descriptor_bytes()),
{
    let w = gate.spec_descriptor_words();
    let b = gate.spec_descriptor_bytes();
    assert(w.len() == 2 + 2 * gate.spec_swap_schedule().len());
    assert(spec_words_bytes(w).len() == w.len() * 8);
    assert(b.len() == w.len() * 8 + 1);
    vstd::arithmetic::div_mod::lemma_mod_multiples_basic(w.len() as int, 8);
    assert((b.len() - 1) % 8 == 0);
    assert(b.last() <= 1);
    assert(b.take(b.len() - 1) =~= spec_words_bytes(w));
    crate::codec::lemma_words_bytes_decoded(w);
    lemma_descriptor_words_of_gate_wf(gate);
}

/// Two gates with the same descriptor agree on everything the descriptor
/// spells out: the descriptor encoding is injective.
pub proof fn lemma_descriptor_bytes_injective(g1: PermutationGate, g2: PermutationGate)
    requires
        g1.spec_descriptor_bytes() == g2.spec_descriptor_bytes(),
    ensures
        g1.spec_n_objects() == g2.spec_n_objects(),
        g1.spec_swap_schedule() == g2.spec_swap_schedule(),
        g1.spec_enforce_boolean_selectors() == g2.spec_enforce_boolean_selectors(),
{
    let w1 = g1.spec_descriptor_words();
    let w2 = g2.spec_descriptor_words();
    let b1 = g1.spec_descriptor_bytes();
    let b2 = g2.spec_descriptor_bytes();
    assert(b1.len() == w1.len() * 8 + 1);
    assert(b2.len() == w2.len() * 8 + 1);
    assert(b1.take(b1.len() - 1) =~= spec_words_bytes(w1));
    assert(b2.take(b2.len() - 1) =~= spec_words_bytes(w2));
    crate::codec::lemma_encoding_injective(w1, w2);
    assert(w1 == w2);
    assert(g1.spec_n_objects() as u64 == g2.spec_n_objects() as u64) by {
        assert(w1[0] == g1.spec_n_objects() as u64);
        assert(w2[0] == g2.spec_n_objects() as u64);
    }
    let s1 = g1.spec_swap_schedule();
    let s2 = g2.spec_swap_schedule();
    assert(s1.len() == s2.len()) by {
        assert(w1.len() == 2 + 2 * s1.len());
        assert(w2.len() == 2 + 2 * s2.len());
    }
    assert forall|j: int| 0 <= j < s1.len() implies s1[j] == s2[j] by {
        vstd::arithmetic::div_mod::lemma_fundamental_div_mod_converse(2 * j, 2, j, 0);
        vstd::arithmetic::div_mod::lemma_fundamental_div_mod_converse(2 * j + 1, 2, j, 1);
        assert(w1[2 + 2 * j] == s1[j].0 as u64 && w1[2 + 2 * j + 1] == s1[j].1 as u64);
        assert(w2[2 + 2 * j] == s2[j].0 as u64 && w2[2 + 2 * j + 1] == s2[j].1 as u64);
    }
    assert(s1 =~= s2);
    assert(b1.last() == b2.last());
}

/// Copies the first `count` bytes of a buffer.
fn copy_prefix(bytes: &Vec<u8>, count: usize) -> (r: Vec<u8>)
    requires
        count <= bytes@.len(),
    ensures
        r@ == bytes@.take(count as int),
{
    let mut r: Vec<u8> = Vec::new();
    let mut k: usize = 0;
    while k < count
        invariant
            count <= bytes@.len(),
            0 <= k <= count,
            r@ == bytes@.take(k as int),
        decreases count - k,
    {
        r.push(bytes[k]);
        proof {
            assert(r@ =~= bytes@.take(k + 1));
        }
        k = k + 1;
    }
    r
}

/// The witness generator of one permutation-gate row: which row it sits
/// in, and whose wires it fills.
#[derive(Debug)]
pub struct PermutationGateWitnessGenerator {
    /// The circuit row this generator's permutation occupies.
    pub row: usize,
    /// The permutation whose witness values are generated.
    pub gate: PermutationGate,
}

impl PermutationGateWitnessGenerator {
    /// The wire this generator reads or writes for a column of its row.
    pub fn target(&self, column: usize) -> (r: (usize, usize))
        ensures
            r == (self.row, column),
    {
        (self.row, column)
    }

    /// The wires whose values must be known before the generator can run:
    /// one per input object, then one per swap selector.
    pub fn dependencies(&self) -> (r: Vec<(usize, usize)>)
        requires
            self.gate.wf(),
        ensures
            r@.len() == self.gate.spec_n_objects() + self.gate.spec_swap_schedule().len(),
            forall|i: int|
                0 <= i < self.gate.spec_n_objects() ==> #[trigger] r@[i] == (self.row, i as usize),
            forall|i: int|
                self.gate.spec_n_objects() <= i < r@.len() ==> #[trigger] r@[i] == (
                    self.row,
                    (2 * self.gate.spec_n_objects() + i - self.gate.spec_n_objects()) as usize,
                ),
    {
        let n: usize = self.gate.n_objects();
        let schedule_len: usize = self.gate.swap_schedule().len();
        let mut r: Vec<(usize, usize)> = Vec::new();
        let mut i: usize = 0;
        while i < n
            invariant
                0 <= i <= n,
                r@.len() == i,
                forall|m: int| 0 <= m < i ==> #[trigger] r@[m] == (self.row, m as usize),
            decreases n - i,
        {
            r.push((self.row, i));
            i = i + 1;
        }
        let mut s: usize = 0;
        while s < schedule_len
            invariant
                self.gate.wf(),
                n == self.gate.spec_n_objects(),
                schedule_len == self.gate.spec_swap_schedule().len(),
                0 <= s <= schedule_len,
                r@.len() == n + s,
                forall|m: int| 0 <= m < n ==> #[trigger] r@[m] == (self.row, m as usize),
                forall|m: int|
                    n <= m < r@.len() ==> #[trigger] r@[m] == (self.row, (n + m) as usize),
            decreases schedule_len - s,
        {
            let wire: usize = self.gate.selector_wire(s);
            r.push((self.row, wire));
            s = s + 1;
        }
        r
    }

    /// Runs the generator's value computation: the scheduled conditional
    /// swaps played over the input values.
    pub fn run_once(&self, input_values: &Vec<u64>, selectors: &Vec<bool>) -> (r: Vec<u64>)
        requires
            self.gate.wf(),
            input_values@.len() == self.gate.spec_n_objects(),
            selectors@.len() == self.gate.spec_swap_schedule().len(),
        ensures
            r@ == spec_apply_swaps(
                input_values@,
                spec_selected_swaps(selectors@, self.gate.spec_swap_schedule()),
            ),
    {
        self.gate.apply_to_values(input_values, selectors)
    }
}

/// Builds the permutation gate a circuit uses for `n_objects` inputs,
/// with the given strategy's swap schedule - exactly the schedule whose
/// selectors `SwapSchedule::permutation_to_swap_schedule` records.
///
/// The schedule never names a position outside the objects, so the
/// construction cannot fail.  The count bound is a machine limit: the
/// schedule may be quadratic in the count and every swap consumes wires.
/// Building a gate is pure computation; a caller that adds many gates of
/// the same shape memoizes the result.
pub fn general_permutation_gate<S: SwapSchedule>(n_objects: usize, enforce_boolean_selectors: bool)
    -> (r: PermutationGate)
    requires
        n_objects <= 0x4000,
    ensures
        r.wf(),
        r.spec_n_objects() == n_objects,
        r.spec_swap_schedule() == S::spec_positions(n_objects as nat),
        r.spec_enforce_boolean_selectors() == enforce_boolean_selectors,
{
    let schedule: Vec<(usize, usize)> = S::get_swap_sequence(n_objects);
    proof {
        assert(2 * n_objects + 3 * schedule@.len() <= usize::MAX) by {
            assert(schedule@.len() <= 0x4000 * 0x4000) by (nonlinear_arith)
                requires
                    schedule@.len() <= n_objects * n_objects,
                    0 <= n_objects <= 0x4000,
            ;
        }
    }
    match PermutationGate::try_new(n_objects, schedule, enforce_boolean_selectors) {
        Ok(gate) => gate,
        Err(_) => {
            proof {
                assert(false);
            }
            vstd::pervasive::unreached()
        },
    }
}

} // verus!
