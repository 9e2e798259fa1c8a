//! The byte encoding of public-input vectors.
//!
//! A proof's public inputs travel as bytes: each field element is written
//! as eight little-endian bytes, in the fixed public-input order.  The
//! encoding is injective, so changing any single byte of a well-formed
//! encoding changes the decoded values - tampering with the public outputs
//! of a proof cannot go unnoticed by a verifier that recomputes them - and
//! a buffer that ends in the middle of a field element is rejected as
//! truncated.

use crate::errors::DecodeError;
use vstd::prelude::*;

verus! {

/// The eight little-endian bytes of one 64-bit word.
pub open spec fn spec_word_bytes(x: u64) -> Seq<u8> {
    Seq::new(8, |i: int| ((x >> ((8 * i) as u64)) & 0xff) as u8)
}

/// The little-endian byte string of a vector of 64-bit words.
pub open spec fn spec_words_bytes(v: Seq<u64>) -> Seq<u8> {
    Seq::new(v.len() * 8, |i: int| spec_word_bytes(v[i / 8])[i % 8])
}

/// The 64-bit word held by eight little-endian bytes.
pub open spec fn spec_word_of_bytes(b: Seq<u8>) -> u64 {
    (b[0] as u64) | ((b[1] as u64) << 8u64) | ((b[2] as u64) << 16u64) | ((b[3] as u64) << 24u64)
        | ((b[4] as u64) << 32u64) | ((b[5] as u64) << 40u64) | ((b[6] as u64) << 48u64) | ((
    b[7] as u64) << 56u64)
}

/// The words held by a little-endian byte string, eight bytes each.
pub open spec fn spec_decoded_words(b: Seq<u8>) -> Seq<u64> {
    Seq::new(b.len() / 8, |w: int| spec_word_of_bytes(b.subrange(8 * w, 8 * w + 8)))
}

/// Writes a public-input vector as little-endian bytes, eight per value.
pub fn encode_public_inputs(v: &Vec<u64>) -> (b: Vec<u8>)
    requires
        v@.len() * 8 <= usize::MAX,
    ensures
        b@ == spec_words_bytes(v@),
{
    let mut b: Vec<u8> = Vec::new();
    let mut i: usize = 0;
    while i < v.len()
        invariant
            v@.len() * 8 <= usize::MAX,
            0 <= i <= v@.len(),
            b@.len() == i * 8,
            forall|k: int| 0 <= k < b@.len() ==> b@[k] == spec_words_bytes(v@)[k],
        decreases v@.len() - i,
    {
        let x: u64 = v[i];
        let mut j: usize = 0;
        while j < 8
            invariant
                v@.len() * 8 <= usize::MAX,
                0 <= i < v@.len(),
                0 <= j <= 8,
                x == v@[i as int],
                b@.len() == i * 8 + j,
                forall|k: int| 0 <= k < b@.len() ==> b@[k] == spec_words_bytes(v@)[k],
            decreases 8 - j,
        {
            let byte: u8 = ((x >> ((8 * j) as u64)) & 0xff) as u8;
            b.push(byte);
            proof {
                let k = (i * 8 + j) as int;
                vstd::arithmetic::div_mod::lemma_fundamental_div_mod_converse(
                    k,
                    8,
                    i as int,
                    j as int,
                );
                assert(b@[k] == spec_words_bytes(v@)[k]);
            }
            j = j + 1;
        }
        i = i + 1;
    }
    proof {
        assert(b@ =~= spec_words_bytes(v@));
    }
    b
}

/// Reads one 64-bit word from eight little-endian bytes.
fn decode_word(b: &Vec<u8>, base: usize) -> (x: u64)
    requires
        base + 8 <= b@.len(),
    ensures
        x == spec_word_of_bytes(b@.subrange(base as int, base + 8)),
        spec_word_bytes(x) == b@.subrange(base as int, base + 8),
{
    let total: usize = b.len();
    proof {
        assert(base + 8 <= total);
    }
    let b0: u64 = b[base] as u64;
    let b1: u64 = b[base + 1] as u64;
    let b2: u64 = b[base + 2] as u64;
    let b3: u64 = b[base + 3] as u64;
    let b4: u64 = b[base + 4] as u64;
    let b5: u64 = b[base + 5] as u64;
    let b6: u64 = b[base + 6] as u64;
    let b7: u64 = b[base + 7] as u64;
    let x: u64 = b0 | (b1 << 8u64) | (b2 << 16u64) | (b3 << 24u64) | (b4 << 32u64) | (b5
        << 40u64) | (b6 << 48u64) | (b7 << 56u64);
    proof {
        let sub = b@.subrange(base as int, base + 8);
        assert(sub[0] == b0 && sub[1] == b1 && sub[2] == b2 && sub[3] == b3 && sub[4] == b4
            && sub[5] == b5 && sub[6] == b6 && sub[7] == b7);
        assert((x >> 0u64) & 0xff == b0 && (x >> 8u64) & 0xff == b1 && (x >> 16u64) & 0xff == b2
            && (x >> 24u64) & 0xff == b3 && (x >> 32u64) & 0xff == b4 && (x >> 40u64) & 0xff == b5
            && (x >> 48u64) & 0xff == b6 && (x >> 56u64) & 0xff == b7) by (bit_vector)
            requires
                b0 < 256 && b1 < 256 && b2 < 256 && b3 < 256 && b4 < 256 && b5 < 256 && b6 < 256
                    && b7 < 256,
                x == b0 | (b1 << 8u64) | (b2 << 16u64) | (b3 << 24u64) | (b4 << 32u64) | (b5
                    << 40u64) | (b6 << 48u64) | (b7 << 56u64),
        ;
        assert(spec_word_bytes(x) =~= sub) by {
            assert(spec_word_bytes(x)[0] == ((x >> 0u64) & 0xff) as u8);
            assert(spec_word_bytes(x)[1] == ((x >> 8u64) & 0xff) as u8);
            assert(spec_word_bytes(x)[2] == ((x >> 16u64) & 0xff) as u8);
            assert(spec_word_bytes(x)[3] == ((x >> 24u64) & 0xff) as u8);
            assert(spec_word_bytes(x)[4] == ((x >> 32u64) & 0xff) as u8);
            assert(spec_word_bytes(x)[5] == ((x >> 40u64) & 0xff) as u8);
            assert(spec_word_bytes(x)[6] == ((x >> 48u64) & 0xff) as u8);
            assert(spec_word_bytes(x)[7] == ((x >> 56u64) & 0xff) as u8);
        }
    }
    x
}

/// Reads a public-input vector back from little-endian bytes.
///
/// Fails exactly when the buffer's length is not a multiple of eight: such
/// a buffer is truncated.  On success the buffer is precisely the encoding
/// of the returned vector, and the vector is the one the bytes spell out -
/// decoding is a pure function of the bytes.
pub fn decode_public_inputs(b: &Vec<u8>) -> (r: Result<Vec<u64>, DecodeError>)
    ensures
        r is Err <==> b@.len() % 8 != 0,
        r matches Err(e) ==> e == DecodeError::TruncatedBuffer,
        r matches Ok(v) ==> v@.len() * 8 == b@.len() && b@ == spec_words_bytes(v@) && v@
            == spec_decoded_words(b@),
{
    if b.len() % 8 != 0 {
        return Err(DecodeError::TruncatedBuffer);
    }
    let words: usize = b.len() / 8;
    let mut v: Vec<u64> = Vec::new();
    let mut i: usize = 0;
    while i < words
        invariant
            b@.len() == words * 8,
            words * 8 <= usize::MAX,
            0 <= i <= words,
            v@.len() == i,
            forall|w: int|
                0 <= w < i ==> spec_word_bytes(#[trigger] v@[w]) == b@.subrange(8 * w, 8 * w + 8),
            forall|w: int| 0 <= w < i ==> #[trigger] v@[w] == spec_decoded_words(b@)[w],
        decreases words - i,
    {
        let ghost old_v = v@;
        let x: u64 = decode_word(b, 8 * i);
        v.push(x);
        proof {
            assert(v@ == old_v.push(x));
            assert(spec_decoded_words(b@)[i as int] == spec_word_of_bytes(
                b@.subrange(8 * i as int, 8 * i + 8),
            ));
        }
        i = i + 1;
    }
    proof {
        assert(v@ =~= spec_decoded_words(b@));
        assert(b@ =~= spec_words_bytes(v@)) by {
            assert forall|k: int| 0 <= k < b@.len() implies b@[k] == spec_words_bytes(v@)[k] by {
                vstd::arithmetic::div_mod::lemma_fundamental_div_mod(k, 8);
                let w = k / 8;
                let j = k % 8;
                assert(spec_word_bytes(v@[w]) == b@.subrange(8 * w, 8 * w + 8));
                assert(spec_word_bytes(v@[w])[j] == b@.subrange(8 * w, 8 * w + 8)[j]);
                assert(spec_words_bytes(v@)[k] == spec_word_bytes(v@[w])[j]);
            }
        }
    }
    Ok(v)
}

/// The eight little-endian bytes of a word spell that word back.
pub proof fn lemma_word_bytes_roundtrip(x: u64)
    ensures
        spec_word_of_bytes(spec_word_bytes(x)) == x,
{
    let b = spec_word_bytes(x);
    assert(b[0] == ((x >> 0u64) & 0xff) as u8);
    assert(b[1] == ((x >> 8u64) & 0xff) as u8);
    assert(b[2] == ((x >> 16u64) & 0xff) as u8);
    assert(b[3] == ((x >> 24u64) & 0xff) as u8);
    assert(b[4] == ((x >> 32u64) & 0xff) as u8);
    assert(b[5] == ((x >> 40u64) & 0xff) as u8);
    assert(b[6] == ((x >> 48u64) & 0xff) as u8);
    assert(b[7] == ((x >> 56u64) & 0xff) as u8);
    let y0 = (x >> 0u64) & 0xff;
    let y1 = (x >> 8u64) & 0xff;
    let y2 = (x >> 16u64) & 0xff;
    let y3 = (x >> 24u64) & 0xff;
    let y4 = (x >> 32u64) & 0xff;
    let y5 = (x >> 40u64) & 0xff;
    let y6 = (x >> 48u64) & 0xff;
    let y7 = (x >> 56u64) & 0xff;
    assert(y0 < 256 && y1 < 256 && y2 < 256 && y3 < 256 && y4 < 256 && y5 < 256 && y6 < 256 && y7
        < 256 && x == y0 | (y1 << 8u64) | (y2 << 16u64) | (y3 << 24u64) | (y4 << 32u64) | (y5
        << 40u64) | (y6 << 48u64) | (y7 << 56u64)) by (bit_vector)
        requires
            y0 == (x >> 0u64) & 0xff && y1 == (x >> 8u64) & 0xff && y2 == (x >> 16u64) & 0xff && y3
                == (x >> 24u64) & 0xff && y4 == (x >> 32u64) & 0xff && y5 == (x >> 40u64) & 0xff
                && y6 == (x >> 48u64) & 0xff && y7 == (x >> 56u64) & 0xff,
    ;
    assert((b[0] as u64) == y0 && (b[1] as u64) == y1 && (b[2] as u64) == y2 && (b[3] as u64) == y3
        && (b[4] as u64) == y4 && (b[5] as u64) == y5 && (b[6] as u64) == y6 && (b[7] as u64)
        == y7);
}

/// Decoding the encoding of a word vector yields the vector back.
pub proof fn lemma_words_bytes_decoded(v: Seq<u64>)
    ensures
        spec_decoded_words(spec_words_bytes(v)) == v,
{
    let b = spec_words_bytes(v);
    assert(b.len() == v.len() * 8);
    vstd::arithmetic::div_mod::lemma_div_multiples_vanish(v.len() as int, 8);
    assert(b.len() / 8 == v.len());
    assert forall|w: int| 0 <= w < v.len() implies spec_decoded_words(b)[w] == v[w] by {
        assert(b.subrange(8 * w, 8 * w + 8) =~= spec_word_bytes(v[w])) by {
            assert forall|j: int| 0 <= j < 8 implies b.subrange(8 * w, 8 * w + 8)[j]
                == spec_word_bytes(v[w])[j] by {
                let k = 8 * w + j;
                vstd::arithmetic::div_mod::lemma_fundamental_div_mod_converse(k, 8, w, j);
                assert(b[k] == spec_word_bytes(v[k / 8])[k % 8]);
            }
        }
        lemma_word_bytes_roundtrip(v[w]);
    }
    assert(spec_decoded_words(b) =~= v);
}

/// The encoding of public inputs is injective: two byte strings that both
/// decode, and decode to the same values, are the same bytes - so changing
/// any byte of an encoding changes the decoded public inputs or breaks
/// decoding altogether.
pub proof fn lemma_encoding_injective(v1: Seq<u64>, v2: Seq<u64>)
    requires
        spec_words_bytes(v1) == spec_words_bytes(v2),
    ensures
        v1 == v2,
{
    assert(spec_words_bytes(v1).len() == v1.len() * 8);
    assert(spec_words_bytes(v2).len() == v2.len() * 8);
    assert(v1.len() == v2.len());
    assert forall|w: int| 0 <= w < v1.len() implies v1[w] == v2[w] by {
        let x = v1[w];
        let y = v2[w];
        let bytes1 = spec_words_bytes(v1);
        let bytes2 = spec_words_bytes(v2);
        assert forall|j: int| 0 <= j < 8 implies #[trigger] spec_word_bytes(x)[j]
            == spec_word_bytes(y)[j] by {
            let k = 8 * w + j;
            vstd::arithmetic::div_mod::lemma_fundamental_div_mod_converse(k, 8, w, j);
            assert(bytes1[k] == spec_word_bytes(x)[j]);
            assert(bytes2[k] == spec_word_bytes(y)[j]);
        }
        // Every byte of the two words is below 256, so equal `u8` casts
        // mean equal masked values.
        assert((x >> 0u64) & 0xff < 256 && (x >> 8u64) & 0xff < 256 && (x >> 16u64) & 0xff < 256
            && (x >> 24u64) & 0xff < 256 && (x >> 32u64) & 0xff < 256 && (x >> 40u64) & 0xff < 256
            && (x >> 48u64) & 0xff < 256 && (x >> 56u64) & 0xff < 256 && (y >> 0u64) & 0xff < 256
            && (y >> 8u64) & 0xff < 256 && (y >> 16u64) & 0xff < 256 && (y >> 24u64) & 0xff < 256
            && (y >> 32u64) & 0xff < 256 && (y >> 40u64) & 0xff < 256 && (y >> 48u64) & 0xff < 256
            && (y >> 56u64) & 0xff < 256) by (bit_vector);
        assert(spec_word_bytes(x)[0] == spec_word_bytes(y)[0]);
        assert(spec_word_bytes(x)[1] == spec_word_bytes(y)[1]);
        assert(spec_word_bytes(x)[2] == spec_word_bytes(y)[2]);
        assert(spec_word_bytes(x)[3] == spec_word_bytes(y)[3]);
        assert(spec_word_bytes(x)[4] == spec_word_bytes(y)[4]);
        assert(spec_word_bytes(x)[5] == spec_word_bytes(y)[5]);
        assert(spec_word_bytes(x)[6] == spec_word_bytes(y)[6]);
        assert(spec_word_bytes(x)[7] == spec_word_bytes(y)[7]);
        assert(x == y) by (bit_vector)
            requires
                (x >> 0u64) & 0xff == (y >> 0u64) & 0xff,
                (x >> 8u64) & 0xff == (y >> 8u64) & 0xff,
                (x >> 16u64) & 0xff == (y >> 16u64) & 0xff,
                (x >> 24u64) & 0xff == (y >> 24u64) & 0xff,
                (x >> 32u64) & 0xff == (y >> 32u64) & 0xff,
                (x >> 40u64) & 0xff == (y >> 40u64) & 0xff,
                (x >> 48u64) & 0xff == (y >> 48u64) & 0xff,
                (x >> 56u64) & 0xff == (y >> 56u64) & 0xff,
        ;
    }
    assert(v1 =~= v2);
}

} // verus!
