use vstd::prelude::*;

verus! {

use crate::error::Error;

// ---------------------------------------------------------------------------
// Word algebra over 32-bit words.
//
// Every word of a proof instance has this one width; circuits are built from
// XOR, AND, rotations and shifts on such words, and words travel through the
// transcript in little-endian byte order.
// ---------------------------------------------------------------------------

pub open spec fn rotl_val(x: u32, n: u32) -> u32 {
    if n == 0 {
        x
    } else {
        (x << n) | (x >> ((32u32 - n) as u32))
    }
}

pub open spec fn rotr_val(x: u32, n: u32) -> u32 {
    if n == 0 {
        x
    } else {
        (x >> n) | (x << ((32u32 - n) as u32))
    }
}

pub open spec fn shl_val(x: u32, n: u32) -> u32 {
    x << n
}

pub open spec fn shr_val(x: u32, n: u32) -> u32 {
    x >> n
}

/// Rotate left by an in-range amount.
pub fn rotate_left(x: u32, n: u32) -> (r: u32)
    requires
        n < 32,
    ensures
        r == rotl_val(x, n),
{
    if n == 0 {
        x
    } else {
        (x << n) | (x >> (32 - n))
    }
}

/// Rotate right by an in-range amount.
pub fn rotate_right(x: u32, n: u32) -> (r: u32)
    requires
        n < 32,
    ensures
        r == rotr_val(x, n),
{
    if n == 0 {
        x
    } else {
        (x >> n) | (x << (32 - n))
    }
}

/// Shift left by an in-range amount; bits shifted out are discarded.
pub fn shift_left(x: u32, n: u32) -> (r: u32)
    requires
        n < 32,
    ensures
        r == shl_val(x, n),
{
    x << n
}

/// Shift right by an in-range amount.
pub fn shift_right(x: u32, n: u32) -> (r: u32)
    requires
        n < 32,
    ensures
        r == shr_val(x, n),
{
    x >> n
}

/// Total rotation: rejects an out-of-range amount instead of demanding it away.
pub fn try_rotate_left(x: u32, n: u32) -> (r: Result<u32, Error>)
    ensures
        n < 32 ==> r == Ok::<u32, Error>(rotl_val(x, n)),
        n >= 32 ==> r == Err::<u32, Error>(Error::BitError),
{
    if n < 32 {
        Ok(rotate_left(x, n))
    } else {
        Err(Error::BitError)
    }
}

/// Total left shift: rejects an out-of-range amount.
pub fn try_shift_left(x: u32, n: u32) -> (r: Result<u32, Error>)
    ensures
        n < 32 ==> r == Ok::<u32, Error>(shl_val(x, n)),
        n >= 32 ==> r == Err::<u32, Error>(Error::BitError),
{
    if n < 32 {
        Ok(shift_left(x, n))
    } else {
        Err(Error::BitError)
    }
}

// ---------------------------------------------------------------------------
// Little-endian byte coding.
// ---------------------------------------------------------------------------

pub open spec fn word_to_le(x: u32) -> Seq<u8> {
    seq![
        (x & 0xff) as u8,
        ((x >> 8u32) & 0xff) as u8,
        ((x >> 16u32) & 0xff) as u8,
        ((x >> 24u32) & 0xff) as u8,
    ]
}

pub open spec fn word_from_le(b0: u8, b1: u8, b2: u8, b3: u8) -> u32 {
    (b0 as u32) | ((b1 as u32) << 8u32) | ((b2 as u32) << 16u32) | ((b3 as u32) << 24u32)
}

/// The words read out of a byte string, four bytes to a word, little-endian.
pub open spec fn bytes_to_words(b: Seq<u8>) -> Seq<u32> {
    Seq::new((b.len() / 4) as nat, |i: int| word_from_le(b[4 * i], b[4 * i + 1], b[4 * i + 2], b[4 * i + 3]))
}

/// The byte string of a word sequence, each word little-endian.
pub open spec fn words_to_bytes_val(s: Seq<u32>) -> Seq<u8>
    decreases s.len(),
{
    if s.len() == 0 {
        Seq::empty()
    } else {
        words_to_bytes_val(s.drop_last()) + word_to_le(s.last())
    }
}

pub proof fn lemma_words_to_bytes_len(s: Seq<u32>)
    ensures
        words_to_bytes_val(s).len() == 4 * s.len(),
    decreases s.len(),
{
    if s.len() > 0 {
        lemma_words_to_bytes_len(s.drop_last());
    }
}

pub fn word_to_le_bytes(x: u32) -> (r: Vec<u8>)
    ensures
        r@ == word_to_le(x),
{
    let mut v: Vec<u8> = Vec::new();
    v.push((x & 0xff) as u8);
    v.push(((x >> 8) & 0xff) as u8);
    v.push(((x >> 16) & 0xff) as u8);
    v.push(((x >> 24) & 0xff) as u8);
    proof {
        assert(v@ =~= word_to_le(x));
    }
    v
}

pub fn word_from_le_bytes(b0: u8, b1: u8, b2: u8, b3: u8) -> (r: u32)
    ensures
        r == word_from_le(b0, b1, b2, b3),
{
    (b0 as u32) | ((b1 as u32) << 8) | ((b2 as u32) << 16) | ((b3 as u32) << 24)
}

/// Appends the little-endian bytes of every word of `s` to `out`.
pub fn append_words_bytes(out: &mut Vec<u8>, s: &Vec<u32>)
    ensures
        final(out)@ == old(out)@ + words_to_bytes_val(s@),
{
    let mut i: usize = 0;
    while i < s.len()
        invariant
            i <= s.len(),
            out@ == old(out)@ + words_to_bytes_val(s@.take(i as int)),
        decreases s.len() - i,
    {
        let x: u32 = s[i];
        out.push((x & 0xff) as u8);
        out.push(((x >> 8) & 0xff) as u8);
        out.push(((x >> 16) & 0xff) as u8);
        out.push(((x >> 24) & 0xff) as u8);
        proof {
            assert(s@.take(i + 1).drop_last() =~= s@.take(i as int));
            assert(s@.take(i + 1).last() == s@[i as int]);
            assert(out@ =~= old(out)@ + words_to_bytes_val(s@.take(i + 1)));
        }
        i = i + 1;
    }
    proof {
        assert(s@.take(s@.len() as int) =~= s@);
    }
}

proof fn lemma_word_from_le_xor(a0: u8, a1: u8, a2: u8, a3: u8, b0: u8, b1: u8, b2: u8, b3: u8)
    by (bit_vector)
    ensures
        word_from_le((a0 ^ b0), (a1 ^ b1), (a2 ^ b2), (a3 ^ b3)) == word_from_le(a0, a1, a2, a3)
            ^ word_from_le(b0, b1, b2, b3),
{
}

/// Reading words commutes with XOR of the underlying bytes.
pub proof fn lemma_bytes_to_words_xor(a: Seq<u8>, b: Seq<u8>)
    requires
        a.len() == b.len(),
    ensures
        bytes_to_words(xor_bytes(a, b)) == xor_words_val(bytes_to_words(a), bytes_to_words(b)),
{
    assert forall|i: int| 0 <= i < a.len() / 4 implies bytes_to_words(xor_bytes(a, b))[i]
        == xor_words_val(bytes_to_words(a), bytes_to_words(b))[i] by {
        lemma_word_from_le_xor(
            a[4 * i],
            a[4 * i + 1],
            a[4 * i + 2],
            a[4 * i + 3],
            b[4 * i],
            b[4 * i + 1],
            b[4 * i + 2],
            b[4 * i + 3],
        );
    }
    assert(bytes_to_words(xor_bytes(a, b)) =~= xor_words_val(
        bytes_to_words(a),
        bytes_to_words(b),
    ));
}

// ---------------------------------------------------------------------------
// 64-bit little-endian length prefixes.
// ---------------------------------------------------------------------------

pub open spec fn u64_to_le(x: u64) -> Seq<u8> {
    seq![
        (x & 0xff) as u8,
        ((x >> 8u64) & 0xff) as u8,
        ((x >> 16u64) & 0xff) as u8,
        ((x >> 24u64) & 0xff) as u8,
        ((x >> 32u64) & 0xff) as u8,
        ((x >> 40u64) & 0xff) as u8,
        ((x >> 48u64) & 0xff) as u8,
        ((x >> 56u64) & 0xff) as u8,
    ]
}

pub open spec fn u64_from_le(b0: u8, b1: u8, b2: u8, b3: u8, b4: u8, b5: u8, b6: u8, b7: u8) -> u64 {
    (b0 as u64) | ((b1 as u64) << 8u64) | ((b2 as u64) << 16u64) | ((b3 as u64) << 24u64)
        | ((b4 as u64) << 32u64) | ((b5 as u64) << 40u64) | ((b6 as u64) << 48u64)
        | ((b7 as u64) << 56u64)
}

/// Appends the eight little-endian bytes of `x` to `out`.
pub fn append_u64_le(out: &mut Vec<u8>, x: u64)
    ensures
        final(out)@ == old(out)@ + u64_to_le(x),
{
    out.push((x & 0xff) as u8);
    out.push(((x >> 8) & 0xff) as u8);
    out.push(((x >> 16) & 0xff) as u8);
    out.push(((x >> 24) & 0xff) as u8);
    out.push(((x >> 32) & 0xff) as u8);
    out.push(((x >> 40) & 0xff) as u8);
    out.push(((x >> 48) & 0xff) as u8);
    out.push(((x >> 56) & 0xff) as u8);
    proof {
        assert(out@ =~= old(out)@ + u64_to_le(x));
    }
}

/// Word coding is a bijection: the bytes of the word read from four bytes
/// are those four bytes again.
pub proof fn lemma_word_le_inverse(b0: u8, b1: u8, b2: u8, b3: u8)
    ensures
        word_to_le(word_from_le(b0, b1, b2, b3)) == seq![b0, b1, b2, b3],
{
    assert((word_from_le(b0, b1, b2, b3) & 0xff) as u8 == b0) by (bit_vector);
    assert(((word_from_le(b0, b1, b2, b3) >> 8u32) & 0xff) as u8 == b1) by (bit_vector);
    assert(((word_from_le(b0, b1, b2, b3) >> 16u32) & 0xff) as u8 == b2) by (bit_vector);
    assert(((word_from_le(b0, b1, b2, b3) >> 24u32) & 0xff) as u8 == b3) by (bit_vector);
    assert(word_to_le(word_from_le(b0, b1, b2, b3)) =~= seq![b0, b1, b2, b3]);
}

/// And in the other direction: a word survives the trip through its bytes.
pub proof fn lemma_word_le_roundtrip(x: u32)
    ensures
        word_from_le(
            (x & 0xff) as u8,
            ((x >> 8u32) & 0xff) as u8,
            ((x >> 16u32) & 0xff) as u8,
            ((x >> 24u32) & 0xff) as u8,
        ) == x,
{
    assert(word_from_le(
        (x & 0xff) as u8,
        ((x >> 8u32) & 0xff) as u8,
        ((x >> 16u32) & 0xff) as u8,
        ((x >> 24u32) & 0xff) as u8,
    ) == x) by (bit_vector);
}

/// The same bijection for the 64-bit length prefixes.
pub proof fn lemma_u64_le_inverse(b0: u8, b1: u8, b2: u8, b3: u8, b4: u8, b5: u8, b6: u8, b7: u8)
    ensures
        u64_to_le(u64_from_le(b0, b1, b2, b3, b4, b5, b6, b7)) == seq![
            b0,
            b1,
            b2,
            b3,
            b4,
            b5,
            b6,
            b7,
        ],
{
    assert((u64_from_le(b0, b1, b2, b3, b4, b5, b6, b7) & 0xff) as u8 == b0) by (bit_vector);
    assert(((u64_from_le(b0, b1, b2, b3, b4, b5, b6, b7) >> 8u64) & 0xff) as u8 == b1)
        by (bit_vector);
    assert(((u64_from_le(b0, b1, b2, b3, b4, b5, b6, b7) >> 16u64) & 0xff) as u8 == b2)
        by (bit_vector);
    assert(((u64_from_le(b0, b1, b2, b3, b4, b5, b6, b7) >> 24u64) & 0xff) as u8 == b3)
        by (bit_vector);
    assert(((u64_from_le(b0, b1, b2, b3, b4, b5, b6, b7) >> 32u64) & 0xff) as u8 == b4)
        by (bit_vector);
    assert(((u64_from_le(b0, b1, b2, b3, b4, b5, b6, b7) >> 40u64) & 0xff) as u8 == b5)
        by (bit_vector);
    assert(((u64_from_le(b0, b1, b2, b3, b4, b5, b6, b7) >> 48u64) & 0xff) as u8 == b6)
        by (bit_vector);
    assert(((u64_from_le(b0, b1, b2, b3, b4, b5, b6, b7) >> 56u64) & 0xff) as u8 == b7)
        by (bit_vector);
    assert(u64_to_le(u64_from_le(b0, b1, b2, b3, b4, b5, b6, b7)) =~= seq![
        b0,
        b1,
        b2,
        b3,
        b4,
        b5,
        b6,
        b7,
    ]);
}

/// A length prefix pins its value: equal byte encodings mean equal numbers.
pub proof fn lemma_u64_to_le_injective(a: u64, b: u64)
    requires
        u64_to_le(a) == u64_to_le(b),
    ensures
        a == b,
{
    assert(u64_to_le(a)[0] == u64_to_le(b)[0]);
    assert(u64_to_le(a)[1] == u64_to_le(b)[1]);
    assert(u64_to_le(a)[2] == u64_to_le(b)[2]);
    assert(u64_to_le(a)[3] == u64_to_le(b)[3]);
    assert(u64_to_le(a)[4] == u64_to_le(b)[4]);
    assert(u64_to_le(a)[5] == u64_to_le(b)[5]);
    assert(u64_to_le(a)[6] == u64_to_le(b)[6]);
    assert(u64_to_le(a)[7] == u64_to_le(b)[7]);
    assert(a == b) by (bit_vector)
        requires
            (a & 0xff) as u8 == (b & 0xff) as u8,
            ((a >> 8u64) & 0xff) as u8 == ((b >> 8u64) & 0xff) as u8,
            ((a >> 16u64) & 0xff) as u8 == ((b >> 16u64) & 0xff) as u8,
            ((a >> 24u64) & 0xff) as u8 == ((b >> 24u64) & 0xff) as u8,
            ((a >> 32u64) & 0xff) as u8 == ((b >> 32u64) & 0xff) as u8,
            ((a >> 40u64) & 0xff) as u8 == ((b >> 40u64) & 0xff) as u8,
            ((a >> 48u64) & 0xff) as u8 == ((b >> 48u64) & 0xff) as u8,
            ((a >> 56u64) & 0xff) as u8 == ((b >> 56u64) & 0xff) as u8,
    ;
}

// ---------------------------------------------------------------------------
// Elementwise XOR of equal-length sequences.
// ---------------------------------------------------------------------------

pub open spec fn xor_bytes(a: Seq<u8>, b: Seq<u8>) -> Seq<u8> {
    Seq::new(a.len(), |i: int| a[i] ^ b[i])
}

pub open spec fn xor_words_val(a: Seq<u32>, b: Seq<u32>) -> Seq<u32> {
    Seq::new(a.len(), |i: int| a[i] ^ b[i])
}

/// XOR of two byte strings of one length.
pub fn xor_bytes_vec(a: &Vec<u8>, b: &Vec<u8>) -> (r: Vec<u8>)
    requires
        a@.len() == b@.len(),
    ensures
        r@ == xor_bytes(a@, b@),
{
    let mut out: Vec<u8> = Vec::new();
    let mut i: usize = 0;
    while i < a.len()
        invariant
            i <= a@.len(),
            a@.len() == b@.len(),
            out@ =~= xor_bytes(a@, b@).take(i as int),
        decreases a@.len() - i,
    {
        out.push(a[i] ^ b[i]);
        i = i + 1;
    }
    proof {
        assert(out@ =~= xor_bytes(a@, b@));
    }
    out
}

/// XOR of two word vectors of one length.
pub fn xor_words_vec(a: &Vec<u32>, b: &Vec<u32>) -> (r: Vec<u32>)
    requires
        a@.len() == b@.len(),
    ensures
        r@ == xor_words_val(a@, b@),
{
    let mut out: Vec<u32> = Vec::new();
    let mut i: usize = 0;
    while i < a.len()
        invariant
            i <= a@.len(),
            a@.len() == b@.len(),
            out@ =~= xor_words_val(a@, b@).take(i as int),
        decreases a@.len() - i,
    {
        out.push(a[i] ^ b[i]);
        i = i + 1;
    }
    proof {
        assert(out@ =~= xor_words_val(a@, b@));
    }
    out
}

/// Appends every byte of `src` to `out`.
pub fn append_bytes(out: &mut Vec<u8>, src: &Vec<u8>)
    ensures
        final(out)@ == old(out)@ + src@,
{
    let mut i: usize = 0;
    while i < src.len()
        invariant
            i <= src@.len(),
            out@ =~= old(out)@ + src@.take(i as int),
        decreases src@.len() - i,
    {
        out.push(src[i]);
        i = i + 1;
    }
    proof {
        assert(out@ =~= old(out)@ + src@);
    }
}

/// A fresh copy of a byte vector.
pub fn copy_bytes(v: &Vec<u8>) -> (r: Vec<u8>)
    ensures
        r@ == v@,
{
    let mut out: Vec<u8> = Vec::new();
    let mut i: usize = 0;
    while i < v.len()
        invariant
            i <= v@.len(),
            out@ =~= v@.take(i as int),
        decreases v@.len() - i,
    {
        out.push(v[i]);
        i = i + 1;
    }
    proof {
        assert(out@ =~= v@);
    }
    out
}

/// A fresh copy of a word vector.
pub fn copy_words(v: &Vec<u32>) -> (r: Vec<u32>)
    ensures
        r@ == v@,
{
    let mut out: Vec<u32> = Vec::new();
    let mut i: usize = 0;
    while i < v.len()
        invariant
            i <= v@.len(),
            out@ =~= v@.take(i as int),
        decreases v@.len() - i,
    {
        out.push(v[i]);
        i = i + 1;
    }
    proof {
        assert(out@ =~= v@);
    }
    out
}

} // verus!
