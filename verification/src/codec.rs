use vstd::prelude::*;

verus! {

use crate::data_structures::{Commitment, Proof};
use crate::error::Error;
use crate::view::PartyView;
use crate::word::{append_bytes, append_u64_le, append_words_bytes, u64_to_le,
    lemma_u64_le_inverse, lemma_u64_to_le_injective, lemma_word_le_inverse, word_from_le_bytes,
    word_to_le, words_to_bytes_val, lemma_words_to_bytes_len};

// ---------------------------------------------------------------------------
// Canonical proof coding.
//
// The byte layout, in order: the public output words; for each repetition
// the opened party's input bytes (length-prefixed), the next party's view
// (input length-prefixed, then message count, then message words), the two
// opened keys, and the closing commitment; finally the claimed trits in one
// run.  Length prefixes are unsigned little-endian 64-bit; keys and
// commitments have fixed lengths and carry no prefix.
// ---------------------------------------------------------------------------

/// The bytes of one replayed view.
pub open spec fn view_bytes(v: PartyView) -> Seq<u8> {
    u64_to_le(v.input@.len() as u64) + v.input@ + u64_to_le(v.messages@.len() as u64)
        + words_to_bytes_val(v.messages@)
}

/// The bytes of one opened repetition.
pub open spec fn rep_bytes(
    party_inputs: Seq<Vec<u8>>,
    views: Seq<PartyView>,
    keys: Seq<Vec<u8>>,
    cms: Seq<Commitment>,
    j: int,
) -> Seq<u8> {
    u64_to_le(party_inputs[j]@.len() as u64) + party_inputs[j]@ + view_bytes(views[j]) + keys[2
        * j]@ + keys[2 * j + 1]@ + cms[j].data@
}

/// The bytes of the first `j` opened repetitions.
pub open spec fn reps_bytes(
    party_inputs: Seq<Vec<u8>>,
    views: Seq<PartyView>,
    keys: Seq<Vec<u8>>,
    cms: Seq<Commitment>,
    j: int,
) -> Seq<u8>
    decreases j,
{
    if j <= 0 {
        Seq::empty()
    } else {
        reps_bytes(party_inputs, views, keys, cms, j - 1) + rep_bytes(
            party_inputs,
            views,
            keys,
            cms,
            j - 1,
        )
    }
}

/// The canonical byte string of a proof and its public output.
pub open spec fn proof_bytes(output: Seq<u32>, pf: Proof) -> Seq<u8> {
    words_to_bytes_val(output) + reps_bytes(
        pf.party_inputs@,
        pf.views@,
        pf.keys@,
        pf.commitments@,
        pf.claimed_trits@.len() as int,
    ) + pf.claimed_trits@
}

/// The shape a proof must have to be encoded: matching field counts, fixed
/// key and commitment lengths, and trit values.
pub open spec fn encodable(pf: Proof) -> bool {
    let reps = pf.claimed_trits@.len() as int;
    &&& pf.party_inputs@.len() == reps
    &&& pf.views@.len() == reps
    &&& pf.commitments@.len() == reps
    &&& pf.keys@.len() == 2 * reps
    &&& forall|j: int| 0 <= j < 2 * reps ==> (#[trigger] pf.keys@[j])@.len() == crate::KEY_LEN
    &&& forall|j: int|
        0 <= j < reps ==> (#[trigger] pf.commitments@[j]).data@.len() == crate::HASH_LEN
    &&& forall|j: int| 0 <= j < reps ==> (#[trigger] pf.claimed_trits@[j]) < 3
}

/// Encodes a proof and its public output into the canonical byte string.
pub fn encode(public_output: &Vec<u32>, proof: &Proof) -> (r: Vec<u8>)
    requires
        encodable(*proof),
    ensures
        r@ == proof_bytes(public_output@, *proof),
{
    let mut buf: Vec<u8> = Vec::new();
    append_words_bytes(&mut buf, public_output);
    let ghost head = buf@;
    let reps = proof.claimed_trits.len();
    let mut j: usize = 0;
    while j < reps
        invariant
            j <= reps,
            reps == proof.claimed_trits@.len(),
            encodable(*proof),
            buf@ == head + reps_bytes(
                proof.party_inputs@,
                proof.views@,
                proof.keys@,
                proof.commitments@,
                j as int,
            ),
        decreases reps - j,
    {
        let nk = proof.keys.len();
        assert(2 * j + 1 < nk);
        append_u64_le(&mut buf, proof.party_inputs[j].len() as u64);
        append_bytes(&mut buf, &proof.party_inputs[j]);
        append_u64_le(&mut buf, proof.views[j].input.len() as u64);
        append_bytes(&mut buf, &proof.views[j].input);
        append_u64_le(&mut buf, proof.views[j].messages.len() as u64);
        append_words_bytes(&mut buf, &proof.views[j].messages);
        append_bytes(&mut buf, &proof.keys[2 * j]);
        append_bytes(&mut buf, &proof.keys[2 * j + 1]);
        append_bytes(&mut buf, &proof.commitments[j].data);
        proof {
            assert(buf@ =~= head + reps_bytes(
                proof.party_inputs@,
                proof.views@,
                proof.keys@,
                proof.commitments@,
                j + 1,
            ));
        }
        j = j + 1;
    }
    append_bytes(&mut buf, &proof.claimed_trits);
    proof {
        assert(buf@ =~= proof_bytes(public_output@, *proof));
    }
    buf
}

// ---------------------------------------------------------------------------
// Decoding.
// ---------------------------------------------------------------------------

/// Reads a 64-bit little-endian length prefix.
fn read_u64(bytes: &Vec<u8>, pos: usize) -> (r: Option<u64>)
    ensures
        r is Some <==> pos + 8 <= bytes@.len(),
        r matches Some(x) ==> u64_to_le(x) == bytes@.subrange(pos as int, pos as int + 8),
{
    let n = bytes.len();
    if pos >= n || n - pos < 8 {
        return None;
    }
    let x = (bytes[pos] as u64) | ((bytes[pos + 1] as u64) << 8) | ((bytes[pos + 2] as u64) << 16)
        | ((bytes[pos + 3] as u64) << 24) | ((bytes[pos + 4] as u64) << 32) | ((bytes[pos
        + 5] as u64) << 40) | ((bytes[pos + 6] as u64) << 48) | ((bytes[pos + 7] as u64) << 56);
    proof {
        lemma_u64_le_inverse(
            bytes@[pos as int],
            bytes@[pos as int + 1],
            bytes@[pos as int + 2],
            bytes@[pos as int + 3],
            bytes@[pos as int + 4],
            bytes@[pos as int + 5],
            bytes@[pos as int + 6],
            bytes@[pos as int + 7],
        );
        assert(u64_to_le(x) =~= bytes@.subrange(pos as int, pos as int + 8));
    }
    Some(x)
}

/// Reads `n` raw bytes.
fn read_chunk(bytes: &Vec<u8>, pos: usize, n: usize) -> (r: Option<Vec<u8>>)
    ensures
        r is Some <==> pos + n <= bytes@.len(),
        r matches Some(v) ==> v@ == bytes@.subrange(pos as int, pos as int + n) && v@.len() == n,
{
    let total = bytes.len();
    if pos > total || total - pos < n {
        return None;
    }
    let mut out: Vec<u8> = Vec::new();
    let mut i: usize = 0;
    while i < n
        invariant
            i <= n,
            pos + n <= bytes@.len(),
            bytes@.len() <= usize::MAX,
            out@ =~= bytes@.subrange(pos as int, pos as int + i),
        decreases n - i,
    {
        out.push(bytes[pos + i]);
        proof {
            assert(out@ =~= bytes@.subrange(pos as int, pos as int + i + 1));
        }
        i = i + 1;
    }
    Some(out)
}

/// Reads `count` words, four bytes each, little-endian.
fn read_words(bytes: &Vec<u8>, pos: usize, count: usize) -> (r: Option<Vec<u32>>)
    ensures
        r is Some <==> pos + 4 * count <= bytes@.len(),
        r matches Some(v) ==> words_to_bytes_val(v@) == bytes@.subrange(
            pos as int,
            pos as int + 4 * count,
        ) && v@.len() == count,
{
    let total = bytes.len();
    if pos > total || (total - pos) / 4 < count {
        proof {
            assert(pos + 4 * count > bytes@.len());
        }
        return None;
    }
    let mut out: Vec<u32> = Vec::new();
    let mut i: usize = 0;
    while i < count
        invariant
            i <= count,
            pos + 4 * count <= bytes@.len(),
            bytes@.len() <= usize::MAX,
            out@.len() == i,
            words_to_bytes_val(out@) =~= bytes@.subrange(pos as int, pos as int + 4 * i),
        decreases count - i,
    {
        let base = pos + 4 * i;
        let w = word_from_le_bytes(bytes[base], bytes[base + 1], bytes[base + 2], bytes[base + 3]);
        let ghost old_out = out@;
        out.push(w);
        proof {
            lemma_word_le_inverse(
                bytes@[base as int],
                bytes@[base as int + 1],
                bytes@[base as int + 2],
                bytes@[base as int + 3],
            );
            assert(word_to_le(w) =~= bytes@.subrange(base as int, base as int + 4));
            assert(out@.drop_last() =~= old_out);
            assert(out@.last() == w);
            assert(words_to_bytes_val(out@) == words_to_bytes_val(old_out) + word_to_le(w));
            assert(words_to_bytes_val(out@) =~= bytes@.subrange(pos as int, pos as int + 4 * (i
                + 1)));
        }
        i = i + 1;
    }
    Some(out)
}

/// A byte string that is exactly the canonical encoding of some output and
/// proof with the given dimensions.
pub open spec fn exact_encoding(
    bytes: Seq<u8>,
    output: Seq<u32>,
    pf: Proof,
    num_reps: int,
    output_words: int,
) -> bool {
    &&& encodable(pf)
    &&& pf.claimed_trits@.len() == num_reps
    &&& output.len() == output_words
    &&& bytes == proof_bytes(output, pf)
}

/// In an exact encoding, the length prefix at the head of repetition `j`
/// can only be the opened input's length.
proof fn lemma_align_pin(bytes: Seq<u8>, output: Seq<u32>, pf: Proof, j: int, ilen64: u64)
    requires
        bytes == proof_bytes(output, pf),
        encodable(pf),
        0 <= j < pf.claimed_trits@.len(),
        bytes.len() <= usize::MAX,
        u64_to_le(ilen64) == bytes.subrange(rep_start(output, pf, j), rep_start(output, pf, j) + 8),
    ensures
        ilen64 == pf.party_inputs@[j]@.len(),
        pf.party_inputs@[j]@.len() <= usize::MAX,
{
    lemma_rep_segment(bytes, output, pf, j);
    lemma_u64_to_le_injective(ilen64, pf.party_inputs@[j]@.len() as u64);
}

/// The second length prefix of repetition `j` can only be the replayed
/// view's input length.
proof fn lemma_align_vin(
    bytes: Seq<u8>,
    output: Seq<u32>,
    pf: Proof,
    j: int,
    ilen64: u64,
    vlen64: u64,
)
    requires
        bytes == proof_bytes(output, pf),
        encodable(pf),
        0 <= j < pf.claimed_trits@.len(),
        bytes.len() <= usize::MAX,
        u64_to_le(ilen64) == bytes.subrange(rep_start(output, pf, j), rep_start(output, pf, j) + 8),
        u64_to_le(vlen64) == bytes.subrange(
            rep_start(output, pf, j) + 8 + ilen64,
            rep_start(output, pf, j) + 8 + ilen64 + 8,
        ),
    ensures
        vlen64 == pf.views@[j].input@.len(),
        pf.views@[j].input@.len() <= usize::MAX,
{
    lemma_rep_segment(bytes, output, pf, j);
    lemma_align_pin(bytes, output, pf, j, ilen64);
    let start = rep_start(output, pf, j);
    let pin = pf.party_inputs@[j]@;
    assert(start + 8 + ilen64 == start + 8 + pin.len());
    assert(u64_to_le(vlen64) == bytes.subrange(
        start + 8 + pin.len(),
        start + 8 + pin.len() + 8,
    ));
    lemma_u64_to_le_injective(vlen64, pf.views@[j].input@.len() as u64);
}

/// The message-count prefix of repetition `j` can only be the replayed
/// view's message count.
proof fn lemma_align_msgs(
    bytes: Seq<u8>,
    output: Seq<u32>,
    pf: Proof,
    j: int,
    ilen64: u64,
    vlen64: u64,
    mcount64: u64,
)
    requires
        bytes == proof_bytes(output, pf),
        encodable(pf),
        0 <= j < pf.claimed_trits@.len(),
        bytes.len() <= usize::MAX,
        u64_to_le(ilen64) == bytes.subrange(rep_start(output, pf, j), rep_start(output, pf, j) + 8),
        u64_to_le(vlen64) == bytes.subrange(
            rep_start(output, pf, j) + 8 + ilen64,
            rep_start(output, pf, j) + 8 + ilen64 + 8,
        ),
        u64_to_le(mcount64) == bytes.subrange(
            rep_start(output, pf, j) + 8 + ilen64 + 8 + vlen64,
            rep_start(output, pf, j) + 8 + ilen64 + 8 + vlen64 + 8,
        ),
    ensures
        mcount64 == pf.views@[j].messages@.len(),
        4 * pf.views@[j].messages@.len() <= usize::MAX,
{
    lemma_rep_segment(bytes, output, pf, j);
    lemma_align_pin(bytes, output, pf, j, ilen64);
    lemma_align_vin(bytes, output, pf, j, ilen64, vlen64);
    let start = rep_start(output, pf, j);
    let pin = pf.party_inputs@[j]@;
    let vin = pf.views@[j].input@;
    assert(start + 8 + ilen64 + 8 + vlen64 == start + 8 + pin.len() + 8 + vin.len());
    assert(u64_to_le(mcount64) == bytes.subrange(
        start + 8 + pin.len() + 8 + vin.len(),
        start + 8 + pin.len() + 8 + vin.len() + 8,
    ));
    lemma_u64_to_le_injective(mcount64, pf.views@[j].messages@.len() as u64);
}

/// An exact encoding always has room for the length prefix at the head of
/// repetition `j`.
proof fn lemma_room_head(bytes: Seq<u8>, output: Seq<u32>, pf: Proof, j: int)
    requires
        bytes == proof_bytes(output, pf),
        encodable(pf),
        0 <= j < pf.claimed_trits@.len(),
    ensures
        rep_start(output, pf, j) + 8 <= bytes.len(),
{
    lemma_rep_segment(bytes, output, pf, j);
}

/// And room for the opened input itself, with its second prefix behind it.
proof fn lemma_room_pin(bytes: Seq<u8>, output: Seq<u32>, pf: Proof, j: int, ilen64: u64)
    requires
        bytes == proof_bytes(output, pf),
        encodable(pf),
        0 <= j < pf.claimed_trits@.len(),
        bytes.len() <= usize::MAX,
        u64_to_le(ilen64) == bytes.subrange(rep_start(output, pf, j), rep_start(output, pf, j) + 8),
    ensures
        ilen64 <= usize::MAX,
        rep_start(output, pf, j) + 8 + ilen64 + 8 <= bytes.len(),
{
    lemma_rep_segment(bytes, output, pf, j);
    lemma_align_pin(bytes, output, pf, j, ilen64);
}

/// Room for the replayed view's input, with the message count behind it.
proof fn lemma_room_vin(
    bytes: Seq<u8>,
    output: Seq<u32>,
    pf: Proof,
    j: int,
    ilen64: u64,
    vlen64: u64,
)
    requires
        bytes == proof_bytes(output, pf),
        encodable(pf),
        0 <= j < pf.claimed_trits@.len(),
        bytes.len() <= usize::MAX,
        u64_to_le(ilen64) == bytes.subrange(rep_start(output, pf, j), rep_start(output, pf, j) + 8),
        u64_to_le(vlen64) == bytes.subrange(
            rep_start(output, pf, j) + 8 + ilen64,
            rep_start(output, pf, j) + 8 + ilen64 + 8,
        ),
    ensures
        vlen64 <= usize::MAX,
        rep_start(output, pf, j) + 8 + ilen64 + 8 + vlen64 + 8 <= bytes.len(),
{
    lemma_rep_segment(bytes, output, pf, j);
    lemma_align_pin(bytes, output, pf, j, ilen64);
    lemma_align_vin(bytes, output, pf, j, ilen64, vlen64);
}

/// Room for the message words, the two keys and the commitment, and where
/// the next repetition begins.
proof fn lemma_room_rest(
    bytes: Seq<u8>,
    output: Seq<u32>,
    pf: Proof,
    j: int,
    ilen64: u64,
    vlen64: u64,
    mcount64: u64,
)
    requires
        bytes == proof_bytes(output, pf),
        encodable(pf),
        0 <= j < pf.claimed_trits@.len(),
        bytes.len() <= usize::MAX,
        u64_to_le(ilen64) == bytes.subrange(rep_start(output, pf, j), rep_start(output, pf, j) + 8),
        u64_to_le(vlen64) == bytes.subrange(
            rep_start(output, pf, j) + 8 + ilen64,
            rep_start(output, pf, j) + 8 + ilen64 + 8,
        ),
        u64_to_le(mcount64) == bytes.subrange(
            rep_start(output, pf, j) + 8 + ilen64 + 8 + vlen64,
            rep_start(output, pf, j) + 8 + ilen64 + 8 + vlen64 + 8,
        ),
    ensures
        4 * mcount64 <= usize::MAX,
        rep_start(output, pf, j) + 8 + ilen64 + 8 + vlen64 + 8 + 4 * mcount64 + 2 * crate::KEY_LEN
            + crate::HASH_LEN <= bytes.len(),
        rep_start(output, pf, j + 1) == rep_start(output, pf, j) + 8 + ilen64 + 8 + vlen64 + 8 + 4
            * mcount64 + 2 * crate::KEY_LEN + crate::HASH_LEN,
{
    lemma_rep_segment(bytes, output, pf, j);
    lemma_align_pin(bytes, output, pf, j, ilen64);
    lemma_align_vin(bytes, output, pf, j, ilen64, vlen64);
    lemma_align_msgs(bytes, output, pf, j, ilen64, vlen64, mcount64);
    assert(4 * (usize::MAX as int / 4) + 3 == usize::MAX as int);
}

/// Decodes the canonical byte string back into a public output and a proof.
/// A short or overlong input, an oversized length prefix, a byte that is no
/// trit, or trailing bytes fail with a serialization error; a truncated
/// commitment names the digest length it wanted.  Whatever it accepts
/// re-encodes to the input bytes, byte-exactly, and an exact encoding of the
/// stated dimensions is always accepted.
#[verifier::rlimit(100)]
pub fn decode(bytes: &Vec<u8>, num_reps: usize, output_words: usize) -> (r: Result<
    (Vec<u32>, Proof),
    Error,
>)
    ensures
        r matches Ok(pair) ==> {
            &&& pair.1.claimed_trits@.len() == num_reps
            &&& encodable(pair.1)
            &&& pair.0@.len() == output_words
            &&& forall|j: int| 0 <= j < num_reps ==> (#[trigger] pair.1.views@[j]).cursor == 0
            &&& bytes@ == proof_bytes(pair.0@, pair.1)
        },
        forall|output: Seq<u32>, pf: Proof|
            #[trigger] exact_encoding(bytes@, output, pf, num_reps as int, output_words as int)
                ==> r is Ok,
{
    let ghost reps_i = num_reps as int;
    let ghost words_i = output_words as int;
    let total = bytes.len();
    if output_words > usize::MAX / 4 {
        proof {
            assert forall|o: Seq<u32>, pf: Proof|
                exact_encoding(bytes@, o, pf, reps_i, words_i) implies false by {
                lemma_words_to_bytes_len(o);
            }
        }
        return Err(Error::SerializationError);
    }
    let output = match read_words(bytes, 0, output_words) {
        Some(v) => v,
        None => {
            proof {
                assert forall|o: Seq<u32>, pf: Proof|
                    exact_encoding(bytes@, o, pf, reps_i, words_i) implies false by {
                    lemma_words_to_bytes_len(o);
                }
            }
            return Err(Error::SerializationError);
        }
    };
    let mut pos: usize = 4 * output_words;
    proof {
        lemma_words_to_bytes_len(output@);
        assert forall|o: Seq<u32>, pf: Proof|
            exact_encoding(bytes@, o, pf, reps_i, words_i) implies pos as int == rep_start(
            o,
            pf,
            0,
        ) by {
            assert(reps_bytes(pf.party_inputs@, pf.views@, pf.keys@, pf.commitments@, 0).len()
                == 0);
        }
    }
    let mut party_inputs: Vec<Vec<u8>> = Vec::new();
    let mut views: Vec<PartyView> = Vec::new();
    let mut keys: Vec<Vec<u8>> = Vec::new();
    let mut commitments: Vec<Commitment> = Vec::new();
    let mut j: usize = 0;
    while j < num_reps
        invariant
            j <= num_reps,
            total == bytes@.len(),
            pos <= total,
            party_inputs@.len() == j,
            views@.len() == j,
            commitments@.len() == j,
            keys@.len() == 2 * j,
            forall|q: int| 0 <= q < 2 * j ==> (#[trigger] keys@[q])@.len() == crate::KEY_LEN,
            forall|q: int|
                0 <= q < j ==> (#[trigger] commitments@[q]).data@.len() == crate::HASH_LEN,
            forall|q: int| 0 <= q < j ==> (#[trigger] views@[q]).cursor == 0,
            words_to_bytes_val(output@) + reps_bytes(
                party_inputs@,
                views@,
                keys@,
                commitments@,
                j as int,
            ) =~= bytes@.subrange(0, pos as int),
            output@.len() == output_words,
            reps_i == num_reps as int,
            words_i == output_words as int,
            forall|o: Seq<u32>, pf: Proof|
                #[trigger] exact_encoding(bytes@, o, pf, reps_i, words_i) ==> pos as int
                    == rep_start(o, pf, j as int),
        decreases num_reps - j,
    {
        let ghost old_pin = party_inputs@;
        let ghost old_views = views@;
        let ghost old_keys = keys@;
        let ghost old_cms = commitments@;
        let ghost pos0 = pos as int;
        let ghost jj = j as int;
        let ilen64 = match read_u64(bytes, pos) {
            Some(x) => x,
            None => {
                proof {
                    assert forall|o: Seq<u32>, pf: Proof|
                        exact_encoding(bytes@, o, pf, reps_i, words_i) implies false by {
                        lemma_room_head(bytes@, o, pf, jj);
                    }
                }
                return Err(Error::SerializationError);
            }
        };
        if ilen64 > usize::MAX as u64 {
            proof {
                assert forall|o: Seq<u32>, pf: Proof|
                    exact_encoding(bytes@, o, pf, reps_i, words_i) implies false by {
                    lemma_room_pin(bytes@, o, pf, jj, ilen64);
                }
            }
            return Err(Error::SerializationError);
        }
        let ilen = ilen64 as usize;
        pos = pos + 8;
        let ghost q1 = pos as int;
        let input = match read_chunk(bytes, pos, ilen) {
            Some(v) => v,
            None => {
                proof {
                    assert forall|o: Seq<u32>, pf: Proof|
                        exact_encoding(bytes@, o, pf, reps_i, words_i) implies false by {
                        lemma_room_pin(bytes@, o, pf, jj, ilen64);
                    }
                }
                return Err(Error::SerializationError);
            }
        };
        pos = pos + ilen;
        let ghost q2 = pos as int;
        let vlen64 = match read_u64(bytes, pos) {
            Some(x) => x,
            None => {
                proof {
                    assert forall|o: Seq<u32>, pf: Proof|
                        exact_encoding(bytes@, o, pf, reps_i, words_i) implies false by {
                        lemma_room_pin(bytes@, o, pf, jj, ilen64);
                    }
                }
                return Err(Error::SerializationError);
            }
        };
        if vlen64 > usize::MAX as u64 {
            proof {
                assert forall|o: Seq<u32>, pf: Proof|
                    exact_encoding(bytes@, o, pf, reps_i, words_i) implies false by {
                    lemma_room_vin(bytes@, o, pf, jj, ilen64, vlen64);
                }
            }
            return Err(Error::SerializationError);
        }
        let vlen = vlen64 as usize;
        pos = pos + 8;
        let ghost q3 = pos as int;
        let vinput = match read_chunk(bytes, pos, vlen) {
            Some(v) => v,
            None => {
                proof {
                    assert forall|o: Seq<u32>, pf: Proof|
                        exact_encoding(bytes@, o, pf, reps_i, words_i) implies false by {
                        lemma_room_vin(bytes@, o, pf, jj, ilen64, vlen64);
                    }
                }
                return Err(Error::SerializationError);
            }
        };
        pos = pos + vlen;
        let ghost q4 = pos as int;
        let mcount64 = match read_u64(bytes, pos) {
            Some(x) => x,
            None => {
                proof {
                    assert forall|o: Seq<u32>, pf: Proof|
                        exact_encoding(bytes@, o, pf, reps_i, words_i) implies false by {
                        lemma_room_vin(bytes@, o, pf, jj, ilen64, vlen64);
                    }
                }
                return Err(Error::SerializationError);
            }
        };
        if mcount64 > (usize::MAX / 4) as u64 {
            proof {
                assert forall|o: Seq<u32>, pf: Proof|
                    exact_encoding(bytes@, o, pf, reps_i, words_i) implies false by {
                    lemma_room_rest(bytes@, o, pf, jj, ilen64, vlen64, mcount64);
                }
            }
            return Err(Error::SerializationError);
        }
        let mcount = mcount64 as usize;
        pos = pos + 8;
        let ghost q5 = pos as int;
        let msgs = match read_words(bytes, pos, mcount) {
            Some(v) => v,
            None => {
                proof {
                    assert forall|o: Seq<u32>, pf: Proof|
                        exact_encoding(bytes@, o, pf, reps_i, words_i) implies false by {
                        lemma_room_rest(bytes@, o, pf, jj, ilen64, vlen64, mcount64);
                    }
                }
                return Err(Error::SerializationError);
            }
        };
        pos = pos + 4 * mcount;
        let ghost q6 = pos as int;
        let key0 = match read_chunk(bytes, pos, crate::KEY_LEN) {
            Some(v) => v,
            None => {
                proof {
                    assert forall|o: Seq<u32>, pf: Proof|
                        exact_encoding(bytes@, o, pf, reps_i, words_i) implies false by {
                        lemma_room_rest(bytes@, o, pf, jj, ilen64, vlen64, mcount64);
                    }
                }
                return Err(Error::SerializationError);
            }
        };
        pos = pos + crate::KEY_LEN;
        let ghost q7 = pos as int;
        let key1 = match read_chunk(bytes, pos, crate::KEY_LEN) {
            Some(v) => v,
            None => {
                proof {
                    assert forall|o: Seq<u32>, pf: Proof|
                        exact_encoding(bytes@, o, pf, reps_i, words_i) implies false by {
                        lemma_room_rest(bytes@, o, pf, jj, ilen64, vlen64, mcount64);
                    }
                }
                return Err(Error::SerializationError);
            }
        };
        pos = pos + crate::KEY_LEN;
        let ghost q8 = pos as int;
        let cm = match read_chunk(bytes, pos, crate::HASH_LEN) {
            Some(v) => v,
            None => {
                proof {
                    assert forall|o: Seq<u32>, pf: Proof|
                        exact_encoding(bytes@, o, pf, reps_i, words_i) implies false by {
                        lemma_room_rest(bytes@, o, pf, jj, ilen64, vlen64, mcount64);
                    }
                }
                return Err(Error::HashLenError(crate::HASH_LEN, total - pos));
            }
        };
        pos = pos + crate::HASH_LEN;
        let ghost q9 = pos as int;
        party_inputs.push(input);
        views.push(PartyView { input: vinput, messages: msgs, cursor: 0 });
        keys.push(key0);
        keys.push(key1);
        commitments.push(Commitment { data: cm });
        proof {
            let v = views@[jj];
            crate::word::lemma_words_to_bytes_len(v.messages@);
            assert(u64_to_le(party_inputs@[jj]@.len() as u64) == bytes@.subrange(pos0, q1));
            assert(party_inputs@[jj]@ == bytes@.subrange(q1, q2));
            assert(u64_to_le(v.input@.len() as u64) == bytes@.subrange(q2, q3));
            assert(v.input@ == bytes@.subrange(q3, q4));
            assert(u64_to_le(v.messages@.len() as u64) == bytes@.subrange(q4, q5));
            assert(words_to_bytes_val(v.messages@) == bytes@.subrange(q5, q6));
            assert(keys@[2 * jj]@ == bytes@.subrange(q6, q7));
            assert(keys@[2 * jj + 1]@ == bytes@.subrange(q7, q8));
            assert(commitments@[jj].data@ == bytes@.subrange(q8, q9));
            assert(view_bytes(v) =~= bytes@.subrange(q2, q6));
            assert(rep_bytes(party_inputs@, views@, keys@, commitments@, jj) =~= bytes@.subrange(
                pos0,
                q9,
            ));
            assert forall|q: int| 0 <= q < j implies rep_bytes(
                party_inputs@,
                views@,
                keys@,
                commitments@,
                q,
            ) == rep_bytes(old_pin, old_views, old_keys, old_cms, q) by {
                assert(party_inputs@[q] == old_pin[q]);
                assert(views@[q] == old_views[q]);
                assert(keys@[2 * q] == old_keys[2 * q]);
                assert(keys@[2 * q + 1] == old_keys[2 * q + 1]);
                assert(commitments@[q] == old_cms[q]);
            }
            lemma_reps_bytes_agree(
                party_inputs@,
                views@,
                keys@,
                commitments@,
                old_pin,
                old_views,
                old_keys,
                old_cms,
                j as int,
            );
            assert(reps_bytes(party_inputs@, views@, keys@, commitments@, jj + 1) == reps_bytes(
                party_inputs@,
                views@,
                keys@,
                commitments@,
                jj,
            ) + rep_bytes(party_inputs@, views@, keys@, commitments@, jj));
            assert(words_to_bytes_val(output@) + reps_bytes(old_pin, old_views, old_keys, old_cms, jj)
                == bytes@.subrange(0, pos0));
            assert(bytes@.subrange(0, q9) =~= bytes@.subrange(0, pos0) + bytes@.subrange(pos0, q9));
            assert(words_to_bytes_val(output@) + reps_bytes(
                party_inputs@,
                views@,
                keys@,
                commitments@,
                j + 1,
            ) =~= bytes@.subrange(0, pos as int));
            assert forall|o: Seq<u32>, pf: Proof|
                exact_encoding(bytes@, o, pf, reps_i, words_i) implies pos as int == rep_start(
                o,
                pf,
                jj + 1,
            ) by {
                lemma_room_rest(bytes@, o, pf, jj, ilen64, vlen64, mcount64);
            }
        }
        j = j + 1;
    }
    proof {
        assert forall|o: Seq<u32>, pf: Proof|
            exact_encoding(bytes@, o, pf, reps_i, words_i) implies bytes@.len() == pos + num_reps
            by {
            lemma_words_to_bytes_len(o);
        }
    }
    let trits = match read_chunk(bytes, pos, num_reps) {
        Some(v) => v,
        None => {
            proof {
                assert forall|o: Seq<u32>, pf: Proof|
                    exact_encoding(bytes@, o, pf, reps_i, words_i) implies false by {
                    lemma_words_to_bytes_len(o);
                }
            }
            return Err(Error::SerializationError);
        }
    };
    proof {
        assert forall|o: Seq<u32>, pf: Proof|
            exact_encoding(bytes@, o, pf, reps_i, words_i) implies trits@ == pf.claimed_trits@ by {
            lemma_words_to_bytes_len(o);
            assert(trits@ =~= pf.claimed_trits@);
        }
    }
    let mut ti: usize = 0;
    while ti < num_reps
        invariant
            ti <= num_reps,
            trits@.len() == num_reps,
            reps_i == num_reps as int,
            words_i == output_words as int,
            forall|o: Seq<u32>, pf: Proof|
                #[trigger] exact_encoding(bytes@, o, pf, reps_i, words_i) ==> trits@
                    == pf.claimed_trits@,
            forall|q: int| 0 <= q < ti ==> (#[trigger] trits@[q]) < 3,
        decreases num_reps - ti,
    {
        if trits[ti] >= 3 {
            proof {
                assert forall|o: Seq<u32>, pf: Proof|
                    exact_encoding(bytes@, o, pf, reps_i, words_i) implies false by {
                    assert(pf.claimed_trits@[ti as int] < 3);
                }
            }
            return Err(Error::SerializationError);
        }
        ti = ti + 1;
    }
    if pos + num_reps != total {
        proof {
            assert forall|o: Seq<u32>, pf: Proof|
                exact_encoding(bytes@, o, pf, reps_i, words_i) implies false by {
                lemma_words_to_bytes_len(o);
            }
        }
        return Err(Error::SerializationError);
    }
    let pf = Proof { party_inputs, commitments, views, keys, claimed_trits: trits };
    proof {
        assert(bytes@ =~= proof_bytes(output@, pf));
    }
    Ok((output, pf))
}

proof fn lemma_reps_bytes_len_mono(
    pin: Seq<Vec<u8>>,
    views: Seq<PartyView>,
    keys: Seq<Vec<u8>>,
    cms: Seq<Commitment>,
    j1: int,
    j2: int,
)
    requires
        j1 <= j2,
    ensures
        reps_bytes(pin, views, keys, cms, j1).len() <= reps_bytes(pin, views, keys, cms, j2).len(),
    decreases j2 - j1,
{
    if j1 < j2 {
        lemma_reps_bytes_len_mono(pin, views, keys, cms, j1, j2 - 1);
    }
}

/// Within the bytes of the first `n` repetitions, repetition `j` occupies
/// exactly the range between the first `j` and the first `j + 1`.
proof fn lemma_reps_decompose(
    pin: Seq<Vec<u8>>,
    views: Seq<PartyView>,
    keys: Seq<Vec<u8>>,
    cms: Seq<Commitment>,
    j: int,
    n: int,
)
    requires
        0 <= j < n,
    ensures
        reps_bytes(pin, views, keys, cms, j + 1).len() == reps_bytes(pin, views, keys, cms, j).len()
            + rep_bytes(pin, views, keys, cms, j).len(),
        reps_bytes(pin, views, keys, cms, j + 1).len() <= reps_bytes(
            pin,
            views,
            keys,
            cms,
            n,
        ).len(),
        reps_bytes(pin, views, keys, cms, n).subrange(
            reps_bytes(pin, views, keys, cms, j).len() as int,
            reps_bytes(pin, views, keys, cms, j + 1).len() as int,
        ) == rep_bytes(pin, views, keys, cms, j),
    decreases n,
{
    if j + 1 == n {
        assert(reps_bytes(pin, views, keys, cms, n).subrange(
            reps_bytes(pin, views, keys, cms, j).len() as int,
            reps_bytes(pin, views, keys, cms, j + 1).len() as int,
        ) =~= rep_bytes(pin, views, keys, cms, j));
    } else {
        lemma_reps_decompose(pin, views, keys, cms, j, n - 1);
        lemma_reps_bytes_len_mono(pin, views, keys, cms, j + 1, n - 1);
        assert(reps_bytes(pin, views, keys, cms, n).subrange(
            reps_bytes(pin, views, keys, cms, j).len() as int,
            reps_bytes(pin, views, keys, cms, j + 1).len() as int,
        ) =~= reps_bytes(pin, views, keys, cms, n - 1).subrange(
            reps_bytes(pin, views, keys, cms, j).len() as int,
            reps_bytes(pin, views, keys, cms, j + 1).len() as int,
        ));
    }
}

/// Where repetition `j` of an exact encoding begins.
pub open spec fn rep_start(output: Seq<u32>, pf: Proof, j: int) -> int {
    4 * output.len() + reps_bytes(
        pf.party_inputs@,
        pf.views@,
        pf.keys@,
        pf.commitments@,
        j,
    ).len() as int
}

/// What the bytes of an exact encoding hold at repetition `j`: every
/// segment of the repetition, at its computed offset.
#[verifier::rlimit(100)]
proof fn lemma_rep_segment(bytes: Seq<u8>, output: Seq<u32>, pf: Proof, j: int)
    requires
        bytes == proof_bytes(output, pf),
        encodable(pf),
        0 <= j < pf.claimed_trits@.len(),
    ensures
        ({
            let start = rep_start(output, pf, j);
            let pin = pf.party_inputs@[j]@;
            let v = pf.views@[j];
            let p1 = start + 8;
            let p2 = p1 + pin.len();
            let p3 = p2 + 8;
            let p4 = p3 + v.input@.len();
            let p5 = p4 + 8;
            let p6 = p5 + 4 * v.messages@.len();
            let p7 = p6 + crate::KEY_LEN;
            let p8 = p7 + crate::KEY_LEN;
            let p9 = p8 + crate::HASH_LEN;
            &&& start >= 4 * output.len()
            &&& p9 <= bytes.len()
            &&& bytes.subrange(start, p1) == u64_to_le(pin.len() as u64)
            &&& bytes.subrange(p1, p2) == pin
            &&& bytes.subrange(p2, p3) == u64_to_le(v.input@.len() as u64)
            &&& bytes.subrange(p3, p4) == v.input@
            &&& bytes.subrange(p4, p5) == u64_to_le(v.messages@.len() as u64)
            &&& bytes.subrange(p5, p6) == words_to_bytes_val(v.messages@)
            &&& bytes.subrange(p6, p7) == pf.keys@[2 * j]@
            &&& bytes.subrange(p7, p8) == pf.keys@[2 * j + 1]@
            &&& bytes.subrange(p8, p9) == pf.commitments@[j].data@
            &&& rep_start(output, pf, j + 1) == p9
        }),
{
    let pin_s = pf.party_inputs@;
    let vws = pf.views@;
    let ks = pf.keys@;
    let cs = pf.commitments@;
    let n = pf.claimed_trits@.len() as int;
    let pin = pin_s[j]@;
    let v = vws[j];
    lemma_reps_decompose(pin_s, vws, ks, cs, j, n);
    lemma_reps_bytes_len_mono(pin_s, vws, ks, cs, j + 1, n);
    lemma_words_to_bytes_len(output);
    lemma_words_to_bytes_len(v.messages@);
    let off = 4 * output.len();
    let a = reps_bytes(pin_s, vws, ks, cs, j).len() as int;
    let b = reps_bytes(pin_s, vws, ks, cs, j + 1).len() as int;
    let rb = rep_bytes(pin_s, vws, ks, cs, j);
    assert(bytes.len() == off + reps_bytes(pin_s, vws, ks, cs, n).len() + n);
    assert(bytes.subrange(off + a, off + b) =~= reps_bytes(pin_s, vws, ks, cs, n).subrange(a, b));
    let start = rep_start(output, pf, j);
    assert(start == off + a);
    let p1 = start + 8;
    let p2 = p1 + pin.len();
    let p3 = p2 + 8;
    let p4 = p3 + v.input@.len();
    let p5 = p4 + 8;
    let p6 = p5 + 4 * v.messages@.len();
    let p7 = p6 + crate::KEY_LEN;
    let p8 = p7 + crate::KEY_LEN;
    let p9 = p8 + crate::HASH_LEN;
    assert(rb.len() == p9 - start);
    assert(bytes.subrange(start, p1) =~= rb.subrange(0, 8));
    assert(rb.subrange(0, 8) =~= u64_to_le(pin.len() as u64));
    assert(bytes.subrange(p1, p2) =~= rb.subrange(8, 8 + pin.len() as int));
    assert(rb.subrange(8, 8 + pin.len() as int) =~= pin);
    assert(bytes.subrange(p2, p3) =~= rb.subrange(p2 - start, p3 - start));
    assert(rb.subrange(p2 - start, p3 - start) =~= u64_to_le(v.input@.len() as u64));
    assert(bytes.subrange(p3, p4) =~= rb.subrange(p3 - start, p4 - start));
    assert(rb.subrange(p3 - start, p4 - start) =~= v.input@);
    assert(bytes.subrange(p4, p5) =~= rb.subrange(p4 - start, p5 - start));
    assert(rb.subrange(p4 - start, p5 - start) =~= u64_to_le(v.messages@.len() as u64));
    assert(bytes.subrange(p5, p6) =~= rb.subrange(p5 - start, p6 - start));
    assert(rb.subrange(p5 - start, p6 - start) =~= words_to_bytes_val(v.messages@));
    assert(bytes.subrange(p6, p7) =~= rb.subrange(p6 - start, p7 - start));
    assert(rb.subrange(p6 - start, p7 - start) =~= ks[2 * j]@);
    assert(bytes.subrange(p7, p8) =~= rb.subrange(p7 - start, p8 - start));
    assert(rb.subrange(p7 - start, p8 - start) =~= ks[2 * j + 1]@);
    assert(bytes.subrange(p8, p9) =~= rb.subrange(p8 - start, p9 - start));
    assert(rb.subrange(p8 - start, p9 - start) =~= cs[j].data@);
}

/// Two repetition lists whose first `j` entries agree encode to the same
/// bytes.
proof fn lemma_reps_bytes_agree(
    pin1: Seq<Vec<u8>>,
    views1: Seq<PartyView>,
    keys1: Seq<Vec<u8>>,
    cms1: Seq<Commitment>,
    pin2: Seq<Vec<u8>>,
    views2: Seq<PartyView>,
    keys2: Seq<Vec<u8>>,
    cms2: Seq<Commitment>,
    j: int,
)
    requires
        forall|q: int|
            0 <= q < j ==> rep_bytes(pin1, views1, keys1, cms1, q) == rep_bytes(
                pin2,
                views2,
                keys2,
                cms2,
                q,
            ),
    ensures
        reps_bytes(pin1, views1, keys1, cms1, j) == reps_bytes(pin2, views2, keys2, cms2, j),
    decreases j,
{
    if j > 0 {
        lemma_reps_bytes_agree(pin1, views1, keys1, cms1, pin2, views2, keys2, cms2, j - 1);
    }
}

} // verus!
