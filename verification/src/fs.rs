use vstd::prelude::*;

verus! {

use crate::data_structures::{Commitment, PublicInput};
use crate::error::Error;
use crate::hash::{shake128, shake128_of};
use crate::word::{append_bytes, append_u64_le, copy_bytes, u64_to_le};

// ---------------------------------------------------------------------------
// The Fiat-Shamir oracle.
//
// The oracle is a transcript of bytes: a domain-separation seed, then the
// canonical encoding of the public input, then the commitment sequence.  The
// challenge trits are read from the SHAKE128 output on that transcript by
// rejection sampling, so they are a pure function of the transcript.
// ---------------------------------------------------------------------------

/// The trits a byte string yields: bytes of the top four values are
/// discarded, every other byte maps to its value mod 3.
pub open spec fn trits_of(bytes: Seq<u8>) -> Seq<u8>
    decreases bytes.len(),
{
    if bytes.len() == 0 {
        Seq::empty()
    } else {
        let prev = trits_of(bytes.drop_last());
        if bytes.last() < 252 {
            prev.push((bytes.last() % 3) as u8)
        } else {
            prev
        }
    }
}

/// How many XOF bytes are drawn for `count` trits.  At least 252 of every
/// 256 byte values survive rejection, so this budget fails only with
/// negligible probability.
pub open spec fn sample_budget(count: int) -> int {
    2 * count + 64
}

/// The challenge of a transcript: `count` trits if the byte budget yields
/// that many, nothing otherwise.
pub open spec fn sampled_trits(transcript: Seq<u8>, count: int) -> Option<Seq<u8>> {
    let t = trits_of(shake128_of(transcript, sample_budget(count)));
    if t.len() >= count {
        Option::Some(t.take(count))
    } else {
        Option::None
    }
}

/// The byte string of a commitment list, each digest length-prefixed.
pub open spec fn commitments_bytes(s: Seq<Seq<u8>>) -> Seq<u8>
    decreases s.len(),
{
    if s.len() == 0 {
        Seq::empty()
    } else {
        commitments_bytes(s.drop_last()) + u64_to_le(s.last().len() as u64) + s.last()
    }
}

pub proof fn lemma_trits_bound(bytes: Seq<u8>)
    ensures
        forall|i: int| 0 <= i < trits_of(bytes).len() ==> trits_of(bytes)[i] < 3,
    decreases bytes.len(),
{
    if bytes.len() > 0 {
        lemma_trits_bound(bytes.drop_last());
        let prev = trits_of(bytes.drop_last());
        assert forall|i: int| 0 <= i < trits_of(bytes).len() implies trits_of(bytes)[i] < 3 by {
            if bytes.last() < 252 {
                assert(trits_of(bytes) == prev.push((bytes.last() % 3) as u8));
                if i < prev.len() {
                    assert(trits_of(bytes)[i] == prev[i]);
                }
            } else {
                assert(trits_of(bytes) == prev);
            }
        }
    }
}

/// The deterministic challenge oracle of the sigma protocol.
#[derive(Debug)]
pub struct SigmaFS {
    pub data: Vec<u8>,
}

impl SigmaFS {
    /// An oracle holding only the domain-separation seed.
    pub fn initialize(seed: &Vec<u8>) -> (fs: SigmaFS)
        ensures
            fs.data@ == seed@,
    {
        SigmaFS { data: copy_bytes(seed) }
    }

    /// Absorbs the canonical encoding of the public input.
    pub fn digest_public_data(&mut self, pi: &PublicInput) -> (r: Result<(), Error>)
        ensures
            r is Ok,
            final(self).data@ == old(self).data@ + pi.spec_bytes(),
    {
        let enc = pi.encode();
        append_bytes(&mut self.data, &enc);
        Ok(())
    }

    /// Absorbs the commitment sequence, each digest length-prefixed.
    pub fn digest_prover_message(&mut self, commitments: &Vec<Commitment>) -> (r: Result<
        (),
        Error,
    >)
        ensures
            r is Ok,
            final(self).data@ == old(self).data@ + commitments_bytes(
                commitments@.map_values(|cm: Commitment| cm.data@),
            ),
    {
        let ghost cms = commitments@.map_values(|cm: Commitment| cm.data@);
        let ghost prefix = self.data@;
        let mut i: usize = 0;
        while i < commitments.len()
            invariant
                i <= commitments@.len(),
                cms == commitments@.map_values(|cm: Commitment| cm.data@),
                self.data@ == prefix + commitments_bytes(cms.take(i as int)),
            decreases commitments@.len() - i,
        {
            append_u64_le(&mut self.data, commitments[i].data.len() as u64);
            append_bytes(&mut self.data, &commitments[i].data);
            proof {
                assert(cms.take(i + 1).drop_last() =~= cms.take(i as int));
                assert(cms.take(i + 1).last() == commitments@[i as int].data@);
                assert(self.data@ =~= prefix + commitments_bytes(cms.take(i + 1)));
            }
            i = i + 1;
        }
        proof {
            assert(cms.take(cms.len() as int) =~= cms);
        }
        Ok(())
    }

    /// Samples `count` challenge trits, uniformly over {0,1,2}, by rejecting
    /// XOF bytes of the top four values and reducing the rest mod 3.
    pub fn sample_trits(&self, count: usize) -> (r: Result<Vec<u8>, Error>)
        requires
            count <= (usize::MAX - 64) / 2,
        ensures
            r is Ok <==> sampled_trits(self.data@, count as int) is Some,
            r matches Ok(t) ==> sampled_trits(self.data@, count as int) == Option::Some(t@)
                && t@.len() == count && (forall|i: int| 0 <= i < t@.len() ==> (#[trigger] t@[i])
                < 3),
            r is Err ==> r == Err::<Vec<u8>, Error>(Error::SerializationError),
    {
        let budget = 2 * count + 64;
        let bytes = shake128(&self.data, budget);
        let mut t: Vec<u8> = Vec::new();
        let mut i: usize = 0;
        while i < bytes.len()
            invariant
                i <= bytes@.len(),
                t@ == trits_of(bytes@.take(i as int)),
            decreases bytes@.len() - i,
        {
            let b = bytes[i];
            if b < 252 {
                t.push(b % 3);
            }
            proof {
                assert(bytes@.take(i + 1).drop_last() =~= bytes@.take(i as int));
                assert(bytes@.take(i + 1).last() == bytes@[i as int]);
            }
            i = i + 1;
        }
        proof {
            assert(bytes@.take(bytes@.len() as int) =~= bytes@);
        }
        if t.len() >= count {
            t.truncate(count);
            proof {
                lemma_trits_bound(bytes@);
                assert(t@ =~= trits_of(shake128_of(self.data@, sample_budget(count as int))).take(
                    count as int,
                ));
            }
            Ok(t)
        } else {
            Err(Error::SerializationError)
        }
    }
}

} // verus!
