use vstd::prelude::*;

verus! {

use crate::error::Error;
use crate::hash::{sha3_256, sha3_256_of};
use crate::view::PartyView;
use crate::word::{append_bytes, append_u64_le, append_words_bytes, u64_to_le, words_to_bytes_val};

// ---------------------------------------------------------------------------
// Commitments.
// ---------------------------------------------------------------------------

/// What a commitment binds: the party's key, its input share, and the bytes
/// of its message log, in that order.  The view's cursor is bookkeeping only
/// and stays out of the preimage.
pub open spec fn commit_value(key: Seq<u8>, input: Seq<u8>, msgs: Seq<u32>) -> Seq<u8> {
    sha3_256_of(key + input + words_to_bytes_val(msgs))
}

/// A keyed hash binding one party's key and view.
#[derive(Debug)]
pub struct Commitment {
    pub data: Vec<u8>,
}

/// One party's opened execution: the key that seeded its tape and the view
/// it produced.
#[derive(Debug)]
pub struct PartyExecution {
    pub key: Vec<u8>,
    pub view: PartyView,
}

impl PartyExecution {
    /// Commits to the pair under the keyed hash.
    pub fn commit(&self) -> (r: Result<Commitment, Error>)
        ensures
            r is Ok,
            r matches Ok(cm) ==> cm.data@ == commit_value(
                self.key@,
                self.view.input@,
                self.view.messages@,
            ) && cm.data@.len() == crate::HASH_LEN,
    {
        let mut buf: Vec<u8> = Vec::new();
        append_bytes(&mut buf, &self.key);
        append_bytes(&mut buf, &self.view.input);
        append_words_bytes(&mut buf, &self.view.messages);
        proof {
            assert(buf@ =~= self.key@ + self.view.input@ + words_to_bytes_val(
                self.view.messages@,
            ));
        }
        let digest = sha3_256(&buf);
        Ok(Commitment { data: digest })
    }
}

// ---------------------------------------------------------------------------
// Public input of the Fiat-Shamir oracle.
// ---------------------------------------------------------------------------

/// The byte string of a list of party output shares, each length-prefixed.
pub open spec fn outputs_bytes(s: Seq<Seq<u32>>) -> Seq<u8>
    decreases s.len(),
{
    if s.len() == 0 {
        Seq::empty()
    } else {
        outputs_bytes(s.drop_last()) + u64_to_le(s.last().len() as u64) + words_to_bytes_val(
            s.last(),
        )
    }
}

/// The canonical byte string of the public input.
pub open spec fn public_input_bytes(
    hash_len: int,
    security_param: int,
    public_output: Seq<u32>,
    outputs: Seq<Seq<u32>>,
) -> Seq<u8> {
    u64_to_le(hash_len as u64) + u64_to_le(security_param as u64) + u64_to_le(
        public_output.len() as u64,
    ) + words_to_bytes_val(public_output) + u64_to_le(outputs.len() as u64) + outputs_bytes(outputs)
}

/// Everything the verifier agrees on before the challenge: the digest and
/// soundness parameters, the claimed circuit output, and all party output
/// shares in repetition order.
#[derive(Debug)]
pub struct PublicInput {
    pub hash_len: usize,
    pub security_param: usize,
    pub public_output: Vec<u32>,
    pub outputs: Vec<Vec<u32>>,
}

impl PublicInput {
    pub open spec fn spec_bytes(self) -> Seq<u8> {
        public_input_bytes(
            self.hash_len as int,
            self.security_param as int,
            self.public_output@,
            self.outputs@.map_values(|v: Vec<u32>| v@),
        )
    }

    /// The canonical encoding that the oracle absorbs.
    pub fn encode(&self) -> (r: Vec<u8>)
        ensures
            r@ == self.spec_bytes(),
    {
        let ghost outs = self.outputs@.map_values(|v: Vec<u32>| v@);
        let mut buf: Vec<u8> = Vec::new();
        append_u64_le(&mut buf, self.hash_len as u64);
        append_u64_le(&mut buf, self.security_param as u64);
        append_u64_le(&mut buf, self.public_output.len() as u64);
        append_words_bytes(&mut buf, &self.public_output);
        append_u64_le(&mut buf, self.outputs.len() as u64);
        let ghost prefix = buf@;
        let mut i: usize = 0;
        while i < self.outputs.len()
            invariant
                i <= self.outputs@.len(),
                outs == self.outputs@.map_values(|v: Vec<u32>| v@),
                buf@ == prefix + outputs_bytes(outs.take(i as int)),
            decreases self.outputs@.len() - i,
        {
            append_u64_le(&mut buf, self.outputs[i].len() as u64);
            append_words_bytes(&mut buf, &self.outputs[i]);
            proof {
                assert(outs.take(i + 1).drop_last() =~= outs.take(i as int));
                assert(outs.take(i + 1).last() == self.outputs@[i as int]@);
                assert(buf@ =~= prefix + outputs_bytes(outs.take(i + 1)));
            }
            i = i + 1;
        }
        proof {
            assert(outs.take(outs.len() as int) =~= outs);
            assert(buf@ =~= self.spec_bytes());
        }
        buf
    }
}

// ---------------------------------------------------------------------------
// The proof container.
// ---------------------------------------------------------------------------

/// A non-interactive proof: for each repetition, the opened party's input
/// bytes, the next party's view, the two opened keys, the closing party's
/// commitment, and the claimed challenge trit.
#[derive(Debug)]
pub struct Proof {
    pub party_inputs: Vec<Vec<u8>>,
    pub commitments: Vec<Commitment>,
    pub views: Vec<PartyView>,
    pub keys: Vec<Vec<u8>>,
    pub claimed_trits: Vec<u8>,
}

} // verus!
