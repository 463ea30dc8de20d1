use vstd::prelude::*;

verus! {

use crate::circuit::{Circuit, replay_out_of, resim_msgs};
use crate::data_structures::{Commitment, PartyExecution, Proof, PublicInput, commit_value,
    public_input_bytes};
use crate::error::Error;
use crate::fs::{SigmaFS, commitments_bytes, sampled_trits};
use crate::party::Party;
use crate::tape::{Tape, tape_words_of};
use crate::word::{bytes_to_words, copy_bytes, copy_words, xor_words_val};

// ---------------------------------------------------------------------------
// What the verifier reconstructs from one opened repetition.
// ---------------------------------------------------------------------------

/// The shape the opened data of repetition `j` must have.
pub open spec fn rep_shapes_ok(c: Circuit, pf: Proof, j: int) -> bool {
    &&& pf.party_inputs@[j]@.len() == c.num_input_words * 4
    &&& pf.views@[j].input@.len() == c.num_input_words * 4
    &&& pf.views@[j].messages@.len() == c.spec_num_mul_gates()
}

/// The messages the opened party of repetition `j` recomputes.
pub open spec fn rep_msgs_a(c: Circuit, pf: Proof, j: int) -> Seq<u32> {
    resim_msgs(
        c,
        bytes_to_words(pf.party_inputs@[j]@),
        tape_words_of(pf.keys@[2 * j]@, c.spec_num_mul_gates()),
        bytes_to_words(pf.views@[j].input@),
        tape_words_of(pf.keys@[2 * j + 1]@, c.spec_num_mul_gates()),
        pf.views@[j].messages@,
        c.gates@.len() as int,
    )
}

/// The opened party's reconstructed output share.
pub open spec fn rep_out_a(c: Circuit, pf: Proof, j: int) -> Seq<u32> {
    replay_out_of(c, pf.party_inputs@[j]@, rep_msgs_a(c, pf, j))
}

/// The next party's reconstructed output share.
pub open spec fn rep_out_b(c: Circuit, pf: Proof, j: int) -> Seq<u32> {
    replay_out_of(c, pf.views@[j].input@, pf.views@[j].messages@)
}

/// The third party's output share, derived from the other two and the
/// claimed public output.
pub open spec fn rep_out_c(c: Circuit, pf: Proof, y: Seq<u32>, j: int) -> Seq<u32> {
    xor_words_val(xor_words_val(rep_out_a(c, pf, j), rep_out_b(c, pf, j)), y)
}

/// The opened party's recomputed commitment.
pub open spec fn rep_cm_a(c: Circuit, pf: Proof, j: int) -> Seq<u8> {
    commit_value(pf.keys@[2 * j]@, pf.party_inputs@[j]@, rep_msgs_a(c, pf, j))
}

/// The next party's recomputed commitment.
pub open spec fn rep_cm_b(c: Circuit, pf: Proof, j: int) -> Seq<u8> {
    commit_value(pf.keys@[2 * j + 1]@, pf.views@[j].input@, pf.views@[j].messages@)
}

/// The three output shares of repetition `j`, rotated into party order by
/// the claimed trit.
pub open spec fn rep_outputs(c: Circuit, pf: Proof, y: Seq<u32>, j: int) -> Seq<Seq<u32>> {
    let t = pf.claimed_trits@[j];
    let oa = rep_out_a(c, pf, j);
    let ob = rep_out_b(c, pf, j);
    let oc = rep_out_c(c, pf, y, j);
    if t == 0 {
        seq![oa, ob, oc]
    } else if t == 1 {
        seq![oc, oa, ob]
    } else {
        seq![ob, oc, oa]
    }
}

/// The three commitments of repetition `j`, rotated into party order by the
/// claimed trit.
pub open spec fn rep_cms(c: Circuit, pf: Proof, j: int) -> Seq<Seq<u8>> {
    let t = pf.claimed_trits@[j];
    let ca = rep_cm_a(c, pf, j);
    let cb = rep_cm_b(c, pf, j);
    let cc = pf.commitments@[j].data@;
    if t == 0 {
        seq![ca, cb, cc]
    } else if t == 1 {
        seq![cc, ca, cb]
    } else {
        seq![cb, cc, ca]
    }
}

/// All reconstructed output shares of the first `j` repetitions, flattened
/// in repetition-ascending, then party-ascending order.
pub open spec fn all_outputs(c: Circuit, pf: Proof, y: Seq<u32>, j: int) -> Seq<Seq<u32>>
    decreases j,
{
    if j <= 0 {
        Seq::empty()
    } else {
        all_outputs(c, pf, y, j - 1) + rep_outputs(c, pf, y, j - 1)
    }
}

/// All reconstructed commitments of the first `j` repetitions, flattened in
/// the same order.
pub open spec fn all_cms(c: Circuit, pf: Proof, j: int) -> Seq<Seq<u8>>
    decreases j,
{
    if j <= 0 {
        Seq::empty()
    } else {
        all_cms(c, pf, j - 1) + rep_cms(c, pf, j - 1)
    }
}

/// The transcript the verifier re-derives the challenge from.
pub open spec fn verify_transcript(
    c: Circuit,
    pf: Proof,
    y: Seq<u32>,
    sigma: int,
    reps: int,
) -> Seq<u8> {
    seq![0u8] + public_input_bytes(
        crate::HASH_LEN as int,
        sigma,
        y,
        all_outputs(c, pf, y, reps),
    ) + commitments_bytes(all_cms(c, pf, reps))
}

/// Acceptance: every opened repetition has the right shape, and the trits
/// sampled from the reconstructed transcript are exactly the claimed ones.
pub open spec fn verify_accepts(c: Circuit, pf: Proof, y: Seq<u32>, sigma: int) -> bool {
    let reps = pf.claimed_trits@.len() as int;
    &&& forall|j: int| 0 <= j < reps ==> rep_shapes_ok(c, pf, j)
    &&& sampled_trits(verify_transcript(c, pf, y, sigma, reps), reps) == Option::Some(
        pf.claimed_trits@,
    )
}

// ---------------------------------------------------------------------------
// The verifier.
// ---------------------------------------------------------------------------

pub struct Verifier {}

impl Verifier {
    /// The absent party's output share is the one that makes the three XOR
    /// to the claimed public output.
    pub fn derive_third_output(
        public_output: &Vec<u32>,
        circuit: &Circuit,
        circuit_simulation_output: (&Vec<u32>, &Vec<u32>),
    ) -> (r: Vec<u32>)
        requires
            public_output@.len() == circuit.spec_party_output_len(),
            circuit_simulation_output.0@.len() == circuit.spec_party_output_len(),
            circuit_simulation_output.1@.len() == circuit.spec_party_output_len(),
        ensures
            r@ == xor_words_val(
                xor_words_val(circuit_simulation_output.0@, circuit_simulation_output.1@),
                public_output@,
            ),
    {
        let (o1, o2) = circuit_simulation_output;
        let mut derived_output: Vec<u32> = Vec::new();
        let mut i: usize = 0;
        let len = o1.len();
        while i < len
            invariant
                i <= len,
                len == o1@.len(),
                o1@.len() == o2@.len(),
                o2@.len() == public_output@.len(),
                derived_output@ =~= xor_words_val(xor_words_val(o1@, o2@), public_output@).take(
                    i as int,
                ),
            decreases len - i,
        {
            derived_output.push(o1[i] ^ o2[i] ^ public_output[i]);
            i = i + 1;
        }
        proof {
            assert(derived_output@ =~= xor_words_val(xor_words_val(o1@, o2@), public_output@));
        }
        derived_output
    }

    /// Re-simulates the two opened parties of every repetition, re-derives
    /// the challenge from the reconstructed transcript, and accepts exactly
    /// when it matches the claimed trits.
    pub fn verify(
        proof: &Proof,
        circuit: &Circuit,
        public_output: &Vec<u32>,
        sigma: usize,
    ) -> (r: Result<(), Error>)
        requires
            circuit.wf(),
            1 <= sigma <= 100,
            circuit.gates@.len() <= usize::MAX as int / 4,
            public_output@.len() == circuit.spec_party_output_len(),
            crate::is_num_reps(proof.claimed_trits@.len() as nat, sigma as nat),
            proof.party_inputs@.len() == proof.claimed_trits@.len(),
            proof.commitments@.len() == proof.claimed_trits@.len(),
            proof.views@.len() == proof.claimed_trits@.len(),
            proof.keys@.len() == 2 * proof.claimed_trits@.len(),
            forall|j: int|
                0 <= j < proof.claimed_trits@.len() ==> (#[trigger] proof.claimed_trits@[j]) < 3,
        ensures
            r is Ok <==> verify_accepts(*circuit, *proof, public_output@, sigma as int),
            r == Err::<(), Error>(Error::OutputReconstructionError) <==> exists|j: int|
                0 <= j < proof.claimed_trits@.len() && !rep_shapes_ok(*circuit, *proof, j),
            r is Err && r != Err::<(), Error>(Error::OutputReconstructionError) ==> {
                let reps = proof.claimed_trits@.len() as int;
                let sampled = sampled_trits(
                    verify_transcript(*circuit, *proof, public_output@, sigma as int, reps),
                    reps,
                );
                &&& (r == Err::<(), Error>(Error::SerializationError) <==> sampled is None)
                &&& (r == Err::<(), Error>(Error::FiatShamirOutputsMatchingError) <==> sampled
                    is Some && sampled != Option::Some(proof.claimed_trits@))
            },
    {
        let ghost c = *circuit;
        let ghost pf = *proof;
        let ghost y = public_output@;
        let num_of_repetitions = crate::num_of_repetitions_given_desired_security(sigma);
        proof {
            crate::lemma_num_reps_unique(
                num_of_repetitions as nat,
                proof.claimed_trits@.len() as nat,
                sigma as nat,
            );
        }
        let m = circuit.num_of_mul_gates();
        let mut all_commitments: Vec<Commitment> = Vec::new();
        let mut outputs: Vec<Vec<u32>> = Vec::new();
        let mut repetition: usize = 0;
        while repetition < num_of_repetitions
            invariant
                c == *circuit,
                pf == *proof,
                y == public_output@,
                circuit.wf(),
                circuit.gates@.len() <= usize::MAX as int / 4,
                public_output@.len() == circuit.spec_party_output_len(),
                m == circuit.spec_num_mul_gates(),
                m <= circuit.gates@.len(),
                repetition <= num_of_repetitions,
                num_of_repetitions == proof.claimed_trits@.len(),
                proof.party_inputs@.len() == proof.claimed_trits@.len(),
                proof.commitments@.len() == proof.claimed_trits@.len(),
                proof.views@.len() == proof.claimed_trits@.len(),
                proof.keys@.len() == 2 * proof.claimed_trits@.len(),
                forall|j: int| 0 <= j < repetition ==> rep_shapes_ok(c, pf, j),
                outputs@.map_values(|v: Vec<u32>| v@) == all_outputs(c, pf, y, repetition as int),
                all_commitments@.map_values(|cm: Commitment| cm.data@) == all_cms(
                    c,
                    pf,
                    repetition as int,
                ),
            decreases num_of_repetitions - repetition,
        {
            let ghost ji = repetition as int;
            let nk = proof.keys.len();
            assert(2 * repetition + 1 < nk);
            let share = copy_bytes(&proof.party_inputs[repetition]);
            let mut p = Party::new(share, &proof.keys[2 * repetition], m);
            let tape_b = Tape::from_key(&proof.keys[2 * repetition + 1], m);
            let mut p_next = Party::from_tape_and_view(proof.views[repetition].replay_copy(), tape_b);
            let sim = circuit.simulate_two_parties(&mut p, &mut p_next);
            let (o0, o1) = match sim {
                Ok(pair) => pair,
                Err(_e) => {
                    proof {
                        assert(!rep_shapes_ok(c, pf, ji));
                        assert(!verify_accepts(c, pf, y, sigma as int));
                    }
                    return Err(Error::OutputReconstructionError);
                }
            };
            let o2 = Self::derive_third_output(public_output, circuit, (&o0, &o1));
            let pi0_execution = PartyExecution {
                key: copy_bytes(&proof.keys[2 * repetition]),
                view: p.view,
            };
            let cm_i0 = match pi0_execution.commit() {
                Ok(cm) => cm,
                Err(e) => {
                    return Err(e);
                }
            };
            let pi1_execution = PartyExecution {
                key: copy_bytes(&proof.keys[2 * repetition + 1]),
                view: p_next.view,
            };
            let cm_i1 = match pi1_execution.commit() {
                Ok(cm) => cm,
                Err(e) => {
                    return Err(e);
                }
            };
            let cm_i2 = Commitment { data: copy_bytes(&proof.commitments[repetition].data) };
            let ghost old_outs = outputs@.map_values(|v: Vec<u32>| v@);
            let ghost old_cms = all_commitments@.map_values(|cm: Commitment| cm.data@);
            let party_index = proof.claimed_trits[repetition];
            if party_index == 0 {
                all_commitments.push(cm_i0);
                all_commitments.push(cm_i1);
                all_commitments.push(cm_i2);
                outputs.push(o0);
                outputs.push(o1);
                outputs.push(o2);
            } else if party_index == 1 {
                all_commitments.push(cm_i2);
                all_commitments.push(cm_i0);
                all_commitments.push(cm_i1);
                outputs.push(o2);
                outputs.push(o0);
                outputs.push(o1);
            } else {
                all_commitments.push(cm_i1);
                all_commitments.push(cm_i2);
                all_commitments.push(cm_i0);
                outputs.push(o1);
                outputs.push(o2);
                outputs.push(o0);
            }
            proof {
                assert(rep_shapes_ok(c, pf, ji));
                assert(outputs@.map_values(|v: Vec<u32>| v@) =~= old_outs + rep_outputs(
                    c,
                    pf,
                    y,
                    ji,
                ));
                assert(all_commitments@.map_values(|cm: Commitment| cm.data@) =~= old_cms + rep_cms(
                    c,
                    pf,
                    ji,
                ));
            }
            repetition = repetition + 1;
        }
        let pi = PublicInput {
            hash_len: crate::HASH_LEN,
            security_param: sigma,
            public_output: copy_words(public_output),
            outputs,
        };
        let mut seed: Vec<u8> = Vec::new();
        seed.push(0u8);
        let mut fs_oracle = SigmaFS::initialize(&seed);
        let _absorbed_pi = fs_oracle.digest_public_data(&pi);
        let _absorbed_cms = fs_oracle.digest_prover_message(&all_commitments);
        proof {
            assert(seq![0u8] =~= Seq::<u8>::empty().push(0u8));
            assert(fs_oracle.data@ =~= verify_transcript(
                c,
                pf,
                y,
                sigma as int,
                num_of_repetitions as int,
            ));
        }
        let opening_indices = match fs_oracle.sample_trits(num_of_repetitions) {
            Ok(t) => t,
            Err(e) => {
                return Err(e);
            }
        };
        let mut j: usize = 0;
        while j < num_of_repetitions
            invariant
                j <= num_of_repetitions,
                num_of_repetitions == proof.claimed_trits@.len(),
                opening_indices@.len() == num_of_repetitions,
                pf == *proof,
                c == *circuit,
                y == public_output@,
                sampled_trits(
                    verify_transcript(c, pf, y, sigma as int, num_of_repetitions as int),
                    num_of_repetitions as int,
                ) == Option::Some(opening_indices@),
                forall|q: int| 0 <= q < num_of_repetitions ==> rep_shapes_ok(c, pf, q),
                forall|q: int| 0 <= q < j ==> opening_indices@[q] == proof.claimed_trits@[q],
            decreases num_of_repetitions - j,
        {
            if opening_indices[j] != proof.claimed_trits[j] {
                proof {
                    let reps = pf.claimed_trits@.len() as int;
                    assert(reps == num_of_repetitions as int);
                    assert(sampled_trits(verify_transcript(c, pf, y, sigma as int, reps), reps)
                        == Option::Some(opening_indices@));
                    assert(opening_indices@ != pf.claimed_trits@);
                    assert(!verify_accepts(c, pf, y, sigma as int));
                }
                return Err(Error::FiatShamirOutputsMatchingError);
            }
            j = j + 1;
        }
        proof {
            assert(opening_indices@ =~= proof.claimed_trits@);
        }
        Ok(())
    }
}

} // verus!
