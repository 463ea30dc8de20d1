use vstd::prelude::*;

verus! {

use crate::circuit::{Circuit, honest_msgs, next3, pick3, replay_out_of};
use crate::data_structures::{Commitment, PartyExecution, Proof, PublicInput, commit_value};
use crate::error::Error;
use crate::fs::SigmaFS;
use crate::party::Party;
use crate::rng::random_bytes;
use crate::tape::tape_words_of;
use crate::verifying::{all_cms, all_outputs, rep_cms, rep_outputs, verify_accepts};
use crate::view::PartyView;
use crate::word::{bytes_to_words, copy_bytes, copy_words, xor_bytes, xor_words_val};

/// What one repetition of the three-party simulation leaves behind: the
/// three output shares and the three completed views.
pub struct RepetitionOutput {
    pub party_outputs: (Vec<u32>, Vec<u32>, Vec<u32>),
    pub party_views: (PartyView, PartyView, PartyView),
}

/// Everything recorded about repetition `q` of an honest proving run: the
/// three views hold shares of the witness, their messages and the output
/// shares come from the honest simulation under the drawn keys' tapes, and
/// the commitments bind each key to its view.
pub open spec fn rep_recorded(
    c: Circuit,
    w: Seq<u8>,
    keys: Seq<Vec<u8>>,
    views: Seq<PartyView>,
    outs: Seq<Vec<u32>>,
    cms: Seq<Commitment>,
    q: int,
) -> bool {
    let m = c.spec_num_mul_gates();
    let n = c.gates@.len() as int;
    let v0 = views[3 * q];
    let v1 = views[3 * q + 1];
    let v2 = views[3 * q + 2];
    let s0 = bytes_to_words(v0.input@);
    let s1 = bytes_to_words(v1.input@);
    let s2 = bytes_to_words(v2.input@);
    let t0 = tape_words_of(keys[3 * q]@, m);
    let t1 = tape_words_of(keys[3 * q + 1]@, m);
    let t2 = tape_words_of(keys[3 * q + 2]@, m);
    &&& v0.input@.len() == w.len()
    &&& v1.input@.len() == w.len()
    &&& v2.input@.len() == w.len()
    &&& xor_bytes(xor_bytes(v0.input@, v1.input@), v2.input@) == w
    &&& v0.messages@ == honest_msgs(c, s0, s1, s2, t0, t1, t2, 0, n)
    &&& v1.messages@ == honest_msgs(c, s0, s1, s2, t0, t1, t2, 1, n)
    &&& v2.messages@ == honest_msgs(c, s0, s1, s2, t0, t1, t2, 2, n)
    &&& outs[3 * q]@ == replay_out_of(c, v0.input@, v0.messages@)
    &&& outs[3 * q + 1]@ == replay_out_of(c, v1.input@, v1.messages@)
    &&& outs[3 * q + 2]@ == replay_out_of(c, v2.input@, v2.messages@)
    &&& cms[3 * q].data@ == commit_value(keys[3 * q]@, v0.input@, v0.messages@)
    &&& cms[3 * q + 1].data@ == commit_value(keys[3 * q + 1]@, v1.input@, v1.messages@)
    &&& cms[3 * q + 2].data@ == commit_value(keys[3 * q + 2]@, v2.input@, v2.messages@)
}

/// How the opened fields of repetition `q` are drawn from the recorded run:
/// party `t` is opened by its input and key, party `t+1` by its view and
/// key, and party `t+2` only by its commitment.
pub open spec fn opened_rep(
    trits: Seq<u8>,
    keys_all: Seq<Vec<u8>>,
    views_all: Seq<PartyView>,
    cms_all: Seq<Commitment>,
    party_inputs: Seq<Vec<u8>>,
    views_out: Seq<PartyView>,
    keys_out: Seq<Vec<u8>>,
    cms_out: Seq<Commitment>,
    q: int,
) -> bool {
    let t = trits[q] as int;
    &&& party_inputs[q]@ == views_all[3 * q + t].input@
    &&& views_out[q].input@ == views_all[3 * q + next3(t)].input@
    &&& views_out[q].messages@ == views_all[3 * q + next3(t)].messages@
    &&& keys_out[2 * q]@ == keys_all[3 * q + t]@
    &&& keys_out[2 * q + 1]@ == keys_all[3 * q + next3(t)]@
    &&& cms_out[q].data@ == cms_all[3 * q + next3(next3(t))].data@
}

/// Flattening the per-repetition output triples reproduces the prover's
/// output list.
proof fn lemma_flatten_outputs(c: Circuit, pf: Proof, y: Seq<u32>, outs: Seq<Seq<u32>>, j: int)
    requires
        j >= 0,
        3 * j <= outs.len(),
        forall|q: int|
            0 <= q < j ==> rep_outputs(c, pf, y, q) == seq![
                outs[3 * q],
                outs[3 * q + 1],
                outs[3 * q + 2],
            ],
    ensures
        all_outputs(c, pf, y, j) == outs.take(3 * j),
    decreases j,
{
    if j == 0 {
        assert(all_outputs(c, pf, y, 0) =~= outs.take(0));
    } else {
        lemma_flatten_outputs(c, pf, y, outs, j - 1);
        assert(all_outputs(c, pf, y, j) =~= outs.take(3 * j));
    }
}

/// Flattening the per-repetition commitment triples reproduces the prover's
/// commitment list.
proof fn lemma_flatten_cms(c: Circuit, pf: Proof, cms: Seq<Seq<u8>>, j: int)
    requires
        j >= 0,
        3 * j <= cms.len(),
        forall|q: int|
            0 <= q < j ==> rep_cms(c, pf, q) == seq![cms[3 * q], cms[3 * q + 1], cms[3 * q + 2]],
    ensures
        all_cms(c, pf, j) == cms.take(3 * j),
    decreases j,
{
    if j == 0 {
        assert(all_cms(c, pf, 0) =~= cms.take(0));
    } else {
        lemma_flatten_cms(c, pf, cms, j - 1);
        assert(all_cms(c, pf, j) =~= cms.take(3 * j));
    }
}

/// Out of three shares that XOR to the claimed output, the third one is
/// recovered from the other two and the claim.
proof fn lemma_third_share(o0: Seq<u32>, o1: Seq<u32>, o2: Seq<u32>, y: Seq<u32>, t: int)
    requires
        o0.len() == y.len(),
        o1.len() == y.len(),
        o2.len() == y.len(),
        y == xor_words_val(xor_words_val(o0, o1), o2),
        0 <= t < 3,
    ensures
        xor_words_val(xor_words_val(pick3(o0, o1, o2, t), pick3(o0, o1, o2, next3(t))), y)
            == pick3(o0, o1, o2, next3(next3(t))),
{
    let oa = pick3(o0, o1, o2, t);
    let ob = pick3(o0, o1, o2, next3(t));
    let oc = pick3(o0, o1, o2, next3(next3(t)));
    assert forall|i: int| 0 <= i < y.len() implies xor_words_val(xor_words_val(oa, ob), y)[i]
        == oc[i] by {
        let a = o0[i];
        let b = o1[i];
        let cc = o2[i];
        if t == 0 {
            assert(((a ^ b) ^ ((a ^ b) ^ cc)) == cc) by (bit_vector);
        } else if t == 1 {
            assert(((b ^ cc) ^ ((a ^ b) ^ cc)) == a) by (bit_vector);
        } else {
            assert(((cc ^ a) ^ ((a ^ b) ^ cc)) == b) by (bit_vector);
        }
    }
    assert(xor_words_val(xor_words_val(oa, ob), y) =~= oc);
}

/// The non-interactive prover.
pub struct Prover {}

impl Prover {
    /// XOR-shares a witness: two shares are drawn at random, the third is
    /// the XOR of the witness with both, so the three always XOR back to
    /// the witness.
    pub fn share(rng: &mut rand::rngs::StdRng, input: &Vec<u8>) -> (r: (Vec<u8>, Vec<u8>, Vec<u8>))
        ensures
            r.0@.len() == input@.len(),
            r.1@.len() == input@.len(),
            r.2@.len() == input@.len(),
            xor_bytes(xor_bytes(r.0@, r.1@), r.2@) == input@,
    {
        let n = input.len();
        let share_1 = random_bytes(rng, n);
        let share_2 = random_bytes(rng, n);
        let mut share_3: Vec<u8> = Vec::new();
        let mut i: usize = 0;
        while i < n
            invariant
                i <= n,
                n == input@.len(),
                share_1@.len() == n,
                share_2@.len() == n,
                share_3@.len() == i,
                forall|q: int|
                    0 <= q < i ==> #[trigger] share_3@[q] == (input@[q] ^ share_1@[q]
                        ^ share_2@[q]),
            decreases n - i,
        {
            share_3.push(input[i] ^ share_1[i] ^ share_2[i]);
            i = i + 1;
        }
        proof {
            assert forall|q: int|
                0 <= q < n implies xor_bytes(xor_bytes(share_1@, share_2@), share_3@)[q]
                == input@[q] by {
                let a = share_1@[q];
                let b = share_2@[q];
                let cc = input@[q];
                assert(((a ^ b) ^ ((cc ^ a) ^ b)) == cc) by (bit_vector);
            }
            assert(xor_bytes(xor_bytes(share_1@, share_2@), share_3@) =~= input@);
        }
        (share_1, share_2, share_3)
    }

    /// Shares the witness and builds the three parties, their tapes expanded
    /// from the three keys.
    pub fn init_parties(
        rng: &mut rand::rngs::StdRng,
        input: &Vec<u8>,
        keys: (&Vec<u8>, &Vec<u8>, &Vec<u8>),
        tape_len: usize,
    ) -> (r: (Party, Party, Party))
        requires
            tape_len <= usize::MAX as int / 4,
        ensures
            r.0.view.input@.len() == input@.len(),
            r.1.view.input@.len() == input@.len(),
            r.2.view.input@.len() == input@.len(),
            xor_bytes(xor_bytes(r.0.view.input@, r.1.view.input@), r.2.view.input@) == input@,
            r.0.view.messages@ == Seq::<u32>::empty(),
            r.1.view.messages@ == Seq::<u32>::empty(),
            r.2.view.messages@ == Seq::<u32>::empty(),
            r.0.view.cursor == 0,
            r.1.view.cursor == 0,
            r.2.view.cursor == 0,
            r.0.tape.words@ == tape_words_of(keys.0@, tape_len as int),
            r.1.tape.words@ == tape_words_of(keys.1@, tape_len as int),
            r.2.tape.words@ == tape_words_of(keys.2@, tape_len as int),
            r.0.tape.words@.len() == tape_len,
            r.1.tape.words@.len() == tape_len,
            r.2.tape.words@.len() == tape_len,
            r.0.tape.cursor == 0,
            r.1.tape.cursor == 0,
            r.2.tape.cursor == 0,
    {
        let (share_1, share_2, share_3) = Self::share(rng, input);
        let p1 = Party::new(share_1, keys.0, tape_len);
        let p2 = Party::new(share_2, keys.1, tape_len);
        let p3 = Party::new(share_3, keys.2, tape_len);
        (p1, p2, p3)
    }

    /// One full repetition: share, simulate the three parties through the
    /// circuit, and hand back the output shares and completed views.
    pub fn prove_repetition(
        rng: &mut rand::rngs::StdRng,
        input: &Vec<u8>,
        keys: (&Vec<u8>, &Vec<u8>, &Vec<u8>),
        circuit: &Circuit,
    ) -> (r: RepetitionOutput)
        requires
            circuit.wf(),
            input@.len() == circuit.num_input_words * 4,
            circuit.gates@.len() <= usize::MAX as int / 4,
        ensures
            ({
                let m = circuit.spec_num_mul_gates();
                let n = circuit.gates@.len() as int;
                let s0 = bytes_to_words(r.party_views.0.input@);
                let s1 = bytes_to_words(r.party_views.1.input@);
                let s2 = bytes_to_words(r.party_views.2.input@);
                let t0 = tape_words_of(keys.0@, m);
                let t1 = tape_words_of(keys.1@, m);
                let t2 = tape_words_of(keys.2@, m);
                &&& r.party_views.0.input@.len() == input@.len()
                &&& r.party_views.1.input@.len() == input@.len()
                &&& r.party_views.2.input@.len() == input@.len()
                &&& xor_bytes(
                    xor_bytes(r.party_views.0.input@, r.party_views.1.input@),
                    r.party_views.2.input@,
                ) == input@
                &&& r.party_views.0.messages@ == honest_msgs(*circuit, s0, s1, s2, t0, t1, t2, 0, n)
                &&& r.party_views.1.messages@ == honest_msgs(*circuit, s0, s1, s2, t0, t1, t2, 1, n)
                &&& r.party_views.2.messages@ == honest_msgs(*circuit, s0, s1, s2, t0, t1, t2, 2, n)
                &&& r.party_outputs.0@ == replay_out_of(
                    *circuit,
                    r.party_views.0.input@,
                    r.party_views.0.messages@,
                )
                &&& r.party_outputs.1@ == replay_out_of(
                    *circuit,
                    r.party_views.1.input@,
                    r.party_views.1.messages@,
                )
                &&& r.party_outputs.2@ == replay_out_of(
                    *circuit,
                    r.party_views.2.input@,
                    r.party_views.2.messages@,
                )
                &&& r.party_views.0.cursor == 0
                &&& r.party_views.1.cursor == 0
                &&& r.party_views.2.cursor == 0
            }),
    {
        let m = circuit.num_of_mul_gates();
        let (mut p1, mut p2, mut p3) = Self::init_parties(rng, input, keys, m);
        let party_outputs = circuit.compute_23_decomposition(&mut p1, &mut p2, &mut p3);
        RepetitionOutput { party_outputs, party_views: (p1.view, p2.view, p3.view) }
    }

    /// Drives all repetitions, derives the challenge, and assembles the
    /// selective opening.  On an honest claim -- `public_output` really is
    /// the circuit on the witness -- the proof it returns is accepted by the
    /// verifier: that is the completeness clause of the contract.
    #[verifier::rlimit(60)]
    pub fn prove(
        rng: &mut rand::rngs::StdRng,
        witness: &Vec<u8>,
        circuit: &Circuit,
        public_output: &Vec<u32>,
        sigma: usize,
    ) -> (r: Result<Proof, Error>)
        requires
            circuit.wf(),
            witness@.len() == circuit.num_input_words * 4,
            circuit.gates@.len() <= usize::MAX as int / 4,
            1 <= sigma <= 100,
            public_output@.len() == circuit.spec_party_output_len(),
        ensures
            r matches Ok(pf) ==> {
                &&& crate::is_num_reps(pf.claimed_trits@.len() as nat, sigma as nat)
                &&& pf.party_inputs@.len() == pf.claimed_trits@.len()
                &&& pf.views@.len() == pf.claimed_trits@.len()
                &&& pf.commitments@.len() == pf.claimed_trits@.len()
                &&& pf.keys@.len() == 2 * pf.claimed_trits@.len()
                &&& forall|j: int|
                    0 <= j < pf.claimed_trits@.len() ==> (#[trigger] pf.claimed_trits@[j]) < 3
                &&& (public_output@ == crate::circuit::eval_circuit(
                    *circuit,
                    bytes_to_words(witness@),
                ) ==> verify_accepts(*circuit, pf, public_output@, sigma as int))
            },
            r is Err ==> r == Err::<Proof, Error>(Error::SerializationError),
    {
        let ghost c = *circuit;
        let ghost y = public_output@;
        let num_of_repetitions = crate::num_of_repetitions_given_desired_security(sigma);
        let m = circuit.num_of_mul_gates();
        let total_keys = 3 * num_of_repetitions;
        let mut key_manager: Vec<Vec<u8>> = Vec::new();
        let mut ki: usize = 0;
        while ki < total_keys
            invariant
                ki <= total_keys,
                key_manager@.len() == ki,
                forall|k: int|
                    0 <= k < ki ==> (#[trigger] key_manager@[k])@.len() == crate::KEY_LEN,
            decreases total_keys - ki,
        {
            key_manager.push(random_bytes(rng, crate::KEY_LEN));
            ki = ki + 1;
        }
        let mut outputs: Vec<Vec<u32>> = Vec::new();
        let mut all_views: Vec<PartyView> = Vec::new();
        let mut all_commitments: Vec<Commitment> = Vec::new();
        let mut repetition: usize = 0;
        while repetition < num_of_repetitions
            invariant
                c == *circuit,
                circuit.wf(),
                witness@.len() == circuit.num_input_words * 4,
                circuit.gates@.len() <= usize::MAX as int / 4,
                m == circuit.spec_num_mul_gates(),
                repetition <= num_of_repetitions,
                num_of_repetitions <= 100,
                key_manager@.len() == 3 * num_of_repetitions,
                outputs@.len() == 3 * repetition,
                all_views@.len() == 3 * repetition,
                all_commitments@.len() == 3 * repetition,
                forall|q: int|
                    0 <= q < repetition ==> rep_recorded(
                        c,
                        witness@,
                        key_manager@,
                        all_views@,
                        outputs@,
                        all_commitments@,
                        q,
                    ),
            decreases num_of_repetitions - repetition,
        {
            let ghost qj = repetition as int;
            let ghost old_views = all_views@;
            let ghost old_outs = outputs@;
            let ghost old_cms = all_commitments@;
            let ro = Self::prove_repetition(
                rng,
                witness,
                (
                    &key_manager[3 * repetition],
                    &key_manager[3 * repetition + 1],
                    &key_manager[3 * repetition + 2],
                ),
                circuit,
            );
            let (o0, o1, o2) = ro.party_outputs;
            let (v0, v1, v2) = ro.party_views;
            outputs.push(o0);
            outputs.push(o1);
            outputs.push(o2);
            let pe0 = PartyExecution {
                key: copy_bytes(&key_manager[3 * repetition]),
                view: v0,
            };
            let cm0 = match pe0.commit() {
                Ok(cm) => cm,
                Err(_e) => {
                    return Err(Error::SerializationError);
                }
            };
            let pe1 = PartyExecution {
                key: copy_bytes(&key_manager[3 * repetition + 1]),
                view: v1,
            };
            let cm1 = match pe1.commit() {
                Ok(cm) => cm,
                Err(_e) => {
                    return Err(Error::SerializationError);
                }
            };
            let pe2 = PartyExecution {
                key: copy_bytes(&key_manager[3 * repetition + 2]),
                view: v2,
            };
            let cm2 = match pe2.commit() {
                Ok(cm) => cm,
                Err(_e) => {
                    return Err(Error::SerializationError);
                }
            };
            all_commitments.push(cm0);
            all_commitments.push(cm1);
            all_commitments.push(cm2);
            all_views.push(pe0.view);
            all_views.push(pe1.view);
            all_views.push(pe2.view);
            proof {
                assert forall|q: int| 0 <= q < qj + 1 implies rep_recorded(
                    c,
                    witness@,
                    key_manager@,
                    all_views@,
                    outputs@,
                    all_commitments@,
                    q,
                ) by {
                    if q < qj {
                        assert(rep_recorded(c, witness@, key_manager@, old_views, old_outs, old_cms, q));
                        assert(all_views@[3 * q] == old_views[3 * q]);
                        assert(all_views@[3 * q + 1] == old_views[3 * q + 1]);
                        assert(all_views@[3 * q + 2] == old_views[3 * q + 2]);
                        assert(outputs@[3 * q] == old_outs[3 * q]);
                        assert(outputs@[3 * q + 1] == old_outs[3 * q + 1]);
                        assert(outputs@[3 * q + 2] == old_outs[3 * q + 2]);
                        assert(all_commitments@[3 * q] == old_cms[3 * q]);
                        assert(all_commitments@[3 * q + 1] == old_cms[3 * q + 1]);
                        assert(all_commitments@[3 * q + 2] == old_cms[3 * q + 2]);
                    }
                }
            }
            repetition = repetition + 1;
        }
        let ghost keys_g = key_manager@;
        let ghost views_g = all_views@;
        let ghost outs_vec_g = outputs@;
        let ghost cms_g = all_commitments@;
        let ghost outs_seq = outputs@.map_values(|v: Vec<u32>| v@);
        let ghost cms_bytes = all_commitments@.map_values(|cm: Commitment| cm.data@);
        let pi = PublicInput {
            hash_len: crate::HASH_LEN,
            security_param: sigma,
            public_output: copy_words(public_output),
            outputs,
        };
        let mut seed: Vec<u8> = Vec::new();
        seed.push(0u8);
        let mut fs_oracle = SigmaFS::initialize(&seed);
        let _absorbed_pi = fs_oracle.digest_public_data(&pi);
        let _absorbed_cms = fs_oracle.digest_prover_message(&all_commitments);
        let ghost transcript = fs_oracle.data@;
        proof {
            assert(seq![0u8] =~= Seq::<u8>::empty().push(0u8));
            assert(transcript =~= seq![0u8] + crate::data_structures::public_input_bytes(
                crate::HASH_LEN as int,
                sigma as int,
                y,
                outs_seq,
            ) + crate::fs::commitments_bytes(cms_bytes));
        }
        let opening_indices = match fs_oracle.sample_trits(num_of_repetitions) {
            Ok(t) => t,
            Err(_e) => {
                return Err(Error::SerializationError);
            }
        };
        let mut claimed_trits: Vec<u8> = Vec::new();
        let mut party_inputs: Vec<Vec<u8>> = Vec::new();
        let mut keys: Vec<Vec<u8>> = Vec::new();
        let mut views: Vec<PartyView> = Vec::new();
        let mut commitments: Vec<Commitment> = Vec::new();
        let mut j: usize = 0;
        while j < num_of_repetitions
            invariant
                j <= num_of_repetitions,
                num_of_repetitions <= 100,
                opening_indices@.len() == num_of_repetitions,
                forall|q: int|
                    0 <= q < num_of_repetitions ==> (#[trigger] opening_indices@[q]) < 3,
                views_g.len() == 3 * num_of_repetitions,
                keys_g.len() == 3 * num_of_repetitions,
                cms_g.len() == 3 * num_of_repetitions,
                all_views@ == views_g,
                key_manager@ == keys_g,
                all_commitments@ == cms_g,
                claimed_trits@.len() == j,
                party_inputs@.len() == j,
                views@.len() == j,
                commitments@.len() == j,
                keys@.len() == 2 * j,
                forall|q: int|
                    0 <= q < j ==> #[trigger] claimed_trits@[q] == opening_indices@[q],
                forall|q: int|
                    0 <= q < j ==> opened_rep(
                        opening_indices@,
                        keys_g,
                        views_g,
                        cms_g,
                        party_inputs@,
                        views@,
                        keys@,
                        commitments@,
                        q,
                    ),
            decreases num_of_repetitions - j,
        {
            let ghost old_pin = party_inputs@;
            let ghost old_vout = views@;
            let ghost old_kout = keys@;
            let ghost old_cout = commitments@;
            let party_index = opening_indices[j] as usize;
            let i0 = 3 * j + party_index;
            let i1 = 3 * j + ((party_index + 1) % 3);
            let i2 = 3 * j + ((party_index + 2) % 3);
            party_inputs.push(copy_bytes(&all_views[i0].input));
            claimed_trits.push(opening_indices[j]);
            views.push(all_views[i1].replay_copy());
            keys.push(copy_bytes(&key_manager[i0]));
            keys.push(copy_bytes(&key_manager[i1]));
            commitments.push(Commitment { data: copy_bytes(&all_commitments[i2].data) });
            proof {
                let t = opening_indices@[j as int] as int;
                assert(((t + 1) % 3) == next3(t));
                assert(((t + 2) % 3) == next3(next3(t)));
                assert forall|q: int| 0 <= q < j + 1 implies opened_rep(
                    opening_indices@,
                    keys_g,
                    views_g,
                    cms_g,
                    party_inputs@,
                    views@,
                    keys@,
                    commitments@,
                    q,
                ) by {
                    if q < j {
                        assert(opened_rep(
                            opening_indices@,
                            keys_g,
                            views_g,
                            cms_g,
                            old_pin,
                            old_vout,
                            old_kout,
                            old_cout,
                            q,
                        ));
                        assert(party_inputs@[q] == old_pin[q]);
                        assert(views@[q] == old_vout[q]);
                        assert(keys@[2 * q] == old_kout[2 * q]);
                        assert(keys@[2 * q + 1] == old_kout[2 * q + 1]);
                        assert(commitments@[q] == old_cout[q]);
                    }
                }
            }
            j = j + 1;
        }
        let pf = Proof { party_inputs, commitments, views, keys, claimed_trits };
        proof {
            let reps = num_of_repetitions as int;
            assert(pf.claimed_trits@ =~= opening_indices@);
            if y == crate::circuit::eval_circuit(c, bytes_to_words(witness@)) {
                assert forall|q: int| 0 <= q < reps implies crate::verifying::rep_shapes_ok(
                    c,
                    pf,
                    q,
                ) by {
                    lemma_opened_rep_matches(
                        c,
                        witness@,
                        y,
                        opening_indices@,
                        keys_g,
                        views_g,
                        outs_vec_g,
                        cms_g,
                        outs_seq,
                        cms_bytes,
                        pf,
                        q,
                    );
                }
                assert forall|q: int| 0 <= q < reps implies rep_outputs(c, pf, y, q) == seq![
                    outs_seq[3 * q],
                    outs_seq[3 * q + 1],
                    outs_seq[3 * q + 2],
                ] by {
                    lemma_opened_rep_matches(
                        c,
                        witness@,
                        y,
                        opening_indices@,
                        keys_g,
                        views_g,
                        outs_vec_g,
                        cms_g,
                        outs_seq,
                        cms_bytes,
                        pf,
                        q,
                    );
                }
                assert forall|q: int| 0 <= q < reps implies rep_cms(c, pf, q) == seq![
                    cms_bytes[3 * q],
                    cms_bytes[3 * q + 1],
                    cms_bytes[3 * q + 2],
                ] by {
                    lemma_opened_rep_matches(
                        c,
                        witness@,
                        y,
                        opening_indices@,
                        keys_g,
                        views_g,
                        outs_vec_g,
                        cms_g,
                        outs_seq,
                        cms_bytes,
                        pf,
                        q,
                    );
                }
                lemma_flatten_outputs(c, pf, y, outs_seq, reps);
                lemma_flatten_cms(c, pf, cms_bytes, reps);
                assert(outs_seq.take(3 * reps) =~= outs_seq);
                assert(cms_bytes.take(3 * reps) =~= cms_bytes);
                assert(crate::verifying::verify_transcript(c, pf, y, sigma as int, reps)
                    == transcript);
                assert(verify_accepts(c, pf, y, sigma as int));
            }
        }
        Ok(pf)
    }
}

/// The opened fields of one repetition reconstruct, through the two-party
/// re-simulation, exactly the outputs and commitments the prover recorded,
/// rotated into party order -- provided the claimed output is honest.
proof fn lemma_opened_rep_matches(
    c: Circuit,
    w: Seq<u8>,
    y: Seq<u32>,
    trits: Seq<u8>,
    keys_g: Seq<Vec<u8>>,
    views_g: Seq<PartyView>,
    outs_vec_g: Seq<Vec<u32>>,
    cms_g: Seq<Commitment>,
    outs_seq: Seq<Seq<u32>>,
    cms_bytes: Seq<Seq<u8>>,
    pf: Proof,
    q: int,
)
    requires
        c.wf(),
        w.len() == c.num_input_words * 4,
        y.len() == c.spec_party_output_len(),
        y == crate::circuit::eval_circuit(c, bytes_to_words(w)),
        0 <= q,
        3 * q + 2 < views_g.len(),
        views_g.len() == keys_g.len(),
        views_g.len() == outs_vec_g.len(),
        views_g.len() == cms_g.len(),
        outs_seq == outs_vec_g.map_values(|v: Vec<u32>| v@),
        cms_bytes == cms_g.map_values(|cm: Commitment| cm.data@),
        q < trits.len(),
        trits[q] < 3,
        pf.claimed_trits@ == trits,
        q < pf.party_inputs@.len(),
        q < pf.views@.len(),
        q < pf.commitments@.len(),
        2 * q + 1 < pf.keys@.len(),
        rep_recorded(c, w, keys_g, views_g, outs_vec_g, cms_g, q),
        opened_rep(
            trits,
            keys_g,
            views_g,
            cms_g,
            pf.party_inputs@,
            pf.views@,
            pf.keys@,
            pf.commitments@,
            q,
        ),
    ensures
        crate::verifying::rep_shapes_ok(c, pf, q),
        rep_outputs(c, pf, y, q) == seq![outs_seq[3 * q], outs_seq[3 * q + 1], outs_seq[3 * q + 2]],
        rep_cms(c, pf, q) == seq![cms_bytes[3 * q], cms_bytes[3 * q + 1], cms_bytes[3 * q + 2]],
{
    let t = trits[q] as int;
    let n = c.gates@.len() as int;
    let m = c.spec_num_mul_gates();
    let v0 = views_g[3 * q];
    let v1 = views_g[3 * q + 1];
    let v2 = views_g[3 * q + 2];
    let s0 = bytes_to_words(v0.input@);
    let s1 = bytes_to_words(v1.input@);
    let s2 = bytes_to_words(v2.input@);
    let t0 = tape_words_of(keys_g[3 * q]@, m);
    let t1 = tape_words_of(keys_g[3 * q + 1]@, m);
    let t2 = tape_words_of(keys_g[3 * q + 2]@, m);
    crate::circuit::lemma_honest_len(c, s0, s1, s2, t0, t1, t2, next3(t), n);
    crate::circuit::lemma_resim_agrees(c, s0, s1, s2, t0, t1, t2, t, n, n);
    assert(crate::verifying::rep_msgs_a(c, pf, q) == honest_msgs(
        c,
        s0,
        s1,
        s2,
        t0,
        t1,
        t2,
        t,
        n,
    ));
    crate::circuit::lemma_outputs_reconstruct(c, s0, s1, s2, t0, t1, t2);
    crate::word::lemma_bytes_to_words_xor(v0.input@, v1.input@);
    crate::word::lemma_bytes_to_words_xor(xor_bytes(v0.input@, v1.input@), v2.input@);
    let oo0 = outs_seq[3 * q];
    let oo1 = outs_seq[3 * q + 1];
    let oo2 = outs_seq[3 * q + 2];
    assert(oo0 == replay_out_of(c, v0.input@, v0.messages@));
    assert(y == xor_words_val(xor_words_val(oo0, oo1), oo2));
    lemma_third_share(oo0, oo1, oo2, y, t);
    assert(crate::verifying::rep_out_a(c, pf, q) == pick3(oo0, oo1, oo2, t));
    assert(crate::verifying::rep_out_b(c, pf, q) == pick3(oo0, oo1, oo2, next3(t)));
    assert(crate::verifying::rep_out_c(c, pf, y, q) == pick3(oo0, oo1, oo2, next3(next3(t))));
    assert(crate::verifying::rep_cm_a(c, pf, q) == cms_bytes[3 * q + t]);
    assert(crate::verifying::rep_cm_b(c, pf, q) == cms_bytes[3 * q + next3(t)]);
    assert(pf.commitments@[q].data@ == cms_bytes[3 * q + next3(next3(t))]);
    assert(rep_outputs(c, pf, y, q) =~= seq![oo0, oo1, oo2]);
    assert(rep_cms(c, pf, q) =~= seq![cms_bytes[3 * q], cms_bytes[3 * q + 1], cms_bytes[3 * q + 2]]);
}

} // verus!
