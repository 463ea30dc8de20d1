use rand::rngs::StdRng;
use rand::SeedableRng;

use zkboo::circuit::{Circuit, Gate};
use zkboo::codec::encode;
use zkboo::error::Error;
use zkboo::gadgets::prepare::generic_parse;
use zkboo::num_of_repetitions_given_desired_security;
use zkboo::party::Party;
use zkboo::prover::Prover;
use zkboo::tape::Tape;
use zkboo::verifying::Verifier;

fn identity_circuit() -> Circuit {
    Circuit { num_input_words: 1, gates: vec![], output_wires: vec![0] }
}

fn and_halves_circuit() -> Circuit {
    Circuit {
        num_input_words: 1,
        gates: vec![Gate::Shl(0, 16), Gate::Shr(1, 16), Gate::Shr(0, 16), Gate::And(2, 3)],
        output_wires: vec![4],
    }
}

fn xor_chain_circuit() -> Circuit {
    Circuit { num_input_words: 1, gates: vec![Gate::XorConst(0, 0x55555555)], output_wires: vec![1] }
}

fn key(seed: u8) -> Vec<u8> {
    vec![seed; zkboo::KEY_LEN]
}

#[test]
fn share_xor_reconstructs() {
    let mut rng = StdRng::seed_from_u64(1);
    let input = vec![0xEF, 0xBE, 0xAD, 0xDE, 0x01, 0x02];
    let (s1, s2, s3) = Prover::share(&mut rng, &input);
    assert_eq!(s1.len(), input.len());
    assert_eq!(s2.len(), input.len());
    assert_eq!(s3.len(), input.len());
    for i in 0..input.len() {
        assert_eq!(s1[i] ^ s2[i] ^ s3[i], input[i]);
    }
}

#[test]
fn tape_determinism() {
    let k = key(7);
    let t1 = Tape::from_key(&k, 9);
    let t2 = Tape::from_key(&k, 9);
    assert_eq!(t1.words, t2.words);
    assert_eq!(t1.words.len(), 9);
    // A different key gives a different tape, and the tape is not the key.
    let t3 = Tape::from_key(&key(8), 9);
    assert_ne!(t1.words, t3.words);
    assert_ne!(t1.words[0].to_le_bytes().to_vec(), k[0..4].to_vec());
}

#[test]
fn circuit_reconstruction() {
    let mut rng = StdRng::seed_from_u64(2);
    let circuit = and_halves_circuit();
    let witness = vec![0x03, 0x00, 0x00, 0x00];
    let ro = Prover::prove_repetition(&mut rng, &witness, (&key(1), &key(2), &key(3)), &circuit);
    let (o1, o2, o3) = ro.party_outputs;
    let plain = circuit.evaluate(&generic_parse(&witness, 1));
    assert_eq!(plain, vec![0x00000000]);
    for i in 0..plain.len() {
        assert_eq!(o1[i] ^ o2[i] ^ o3[i], plain[i]);
    }
    // each view holds exactly one message: one AND gate
    assert_eq!(ro.party_views.0.messages.len(), 1);
    assert_eq!(ro.party_views.1.messages.len(), 1);
    assert_eq!(ro.party_views.2.messages.len(), 1);
}

#[test]
fn two_party_resimulation_agrees() {
    let mut rng = StdRng::seed_from_u64(3);
    let circuit = and_halves_circuit();
    let witness = vec![0x21, 0x43, 0x65, 0x87];
    let keys = [key(11), key(12), key(13)];
    let ro = Prover::prove_repetition(
        &mut rng,
        &witness,
        (&keys[0], &keys[1], &keys[2]),
        &circuit,
    );
    let views = [ro.party_views.0, ro.party_views.1, ro.party_views.2];
    let outs = [ro.party_outputs.0, ro.party_outputs.1, ro.party_outputs.2];
    let m = circuit.num_of_mul_gates();
    for i in 0..3 {
        let j = (i + 1) % 3;
        let mut p = Party::new(views[i].input.clone(), &keys[i], m);
        let tape_next = Tape::from_key(&keys[j], m);
        let mut p_next = Party::from_tape_and_view(views[j].replay_copy(), tape_next);
        let (oa, ob) = circuit.simulate_two_parties(&mut p, &mut p_next).unwrap();
        assert_eq!(oa, outs[i]);
        assert_eq!(ob, outs[j]);
        assert_eq!(p.view.messages, views[i].messages);
    }
}

#[test]
fn s1_identity_circuit_sigma_40() {
    let mut rng = StdRng::seed_from_u64(4);
    let circuit = identity_circuit();
    let witness = vec![0xEF, 0xBE, 0xAD, 0xDE];
    let public_output = vec![0xDEADBEEF];
    let proof = Prover::prove(&mut rng, &witness, &circuit, &public_output, 40).unwrap();
    assert_eq!(num_of_repetitions_given_desired_security(40), 26);
    assert_eq!(proof.claimed_trits.len(), 26);
    for v in &proof.views {
        assert_eq!(v.messages.len(), 0);
    }
    assert!(Verifier::verify(&proof, &circuit, &public_output, 40).is_ok());
    // flipping any bit of the claimed output must be rejected
    let wrong_output = vec![0xDEADBEEF ^ 0x00010000];
    assert!(Verifier::verify(&proof, &circuit, &wrong_output, 40).is_err());
}

#[test]
fn s2_single_and_gate() {
    let mut rng = StdRng::seed_from_u64(5);
    let circuit = and_halves_circuit();
    let witness = vec![0x03, 0x00, 0x00, 0x00];
    let public_output = circuit.evaluate(&generic_parse(&witness, 1));
    let mut proof = Prover::prove(&mut rng, &witness, &circuit, &public_output, 40).unwrap();
    for v in &proof.views {
        assert_eq!(v.messages.len(), 1);
    }
    assert!(Verifier::verify(&proof, &circuit, &public_output, 40).is_ok());
    // tampering with the message word of an opened view must be rejected
    proof.views[0].messages[0] ^= 1;
    assert_eq!(
        Verifier::verify(&proof, &circuit, &public_output, 40),
        Err(Error::FiatShamirOutputsMatchingError)
    );
}

#[test]
fn s3_xor_chain() {
    let mut rng = StdRng::seed_from_u64(6);
    let circuit = xor_chain_circuit();
    let witness = vec![0x78, 0x56, 0x34, 0x12];
    let public_output = vec![0x12345678u32 ^ 0x55555555];
    let proof = Prover::prove(&mut rng, &witness, &circuit, &public_output, 40).unwrap();
    for v in &proof.views {
        assert_eq!(v.messages.len(), 0);
    }
    assert!(Verifier::verify(&proof, &circuit, &public_output, 40).is_ok());
}

#[test]
fn s4_fixed_seed_gives_identical_proofs() {
    let circuit = and_halves_circuit();
    let witness = vec![0x0F, 0x00, 0x0F, 0x00];
    let public_output = circuit.evaluate(&generic_parse(&witness, 1));
    let mut rng1 = StdRng::seed_from_u64(42);
    let proof1 = Prover::prove(&mut rng1, &witness, &circuit, &public_output, 40).unwrap();
    let mut rng2 = StdRng::seed_from_u64(42);
    let proof2 = Prover::prove(&mut rng2, &witness, &circuit, &public_output, 40).unwrap();
    let bytes1 = encode(&public_output, &proof1);
    let bytes2 = encode(&public_output, &proof2);
    assert_eq!(bytes1, bytes2);
}

#[test]
fn s5_wrong_witness_is_rejected() {
    let mut rng = StdRng::seed_from_u64(7);
    let circuit = and_halves_circuit();
    let witness = vec![0x03, 0x00, 0x03, 0x00];
    let honest_output = circuit.evaluate(&generic_parse(&witness, 1));
    let wrong_witness = vec![0x02, 0x00, 0x03, 0x00];
    let proof = Prover::prove(&mut rng, &wrong_witness, &circuit, &honest_output, 40).unwrap();
    assert!(Verifier::verify(&proof, &circuit, &honest_output, 40).is_err());
}

#[test]
fn s6_tampered_commitment_is_rejected() {
    let mut rng = StdRng::seed_from_u64(8);
    let circuit = and_halves_circuit();
    let witness = vec![0xAA, 0x55, 0xAA, 0x55];
    let public_output = circuit.evaluate(&generic_parse(&witness, 1));
    let mut proof = Prover::prove(&mut rng, &witness, &circuit, &public_output, 40).unwrap();
    proof.commitments[0].data[0] ^= 0xFF;
    assert_eq!(
        Verifier::verify(&proof, &circuit, &public_output, 40),
        Err(Error::FiatShamirOutputsMatchingError)
    );
}

#[test]
fn repetition_counts() {
    // R = ceil(sigma / log2(3)) as the least r with 3^r >= 2^sigma
    assert_eq!(num_of_repetitions_given_desired_security(1), 1);
    assert_eq!(num_of_repetitions_given_desired_security(2), 2);
    assert_eq!(num_of_repetitions_given_desired_security(40), 26);
    assert_eq!(num_of_repetitions_given_desired_security(80), 51);
}

#[test]
fn proof_shape_matches_repetitions() {
    let mut rng = StdRng::seed_from_u64(9);
    let circuit = identity_circuit();
    let witness = vec![1, 2, 3, 4];
    let public_output = vec![0x04030201];
    let sigma = 16;
    let r = num_of_repetitions_given_desired_security(sigma);
    let proof = Prover::prove(&mut rng, &witness, &circuit, &public_output, sigma).unwrap();
    assert_eq!(proof.claimed_trits.len(), r);
    assert_eq!(proof.party_inputs.len(), r);
    assert_eq!(proof.views.len(), r);
    assert_eq!(proof.commitments.len(), r);
    assert_eq!(proof.keys.len(), 2 * r);
    for t in &proof.claimed_trits {
        assert!(*t < 3);
    }
}

#[test]
fn truncated_party_input_gives_reconstruction_error() {
    let mut rng = StdRng::seed_from_u64(10);
    let circuit = and_halves_circuit();
    let witness = vec![0x01, 0x02, 0x03, 0x04];
    let public_output = circuit.evaluate(&generic_parse(&witness, 1));
    let mut proof = Prover::prove(&mut rng, &witness, &circuit, &public_output, 8).unwrap();
    proof.party_inputs[0].pop();
    assert_eq!(
        Verifier::verify(&proof, &circuit, &public_output, 8),
        Err(Error::OutputReconstructionError)
    );
}

#[test]
fn mixed_gate_circuit_proves_and_verifies() {
    // C(x) = rotl(x, 5) AND (rotr(x, 3) XOR x), over one 32-bit word
    let circuit = Circuit {
        num_input_words: 1,
        gates: vec![
            Gate::RotL(0, 5),
            Gate::RotR(0, 3),
            Gate::Xor(2, 0),
            Gate::And(1, 3),
        ],
        output_wires: vec![4],
    };
    let w: u32 = 0x13579BDF;
    let witness = w.to_le_bytes().to_vec();
    let expected = w.rotate_left(5) & (w.rotate_right(3) ^ w);
    let public_output = circuit.evaluate(&generic_parse(&witness, 1));
    assert_eq!(public_output, vec![expected]);
    let mut rng = StdRng::seed_from_u64(12);
    let proof = Prover::prove(&mut rng, &witness, &circuit, &public_output, 40).unwrap();
    assert!(Verifier::verify(&proof, &circuit, &public_output, 40).is_ok());
}

#[test]
fn commitments_bind_key_and_view() {
    let mut rng = StdRng::seed_from_u64(11);
    let circuit = and_halves_circuit();
    let witness = vec![0x09, 0x00, 0x08, 0x00];
    let ro = Prover::prove_repetition(&mut rng, &witness, (&key(1), &key(2), &key(3)), &circuit);
    let pe_a = zkboo::data_structures::PartyExecution { key: key(1), view: ro.party_views.0 };
    let cm_a = pe_a.commit().unwrap();
    assert_eq!(cm_a.data.len(), zkboo::HASH_LEN);
    // deterministic
    let pe_same = zkboo::data_structures::PartyExecution { key: key(1), view: pe_a.view };
    assert_eq!(pe_same.commit().unwrap().data, cm_a.data);
    // a different key gives a different digest
    let pe_b = zkboo::data_structures::PartyExecution { key: key(4), view: pe_same.view };
    assert_ne!(pe_b.commit().unwrap().data, cm_a.data);
}
