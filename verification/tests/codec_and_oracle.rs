use rand::rngs::StdRng;
use rand::Rng;
use rand::SeedableRng;

use zkboo::circuit::{Circuit, Gate};
use zkboo::codec::{decode, encode};
use zkboo::error::Error;
use zkboo::fs::SigmaFS;
use zkboo::gadgets::prepare::generic_parse;
use zkboo::num_of_repetitions_given_desired_security;
use zkboo::prover::Prover;
use zkboo::verifying::Verifier;
use zkboo::word::{rotate_left, rotate_right, shift_left, shift_right, try_rotate_left,
    try_shift_left, word_from_le_bytes, word_to_le_bytes};

fn and_halves_circuit() -> Circuit {
    Circuit {
        num_input_words: 1,
        gates: vec![Gate::Shl(0, 16), Gate::Shr(1, 16), Gate::Shr(0, 16), Gate::And(2, 3)],
        output_wires: vec![4],
    }
}

#[test]
fn word_algebra() {
    assert_eq!(rotate_left(0x80000001, 1), 0x00000003);
    assert_eq!(rotate_right(0x00000003, 1), 0x80000001);
    assert_eq!(shift_left(0x80000001, 1), 0x00000002);
    assert_eq!(shift_right(0x80000001, 1), 0x40000000);
    assert_eq!(rotate_left(0xDEADBEEF, 0), 0xDEADBEEF);
    assert_eq!(try_rotate_left(1, 32), Err(Error::BitError));
    assert_eq!(try_shift_left(1, 32), Err(Error::BitError));
    assert_eq!(try_rotate_left(1, 31), Ok(0x80000000));
}

#[test]
fn word_byte_coding_is_bijective() {
    let bytes = word_to_le_bytes(0xDEADBEEF);
    assert_eq!(bytes, vec![0xEF, 0xBE, 0xAD, 0xDE]);
    assert_eq!(word_from_le_bytes(bytes[0], bytes[1], bytes[2], bytes[3]), 0xDEADBEEF);
    let parsed = generic_parse(&vec![0xEF, 0xBE, 0xAD, 0xDE, 1, 0, 0, 0], 2);
    assert_eq!(parsed, vec![0xDEADBEEF, 1]);
}

#[test]
fn encoding_round_trip() {
    let mut rng = StdRng::seed_from_u64(20);
    let circuit = and_halves_circuit();
    let witness = vec![0x77, 0x00, 0x55, 0x00];
    let public_output = circuit.evaluate(&generic_parse(&witness, 1));
    let proof = Prover::prove(&mut rng, &witness, &circuit, &public_output, 40).unwrap();
    let r = proof.claimed_trits.len();
    let bytes = encode(&public_output, &proof);
    let (output2, proof2) = decode(&bytes, r, public_output.len()).unwrap();
    assert_eq!(output2, public_output);
    assert_eq!(proof2.party_inputs, proof.party_inputs);
    assert_eq!(proof2.keys, proof.keys);
    assert_eq!(proof2.claimed_trits, proof.claimed_trits);
    for j in 0..r {
        assert_eq!(proof2.views[j].input, proof.views[j].input);
        assert_eq!(proof2.views[j].messages, proof.views[j].messages);
        assert_eq!(proof2.commitments[j].data, proof.commitments[j].data);
    }
    // decoded proofs re-encode byte-exactly
    let bytes2 = encode(&output2, &proof2);
    assert_eq!(bytes2, bytes);
    // and the decoded proof still verifies
    assert!(Verifier::verify(&proof2, &circuit, &output2, 40).is_ok());
}

#[test]
fn oversized_length_prefix_is_rejected() {
    let mut rng = StdRng::seed_from_u64(21);
    let circuit = and_halves_circuit();
    let witness = vec![0x01, 0x00, 0x01, 0x00];
    let public_output = circuit.evaluate(&generic_parse(&witness, 1));
    let proof = Prover::prove(&mut rng, &witness, &circuit, &public_output, 8).unwrap();
    let r = proof.claimed_trits.len();
    let mut bytes = encode(&public_output, &proof);
    // the first length prefix sits right after the public output words
    bytes[4] = 0xFF;
    bytes[5] = 0xFF;
    bytes[6] = 0xFF;
    bytes[7] = 0xFF;
    match decode(&bytes, r, 1) {
        Err(e) => assert_eq!(e, Error::SerializationError),
        Ok(_) => panic!("an oversized length prefix was accepted"),
    }
}

#[test]
fn truncated_commitment_names_hash_len() {
    let mut rng = StdRng::seed_from_u64(22);
    let circuit = and_halves_circuit();
    let witness = vec![0x01, 0x02, 0x01, 0x02];
    let public_output = circuit.evaluate(&generic_parse(&witness, 1));
    let proof = Prover::prove(&mut rng, &witness, &circuit, &public_output, 8).unwrap();
    let r = proof.claimed_trits.len();
    let bytes = encode(&public_output, &proof);
    // keep only the first repetition's bytes up to the middle of its commitment
    let cut = 4 + 8 + 4 + 8 + 4 + 8 + proof.views[0].messages.len() * 4 + 2 * zkboo::KEY_LEN + 10;
    let truncated = bytes[0..cut].to_vec();
    match decode(&truncated, r, 1) {
        Err(e) => assert_eq!(e, Error::HashLenError(zkboo::HASH_LEN, 10)),
        Ok(_) => panic!("a truncated commitment was accepted"),
    }
}

#[test]
fn every_single_byte_mutation_is_rejected() {
    let mut rng = StdRng::seed_from_u64(23);
    let circuit = and_halves_circuit();
    let witness = vec![0x0D, 0xF0, 0xAD, 0x0B];
    let public_output = circuit.evaluate(&generic_parse(&witness, 1));
    let sigma = 40;
    let r = num_of_repetitions_given_desired_security(sigma);
    let proof = Prover::prove(&mut rng, &witness, &circuit, &public_output, sigma).unwrap();
    let bytes = encode(&public_output, &proof);
    for pos in 0..bytes.len() {
        let mut mutated = bytes.clone();
        mutated[pos] ^= 0x01;
        let rejected = match decode(&mutated, r, 1) {
            Err(_) => true,
            Ok((output2, proof2)) => {
                Verifier::verify(&proof2, &circuit, &output2, sigma).is_err()
            }
        };
        assert!(rejected, "mutation at byte {} was accepted", pos);
    }
}

#[test]
fn challenge_trits_are_near_uniform() {
    let mut rng = StdRng::seed_from_u64(24);
    let per_message = 500usize;
    let messages = 2000usize;
    let mut counts = [0u64; 3];
    for _ in 0..messages {
        let mut seed = vec![0u8; 32];
        rng.fill(&mut seed[..]);
        let fs = SigmaFS::initialize(&seed);
        let trits = fs.sample_trits(per_message).unwrap();
        for t in trits {
            counts[t as usize] += 1;
        }
    }
    let total = (per_message * messages) as u64;
    assert_eq!(counts[0] + counts[1] + counts[2], total);
    let expected = total / 3;
    let tolerance = total / 100;
    for c in counts {
        let diff = if c > expected { c - expected } else { expected - c };
        assert!(diff <= tolerance, "trit count {} deviates from uniform", c);
    }
}

#[test]
fn oracle_is_deterministic_and_not_identity() {
    let seed = vec![9u8; 16];
    let fs1 = SigmaFS::initialize(&seed);
    let fs2 = SigmaFS::initialize(&seed);
    let t1 = fs1.sample_trits(64).unwrap();
    let t2 = fs2.sample_trits(64).unwrap();
    assert_eq!(t1, t2);
    assert_eq!(t1.len(), 64);
    assert!(t1.iter().all(|t| *t < 3));
    // the challenge depends on the transcript
    let fs3 = SigmaFS::initialize(&vec![10u8; 16]);
    let t3 = fs3.sample_trits(64).unwrap();
    assert_ne!(t1, t3);
}
