//! Formulas on exact values, computed here by other means.

use arc_crypto::batch_prover::{compute_verify_tag, generate_mock_proof};
use arc_crypto::blake3_commit::{batch_commit_raw_parallel, commit_raw, domains};
use arc_crypto::bls::{
    address_from_bls_pubkey, aggregate_public_keys, aggregate_signatures, bls_keygen, bls_sign,
};
use arc_crypto::clock::low_word;
use arc_crypto::field::{field_inv, field_mul, field_pow, mod_mersenne, MERSENNE_P};
use arc_crypto::inference_proof::{
    generate_dense_trace, prove_dense_layer, prove_folded_inference, DenseLayerInput,
};
use arc_crypto::pedersen::commit_value_with_blinding;
use arc_crypto::poseidon::{generate_mds_matrix, generate_round_constants};
use arc_crypto::proof_compress::{dict_encode, rle_decode, rle_encode, CompressionType};
use arc_crypto::signature::Secp256k1Key;
use arc_crypto::stark::{BlockProof, BlockProofInput, ProverConfig, RecursiveProof};
use arc_crypto::stwo_air::{
    bytes32_to_m31_limbs, m31, m31_add, m31_mul, m31_signed, m31_sub, u64_to_m31_limbs,
    StwoproofReceipt, M31, M31_MODULUS,
};
use arc_crypto::threshold::{commit_share, eval_polynomial};
use arc_crypto::zk_rollup::{bytes_to_u64s, u64s_to_bytes};
use arc_crypto::{
    address_from_ed25519_pubkey, address_from_falcon_pubkey, address_from_ml_dsa_pubkey,
    address_from_secp256k1_pubkey, aggregate_proofs, benchmark_address, benchmark_keypair,
    circuit_id_from_name, commit_transaction, commit_value, compress_proof, derive_public_key,
    hash_bytes, hash_pair, poseidon_hash, poseidon_hash_bytes, task_id_from_seed, vrf_prove,
    CircuitBuilder, Hash256, KeyGeneration, KeyPair, MerkleTree, PedersenCommitment,
    PoseidonConfig, PoseidonSponge, ProveTask, RollupState, Signature, ThresholdEncryption,
    ThresholdScheme, ThresholdSigner,
};
use curve25519_dalek::constants::RISTRETTO_BASEPOINT_POINT;
use curve25519_dalek::ristretto::RistrettoPoint;
use curve25519_dalek::scalar::Scalar;
use ed25519_dalek::Signer;
use sha2::Sha512;

fn blake3_of(parts: &[&[u8]]) -> [u8; 32] {
    *blake3::hash(&parts.concat()).as_bytes()
}

fn derived(context: &str, parts: &[&[u8]]) -> [u8; 32] {
    blake3::derive_key(context, &parts.concat())
}

#[test]
fn hashes_are_blake3() {
    assert_eq!(
        hash_bytes(b"").to_hex(),
        "af1349b9f5f9a1a6a0404dea36dcc9499bcb25c9adc112b7cc9a93cae41f3262"
    );
    let (a, b) = (hash_bytes(b"a"), hash_bytes(b"b"));
    assert_eq!(hash_pair(&a, &b).0, blake3_of(&[&a.0, &b.0]));
    assert_eq!(Hash256::default(), Hash256::zero());
    assert_eq!(Hash256::zero().to_hex(), "0".repeat(64));
}

#[test]
fn commitments_are_domain_separated_blake3() {
    let c = commit_transaction(domains::SWAP, b"data");
    assert_eq!(c.hash.0, derived("ARC-chain-tx-v1", &[&[domains::SWAP], b"data"]));
    assert_eq!(c.domain, domains::SWAP);
    assert_eq!(commit_raw(b"raw"), hash_bytes(b"raw"));
    let items: [&[u8]; 2] = [b"x", b"y"];
    assert_eq!(
        batch_commit_raw_parallel(&items),
        vec![hash_bytes(b"x"), hash_bytes(b"y")]
    );
}

#[test]
fn merkle_roots_repeat_the_last_of_an_odd_row() {
    let l: Vec<Hash256> = (0..3u8).map(|i| hash_bytes(&[i])).collect();
    let left = hash_pair(&l[0], &l[1]);
    let right = hash_pair(&l[2], &l[2]);
    let tree = MerkleTree::from_leaves(l.clone());
    assert_eq!(tree.root(), hash_pair(&left, &right));
    let proof = tree.proof_of(2).unwrap();
    assert_eq!(proof.leaf, l[2]);
    assert_eq!(proof.root, tree.root());
    assert_eq!(proof.siblings.len(), 2);
    assert_eq!(MerkleTree::from_leaves(vec![l[0]]).root(), hash_pair(&l[0], &l[0]));
    assert_eq!(MerkleTree::from_leaves(vec![]).root(), Hash256::zero());
}

#[test]
fn trees_count_the_leaves_they_were_given() {
    for n in [0, 1, 2, 3, 5, 8] {
        let leaves: Vec<Hash256> = (0..n).map(|i: u8| hash_bytes(&[i])).collect();
        assert_eq!(MerkleTree::from_leaves(leaves).leaf_count(), n as usize);
    }
}

#[test]
fn field_arithmetic_is_modulo_the_mersenne_prime() {
    assert_eq!(MERSENNE_P, (1u64 << 61) - 1);
    assert_eq!(mod_mersenne((1u128 << 61) + 5), 6);
    assert_eq!(field_pow(2, 61), 1);
    assert_eq!(field_pow(3, 5), 243);
    assert_eq!(field_mul(1 << 60, 4), 2);
    assert_eq!(field_inv(2), 1 << 60);
    assert_eq!(eval_polynomial(&[1, 2, 3], 10), 321);
}

#[test]
fn shares_and_partials_are_blake3_bound() {
    let shares = KeyGeneration::generate_shares(&[7; 32], 1, 2);
    // A polynomial of degree zero: every share is the secret, reduced into the field.
    assert_eq!(shares[0].value, shares[1].value);
    assert_eq!(commit_share(&shares[0].value), shares[0].commitment);
    assert_eq!(
        derive_public_key(&[7; 32]),
        blake3_of(&[b"arc-threshold-pubkey", &[7; 32]])
    );
    let scheme = ThresholdScheme { threshold: 1, total_shares: 2, dealer: None };
    let signer = ThresholdSigner::new(scheme, shares[0].clone());
    let partial = signer.partial_sign(b"message");
    assert_eq!(
        partial.signature,
        blake3_of(&[b"arc-threshold-partial-sig", &shares[0].value, b"message"])
    );
    // With one signer the Lagrange weight is one.
    let contribution = blake3_of(&[&1u64.to_le_bytes(), &partial.signature]);
    assert_eq!(
        signer.combine_partials(&[partial]).unwrap(),
        blake3_of(&[b"arc-threshold-combine", &contribution])
    );
}

#[test]
fn weighted_partials_are_combined_by_exclusive_or() {
    let shares = KeyGeneration::generate_shares(&[7; 32], 2, 2);
    let scheme = ThresholdScheme { threshold: 2, total_shares: 2, dealer: None };
    let first = ThresholdSigner::new(scheme.clone(), shares[0].clone());
    let second = ThresholdSigner::new(scheme, shares[1].clone());
    let (p, q) = (first.partial_sign(b"message"), second.partial_sign(b"message"));
    // At zero the basis of the points 1 and 2 is 2 and -1.
    let a = blake3_of(&[&2u64.to_le_bytes(), &p.signature]);
    let b = blake3_of(&[&(MERSENNE_P - 1).to_le_bytes(), &q.signature]);
    let mixed: Vec<u8> = a.iter().zip(b.iter()).map(|(x, y)| x ^ y).collect();
    let expected = blake3_of(&[b"arc-threshold-combine", &mixed]);
    assert_eq!(first.combine_partials(&[p.clone(), q.clone()]).unwrap(), expected);
    assert_eq!(first.combine_partials(&[q, p]).unwrap(), expected);
}

#[test]
fn encryption_is_a_keyed_stream_with_a_tag() {
    let (key, nonce) = ([1u8; 32], [2u8; 12]);
    let out = ThresholdEncryption::encrypt_with_nonce(&key, b"hi", &nonce);
    let enc = derived("ARC-threshold-enc-key-v1", &[&key]);
    let mac = derived("ARC-threshold-mac-key-v1", &[&key]);
    let stream = blake3::keyed_hash(&enc, &[&nonce[..], &0u64.to_le_bytes()].concat());
    let body = [b'h' ^ stream.as_bytes()[0], b'i' ^ stream.as_bytes()[1]];
    let tag = blake3::keyed_hash(&mac, &[&nonce[..], &2u64.to_le_bytes(), &body].concat());
    assert_eq!(out, [&nonce[..], &body, tag.as_bytes()].concat());
    assert_eq!(
        ThresholdEncryption::slot_message(258),
        [b"ARC-slot-key-v1".as_slice(), &[2, 1, 0, 0, 0, 0, 0, 0]].concat()
    );
    let pair = bls_keygen(b"committee");
    let sig = bls_sign(&pair.secret, &ThresholdEncryption::slot_message(258));
    let total = aggregate_signatures(std::slice::from_ref(&sig)).unwrap();
    assert_eq!(
        ThresholdEncryption::derive_slot_key(258, &[sig]),
        derived("ARC-threshold-slot-key-v1", &[&total.0, &258u64.to_le_bytes()])
    );
}

#[test]
fn bls_keys_are_those_of_blst() {
    let mut ikm = [0u8; 32];
    ikm.copy_from_slice(&blake3_of(&[b"seed"]));
    let pair = bls_keygen(b"seed");
    let secret = blst::min_pk::SecretKey::from_bytes(&pair.secret.0).unwrap();
    assert_eq!(secret.sk_to_pk().to_bytes(), pair.public.0);
    assert_ne!(pair.secret.0, ikm);
    assert_eq!(address_from_bls_pubkey(&pair.public), blake3_of(&[&pair.public.0]));
    let one = aggregate_public_keys(std::slice::from_ref(&pair.public)).unwrap();
    assert_eq!(one.key, pair.public);
    assert_eq!(one.participant_count, 1);
}

#[test]
fn run_lengths_are_pairs_of_count_and_byte() {
    assert_eq!(rle_encode(&[9, 9, 9, 4]), vec![3, 9, 1, 4]);
    assert_eq!(rle_encode(&[0; 256]), vec![255, 0, 1, 0]);
    assert_eq!(rle_decode(&[2, 7, 0, 8, 1]), vec![7, 7]);
}

#[test]
fn dictionaries_list_their_rules_before_the_data() {
    // The pair (1, 2) occurs three times, and 0 is the least unused byte. Then the pair (0, 0)
    // occurs twice, and 1 is the least unused byte.
    assert_eq!(
        dict_encode(&[1, 2, 1, 2, 1, 2]),
        vec![2, 0, 1, 2, 1, 0, 0, 1, 0]
    );
    assert_eq!(dict_encode(&[]), vec![0]);
    assert_eq!(dict_encode(&[5, 6]), vec![0, 5, 6]);
    let zeros = compress_proof(&[0; 1000]);
    assert_eq!(zeros.compression_type, CompressionType::RunLength);
    assert_eq!(zeros.compressed_data, vec![255, 0, 255, 0, 255, 0, 235, 0]);
    let plain = compress_proof(&[1, 2, 3]);
    assert_eq!(plain.compression_type, CompressionType::Uncompressed);
    assert_eq!(plain.original_size, 3);
}

#[test]
fn circuit_ids_hash_name_wires_and_gates() {
    let mut builder = CircuitBuilder::new("c");
    let a = builder.add_public_input();
    let k = builder.constant(5);
    let s = builder.add(a, k);
    let p = builder.mul(s, k);
    builder.assert_equal(p, 30);
    let circuit = builder.build();
    let n = |v: u64| v.to_le_bytes();
    let mut data: Vec<u8> = Vec::new();
    data.extend_from_slice(b"arc-circuit-id");
    data.extend_from_slice(b"c");
    data.extend_from_slice(&n(5));
    data.extend_from_slice(&n(4));
    let gates: [(u8, Vec<u64>); 5] = [
        (3, vec![0]),
        (2, vec![1, 5]),
        (0, vec![0, 1, 2]),
        (1, vec![2, 1, 3]),
        (4, vec![3, 30]),
    ];
    for (i, (tag, args)) in gates.into_iter().enumerate() {
        data.extend_from_slice(&n(i as u64));
        data.push(tag);
        for v in args {
            data.extend_from_slice(&n(v));
        }
    }
    assert_eq!(circuit.id, blake3_of(&[&data]));
    assert_eq!(circuit.constraints, 2);
}

const MODULUS: u128 = (1 << 61) - 1;

fn power(base: u64, exp: u64) -> u64 {
    let mut r: u128 = 1;
    for bit in (0..64).rev() {
        r = r * r % MODULUS;
        if exp >> bit & 1 == 1 {
            r = r * base as u128 % MODULUS;
        }
    }
    r as u64
}

/// The permutation of width three with default rounds, written out plainly.
fn permuted(state: [u64; 3]) -> [u64; 3] {
    let config = PoseidonConfig::default();
    let rc = generate_round_constants((config.full_rounds + config.partial_rounds) * 3);
    let mds = generate_mds_matrix(3);
    let mut s = state;
    for r in 0..config.full_rounds + config.partial_rounds {
        for i in 0..3 {
            s[i] = ((s[i] as u128 + rc[3 * r + i] as u128) % MODULUS) as u64;
        }
        let half = config.full_rounds / 2;
        let full = r < half || r >= half + config.partial_rounds;
        for i in 0..3 {
            if full || i == 0 {
                s[i] = power(s[i], config.alpha);
            }
        }
        let old = s;
        for i in 0..3 {
            let mut acc: u128 = 0;
            for j in 0..3 {
                acc = (acc + mds[i][j] as u128 * old[j] as u128) % MODULUS;
            }
            s[i] = acc as u64;
        }
    }
    s
}

#[test]
fn poseidon_follows_its_rounds() {
    let tag = blake3_of(&[b"ARC_POSEIDON_RC_1"]);
    let mut first = [0u8; 8];
    first.copy_from_slice(&tag[..8]);
    assert_eq!(
        generate_round_constants(2)[1] as u128,
        u64::from_le_bytes(first) as u128 % MODULUS
    );
    // The entry at (0, 0) is the inverse of 1 + 4.
    assert_eq!(generate_mds_matrix(3)[0][0] as u128 * 5 % MODULUS, 1);
    assert_eq!(poseidon_hash(&[10, 20]), permuted([2, 10, 20])[1]);
    let once = permuted([3, 1, 2]);
    let sum = ((once[1] as u128 + 3) % MODULUS) as u64;
    assert_eq!(poseidon_hash(&[1, 2, 3]), permuted([once[0], sum, once[2]])[1]);
    let core = poseidon_hash(&[u64::from_le_bytes(*b"abc\0\0\0\0\0")]);
    assert_eq!(poseidon_hash_bytes(b"abc"), blake3_of(&[&core.to_le_bytes()]));
    let mut sponge = PoseidonSponge::new();
    sponge.absorb(&[7]);
    let out = sponge.squeeze(3);
    let s = permuted([1, 7, 1]);
    assert_eq!(out, vec![s[1], s[2], permuted(s)[1]]);
}

#[test]
fn batch_proofs_are_blake3() {
    assert_eq!(task_id_from_seed("s"), blake3_of(&[b"arc-task-id", b"s"]));
    assert_eq!(circuit_id_from_name("n"), blake3_of(&[b"arc-circuit-id", b"n"]));
    let task = ProveTask {
        id: task_id_from_seed("s"),
        circuit_id: [3; 32],
        public_inputs: vec![1],
        private_inputs: vec![2],
        priority: 0,
        submitted_at: 0,
    };
    let data = generate_mock_proof(&task);
    let (one, two) = (1u64.to_le_bytes(), 2u64.to_le_bytes());
    assert_eq!(data, blake3_of(&[b"arc-batch-proof", &[3; 32], &one, &two]));
    assert_eq!(
        compute_verify_tag(&[3; 32], &[1], &data),
        blake3_of(&[b"arc-batch-verify", &[3; 32], &one, &data])
    );
}

#[test]
fn dense_proofs_bind_trace_input_and_output() {
    let layer = DenseLayerInput {
        weights: vec![2, 3],
        bias: vec![10],
        input: vec![5, -7],
        output: vec![-1],
        in_size: 2,
        out_size: 1,
    };
    let trace = generate_dense_trace(&layer);
    assert_eq!(trace[0].len(), 16);
    let row = |r: usize| trace.iter().map(|col| col[r]).collect::<Vec<i64>>();
    assert_eq!(row(0), vec![1, 0, 0, 2, 5, 10, 0, 10, 0, 0, 0]);
    assert_eq!(row(1), vec![1, 0, 1, 3, -7, -21, 10, -11, 1, 10, -1]);
    assert_eq!(row(2), vec![0; 11]);
    let proof = prove_dense_layer(&layer).unwrap();
    let bytes = |values: &[i64]| -> Vec<u8> {
        values.iter().flat_map(|v| v.to_le_bytes()).collect()
    };
    assert_eq!(proof.input_hash.0, blake3_of(&[&bytes(&[5, -7])]));
    assert_eq!(proof.output_hash.0, blake3_of(&[&bytes(&[-1])]));
    let all: Vec<u8> = trace.iter().flat_map(|col| bytes(col)).collect();
    assert_eq!(proof.binding_hash.0, blake3_of(&[&all]));
    assert_eq!(
        proof.proof_data,
        [
            &16u64.to_le_bytes()[..],
            &11u64.to_le_bytes(),
            &proof.binding_hash.0,
            &proof.input_hash.0,
            &proof.output_hash.0
        ]
        .concat()
    );
    let folded = prove_folded_inference(&[layer]).unwrap();
    assert_eq!(folded.model_input_hash, proof.input_hash);
    assert_eq!(folded.final_output_hash, proof.output_hash);
}

#[test]
fn state_roots_hash_sorted_accounts() {
    let mut state = RollupState::new();
    let mut low = [0u8; 32];
    low[31] = 1;
    state.credit([9; 32], 5);
    state.credit(low, 6);
    let leaf = |addr: &[u8; 32], balance: u64| {
        Hash256(blake3_of(&[addr, &balance.to_le_bytes(), &0u64.to_le_bytes()]))
    };
    assert_eq!(
        state.compute_state_root(),
        hash_pair(&leaf(&low, 6), &leaf(&[9; 32], 5)).0
    );
    state.credit([10; 32], 7);
    let left = hash_pair(&leaf(&low, 6), &leaf(&[9; 32], 5));
    let right = hash_pair(&leaf(&[10; 32], 7), &Hash256::zero());
    assert_eq!(state.compute_state_root(), hash_pair(&left, &right).0);
    let mut bytes = [0u8; 32];
    bytes[8] = 3;
    bytes[31] = 1;
    assert_eq!(bytes_to_u64s(&bytes), vec![0, 3, 0, 1 << 56]);
    assert_eq!(u64s_to_bytes(&[0, 3, 0, 1 << 56]), bytes);
}

#[test]
fn m31_arithmetic_is_modulo_its_prime() {
    assert_eq!(M31_MODULUS, (1 << 31) - 1);
    assert_eq!(m31(M31_MODULUS), M31(0));
    assert_eq!(m31_add(M31(M31_MODULUS - 1), M31(2)), M31(1));
    assert_eq!(m31_sub(M31(1), M31(2)), M31(M31_MODULUS - 1));
    assert_eq!(m31_mul(M31(1 << 30), M31(4)), M31(2));
    assert_eq!(m31_signed(-3), M31(M31_MODULUS - 3));
    assert_eq!(u64_to_m31_limbs(0x5_0003), (M31(3), M31(5)));
    let mut bytes = [0u8; 32];
    bytes[2] = 0x34;
    bytes[3] = 0x12;
    assert_eq!(bytes32_to_m31_limbs(&bytes)[1], M31(0x1234));
}

#[test]
fn receipts_are_laid_out_little_endian() {
    let receipt = StwoproofReceipt {
        version: 1,
        log_size: 4,
        pow_bits: 10,
        log_blowup_factor: 2,
        n_queries: 3,
        commitment_roots: vec![[9; 32]],
        binding_hash: [8; 32],
    };
    let mut expected: Vec<u8> = Vec::new();
    for v in [1u32, 4, 1, 10, 2, 3] {
        expected.extend_from_slice(&v.to_le_bytes());
    }
    expected.extend_from_slice(&[9; 32]);
    expected.extend_from_slice(&[8; 32]);
    assert_eq!(receipt.to_bytes(), expected);
}

fn block_input(height: u64) -> BlockProofInput {
    BlockProofInput {
        height,
        block_hash: [1; 32],
        prev_state_root: [2; 32],
        post_state_root: [3; 32],
        tx_hashes: vec![[4; 32]],
        state_diffs: vec![([5; 32], [6; 32], [7; 32])],
        transfers: vec![],
    }
}

#[test]
fn block_proofs_carry_their_verifier_hash() {
    let proof = BlockProof::mock_prove(&block_input(9));
    assert_eq!(proof.verifier_hash, derived("ARC-stark-verifier-v1", &[&proof.proof_data]));
    assert_eq!(BlockProof::prove(&block_input(9)).proof_data, proof.proof_data);
    let recursive = RecursiveProof::from_block_proofs(&[proof.clone()]).unwrap();
    assert_eq!(recursive.child_proofs, vec![proof.proof_hash()]);
    let child = Hash256(proof.proof_hash());
    assert_eq!(recursive.merkle_root, hash_pair(&child, &child).0);
    assert_eq!(&recursive.proof_data[36..68], &blake3_of(&[&[2; 32], &[3; 32]]));
    assert_eq!(&recursive.proof_data[68..72], &1u32.to_le_bytes());
    assert_eq!(ProverConfig::default_config().field_size_bits, 64);
    let stwo = ProverConfig::stwo_config(true);
    assert_eq!((stwo.field_size_bits, stwo.gpu_acceleration), (31, true));
    assert_eq!((stwo.recursion_threshold, stwo.target_proof_size), (8, 512));
    assert!(!ProverConfig::stwo_config(false).gpu_acceleration);
}

#[test]
fn addresses_are_blake3_of_public_keys() {
    let secret = [42u8; 32];
    let dalek = ed25519_dalek::SigningKey::from_bytes(&secret);
    let pair = KeyPair::Ed25519(secret);
    assert_eq!(pair.public_key_bytes(), dalek.verifying_key().to_bytes());
    assert_eq!(pair.address().0, blake3_of(&[&dalek.verifying_key().to_bytes()]));
    assert_eq!(
        address_from_ed25519_pubkey(&dalek.verifying_key().to_bytes()),
        pair.address()
    );
    let message = hash_bytes(b"m");
    assert_eq!(
        pair.sign(&message).unwrap(),
        Signature::Ed25519 {
            public_key: dalek.verifying_key().to_bytes(),
            signature: dalek.sign(&message.0).to_bytes().to_vec(),
        }
    );
    let secp = KeyPair::Secp256k1(Secp256k1Key::from_bytes(&[1; 32]).unwrap());
    let key = k256::ecdsa::SigningKey::from_slice(&[1; 32]).unwrap();
    let point = key.verifying_key().to_encoded_point(false);
    assert_eq!(secp.address().0, blake3_of(&[&point.as_bytes()[1..65]]));
    assert_eq!(address_from_secp256k1_pubkey(&point.as_bytes()[1..65]), secp.address());
    assert_eq!(address_from_ml_dsa_pubkey(&[5; 1952]).0, blake3_of(&[&[5; 1952]]));
    assert_eq!(address_from_falcon_pubkey(&[5; 897]).0, blake3_of(&[&[5; 897]]));
    let bench = derived("ARC-chain-benchmark-keypair-v1", &[&[5]]);
    assert_eq!(benchmark_address(5), KeyPair::Ed25519(bench).address());
    assert_eq!(benchmark_keypair(5).address(), benchmark_address(5));
}

#[test]
fn vrf_outputs_follow_from_the_signature() {
    let secret = [11u8; 32];
    let dalek = ed25519_dalek::SigningKey::from_bytes(&secret);
    let key = dalek.verifying_key().to_bytes();
    let message = derived("ARC-vrf-gamma-v1", &[&key, b"alpha"]);
    let signed = dalek.sign(&message).to_bytes();
    let gamma = derived("ARC-vrf-gamma-derive-v1", &[&key, &signed]);
    let (proof, output) = vrf_prove(&KeyPair::Ed25519(secret), b"alpha").unwrap();
    assert_eq!(proof.gamma.0, gamma);
    assert_eq!(output.0 .0, derived("ARC-vrf-output-v1", &[&gamma]));
    let bound = derived("ARC-vrf-proof-v1", &[&gamma, &blake3_of(&[b"alpha"])]);
    assert_eq!(
        proof.signature,
        Signature::Ed25519 {
            public_key: key,
            signature: dalek.sign(&bound).to_bytes().to_vec(),
        }
    );
}

#[test]
fn pedersen_points_are_those_of_the_group() {
    let h = RistrettoPoint::hash_from_bytes::<Sha512>(b"ARC-chain-pedersen-generator-H-v1");
    let r = Scalar::from_bytes_mod_order([0xee; 32]);
    let expected = Scalar::from(77u64) * RISTRETTO_BASEPOINT_POINT + r * h;
    let c = commit_value_with_blinding(77, &[0xee; 32]);
    assert_eq!(c.point, expected.compress().to_bytes());
    assert_eq!(c.blinding, r.to_bytes());
}

#[test]
fn aggregates_sum_points_and_hash_blindings() {
    let commitments: Vec<PedersenCommitment> = vec![commit_value(1), commit_value(2)];
    let hashes = vec![hash_bytes(b"1"), hash_bytes(b"2")];
    let proof = aggregate_proofs(&hashes, &commitments);
    let point = |c: &PedersenCommitment| {
        curve25519_dalek::ristretto::CompressedRistretto(c.point).decompress().unwrap()
    };
    assert_eq!(
        proof.aggregate_commitment,
        (point(&commitments[0]) + point(&commitments[1])).compress().to_bytes()
    );
    assert_eq!(
        proof.blinding_aggregate.0,
        derived(
            "ARC-chain-blinding-aggregate-v1",
            &[&commitments[0].blinding, &commitments[1].blinding]
        )
    );
    assert_eq!(proof.batch_root, hash_pair(&hashes[0], &hashes[1]));
    assert_eq!(proof.version, 1);
    let single = aggregate_proofs(&hashes[..1], &commitments[..1]);
    assert_eq!(single.batch_root, hashes[0]);
    assert_eq!(single.aggregate_commitment, commitments[0].point);
    let none = aggregate_proofs(&[], &[]);
    assert_eq!(none.batch_root, Hash256::zero());
    assert_eq!(none.aggregate_commitment, [0; 32]);
}

#[test]
fn generated_ml_dsa_keys_make_a_key_pair() {
    let pair = KeyPair::from_ml_dsa_keys(Some((vec![5; 1952], vec![6; 4032]))).unwrap();
    assert_eq!(pair.public_key_bytes(), vec![5; 1952]);
    assert!(matches!(&pair, KeyPair::MlDsa65 { sk_bytes, .. } if *sk_bytes == vec![6; 4032]));
    assert!(KeyPair::from_ml_dsa_keys(None).is_none());
    let generated = KeyPair::generate_ml_dsa().unwrap();
    assert!(matches!(&generated, KeyPair::MlDsa65 { sk_bytes, .. } if sk_bytes.len() == 4032));
}

#[test]
fn counts_keep_their_low_word() {
    assert_eq!(low_word(0), 0);
    assert_eq!(low_word(u64::MAX as u128), u64::MAX);
    assert_eq!(low_word((7u128 << 64) + 5), 5);
}
