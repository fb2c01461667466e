//! An input for every error.

use arc_crypto::bls::{
    aggregate_public_keys, aggregate_signatures, bls_keygen, bls_sign, bls_verify,
    create_aggregate, create_verifiable_aggregate, meets_threshold, try_bls_sign, verify_aggregate,
    AggregatePublicKey, AggregateSignature, BlsError, BlsPublicKey, BlsSecretKey, BlsSignature,
    ThresholdConfig,
};
use arc_crypto::hash::HexError;
use arc_crypto::inference_proof::{
    generate_dense_trace, prove_dense_layer, prove_folded_inference, verify_dense_trace,
    DenseLayerInput,
};
use arc_crypto::pedersen::{batch_verify, try_add_commitments};
use arc_crypto::signature::{Secp256k1Key, SignatureError, ML_DSA_SIG_LEN};
use arc_crypto::stark::{BlockProof, BlockProofInput, RecursiveProof};
use arc_crypto::stwo_air::{verify_block_proof, StwoproofReceipt};
use arc_crypto::threshold::lagrange_interpolate_at_zero;
use arc_crypto::vrf::try_vrf_prove;
use arc_crypto::zk_aggregate::try_aggregate_proofs;
use arc_crypto::{
    batch_verify_ed25519, batch_verify_falcon512, batch_verify_ml_dsa, commit_value,
    falcon_sign, falcon_verify, hash_bytes, vrf_prove, vrf_verify, CircuitBuilder, CircuitError,
    CircuitEvaluator, DisputeResolution, FraudProof, Hash256, IncrementalMerkle, KeyGeneration,
    KeyPair, MerkleTree, PedersenCommitment, PedersenProof, RollupBatch, RollupConfig,
    RollupProof, RollupProofType, RollupState, RollupTx, RollupVerifier, Signature,
    StateTransitionCircuit, ThresholdEncryption, ThresholdError, ThresholdScheme, ThresholdSigner,
    TransferCircuit, VrfProof, FALCON_PK_LEN,
};

#[test]
fn hexadecimal_is_checked() {
    assert_eq!(Hash256::from_hex("abc").unwrap_err(), HexError::OddLength);
    assert_eq!(
        Hash256::from_hex("0g").unwrap_err(),
        HexError::InvalidHexCharacter { c: 'g', index: 1 }
    );
    assert_eq!(Hash256::from_hex(&"AB".repeat(32)).unwrap(), Hash256([0xab; 32]));
}

#[test]
fn merkle_proofs_end_with_the_leaves() {
    let tree = MerkleTree::from_leaves(vec![hash_bytes(b"a"), hash_bytes(b"b")]);
    assert!(tree.proof_of(2).is_none());
    let mut proof = tree.proof_of(1).unwrap();
    proof.siblings[0].1 = !proof.siblings[0].1;
    assert!(!MerkleTree::verify_proof(&proof));
    let im = IncrementalMerkle::new();
    assert!(im.proof_of(1).is_none());
    assert!(im.is_empty());
    assert_eq!(im.root(), Hash256::zero());
}

#[test]
fn circuits_report_their_faults() {
    let mut builder = CircuitBuilder::new("missing");
    let a = builder.add_public_input();
    let b = builder.add_private_input();
    builder.add(a, b);
    let circuit = builder.build();
    assert_eq!(
        CircuitEvaluator::evaluate(&circuit, &[]).unwrap_err(),
        CircuitError::MissingInput(0)
    );
    assert_eq!(
        CircuitEvaluator::evaluate(&circuit, &[1]).unwrap_err(),
        CircuitError::MissingInput(1)
    );
    assert_eq!(CircuitEvaluator::evaluate(&circuit, &[1, 2]).unwrap(), vec![1, 2, 3]);
    let mut builder = CircuitBuilder::new("invalid");
    let a = builder.add_public_input();
    builder.add(a, 9);
    let circuit = builder.build();
    let error = CircuitEvaluator::evaluate(&circuit, &[1]).unwrap_err();
    assert_eq!(error, CircuitError::InvalidWire(9, 2));
    assert_eq!(error.message(), "invalid wire index 9: circuit has 2 wires");
    assert_eq!(
        CircuitError::ConstraintViolation { index: 3, expected: 4, got: 5 }.message(),
        "constraint violation at gate 3: expected 4, got 5"
    );
    assert_eq!(CircuitError::MissingInput(7).message(), "missing input for wire 7");
    assert_eq!(CircuitError::ArithmeticOverflow(8).message(), "arithmetic overflow at gate 8");
    assert!(!CircuitEvaluator::verify_constraints(
        &TransferCircuit::build_transfer_circuit(),
        &[1]
    ));
    assert!(matches!(
        StateTransitionCircuit::verify_transition(&[1; 32], &[2; 32], &[(2, u64::MAX, 0)]),
        Err(CircuitError::ArithmeticOverflow(_))
    ));
    assert_eq!(StateTransitionCircuit::verify_transition(&[1; 32], &[2; 32], &[]), Ok(false));
    assert_eq!(StateTransitionCircuit::verify_transition(&[1; 32], &[1; 32], &[]), Ok(true));
    assert_eq!(
        StateTransitionCircuit::verify_transition(&[1; 32], &[2; 32], &[(2, 3, 4)]),
        Ok(true)
    );
}

#[test]
fn transfer_witnesses_bind_the_sender() {
    let circuit = TransferCircuit::build_transfer_circuit();
    assert!(CircuitEvaluator::verify_constraints(&circuit, &[100, 50, 30, 70, 100, 80]));
    // The sender keeps more than what was not paid.
    assert!(!CircuitEvaluator::verify_constraints(&circuit, &[100, 50, 30, 999, 1029, 80]));
    // The receiver gets another amount.
    assert!(!CircuitEvaluator::verify_constraints(&circuit, &[100, 50, 30, 70, 100, 81]));
    // The sender pays more than the balance.
    assert!(!CircuitEvaluator::verify_constraints(&circuit, &[10, 50, 30, 0, 30, 80]));
    assert_eq!(
        CircuitEvaluator::evaluate(&circuit, &[100, 50, 30, 70]).unwrap(),
        vec![100, 50, 30, 70, 100, 80]
    );
    assert_eq!(
        CircuitEvaluator::evaluate(&circuit, &[100, 50, 30, 999]).unwrap_err(),
        CircuitError::ConstraintViolation { index: 5, expected: 1029, got: 100 }
    );
    assert_eq!(
        CircuitEvaluator::evaluate(&circuit, &[100, 50, 30, u64::MAX]).unwrap_err(),
        CircuitError::ArithmeticOverflow(3)
    );
    assert_eq!(
        CircuitEvaluator::evaluate(&circuit, &[100, u64::MAX, 30, 70]).unwrap_err(),
        CircuitError::ArithmeticOverflow(4)
    );
}

#[test]
fn thresholds_report_their_faults() {
    let shares = KeyGeneration::generate_shares(&[3; 32], 2, 3);
    let mut bad = shares.clone();
    bad[1].value[0] ^= 1;
    let commitments: Vec<[u8; 32]> = shares.iter().map(|s| s.commitment).collect();
    assert!(!KeyGeneration::verify_share(&bad[1], &commitments));
    bad[0].index = 0;
    assert!(!KeyGeneration::verify_share(&bad[0], &commitments));
    assert_eq!(
        ThresholdError::InsufficientShares { needed: 3, got: 1 }.message(),
        "insufficient shares: need 3, got 1"
    );
    assert!(matches!(
        lagrange_interpolate_at_zero(&[(1, 1), (1, 2)]),
        Err(ThresholdError::InterpolationError(_))
    ));
    let scheme = ThresholdScheme { threshold: 2, total_shares: 3, dealer: None };
    let signer = ThresholdSigner::new(scheme, shares[0].clone());
    let partial = signer.partial_sign(b"m");
    assert!(matches!(
        signer.combine_partials(&[partial.clone(), partial]),
        Err(ThresholdError::DuplicateIndex(1))
    ));
    assert!(!ThresholdSigner::verify_combined(b"m", &[0; 32], &[1; 32]));
    assert!(ThresholdSigner::verify_combined(b"m", &[1; 32], &[1; 32]));
    assert!(ThresholdEncryption::try_derive_slot_key(1, &[]).is_err());
}

#[test]
fn bls_reports_its_faults() {
    let pair = bls_keygen(b"errors");
    let sig = bls_sign(&pair.secret, b"m");
    let no_point = BlsSignature([0xab; 96]);
    let no_key = BlsPublicKey([0xab; 48]);
    assert_eq!(aggregate_signatures(&[]).unwrap_err(), BlsError::EmptyInput);
    assert_eq!(aggregate_public_keys(&[]).unwrap_err(), BlsError::EmptyInput);
    assert_eq!(create_aggregate(&[]).unwrap_err(), BlsError::EmptyInput);
    assert_eq!(create_verifiable_aggregate(&[], b"m").unwrap_err(), BlsError::EmptyInput);
    assert_eq!(
        aggregate_signatures(&[no_point.clone()]).unwrap_err(),
        BlsError::InvalidSignature
    );
    assert_eq!(
        aggregate_public_keys(&[no_key.clone()]).unwrap_err(),
        BlsError::InvalidPublicKey
    );
    assert_eq!(BlsError::InvalidSignature.message(), "invalid signature bytes");
    assert_eq!(BlsError::InvalidPublicKey.message(), "invalid public key bytes");
    assert!(!bls_verify(&no_key, b"m", &sig));
    assert!(!bls_verify(&pair.public, b"m", &no_point));
    assert!(try_bls_sign(&BlsSecretKey([0; 32]), b"m").is_none());
    assert_eq!(try_bls_sign(&pair.secret, b"m").unwrap(), sig);
    let key = AggregatePublicKey { key: pair.public.clone(), participant_count: 2 };
    let agg = AggregateSignature { signature: sig, signers: vec![0], signer_count: 1 };
    assert!(!verify_aggregate(&key, b"other", &agg));
}

#[test]
fn bls_secrets_are_below_the_group_order() {
    let mut order = [
        0x73, 0xed, 0xa7, 0x53, 0x29, 0x9d, 0x7d, 0x48, 0x33, 0x39, 0xd8, 0x08, 0x09, 0xa1, 0xd8,
        0x05, 0x53, 0xbd, 0xa4, 0x02, 0xff, 0xfe, 0x5b, 0xfe, 0xff, 0xff, 0xff, 0xff, 0x00, 0x00,
        0x00, 0x01,
    ];
    assert!(try_bls_sign(&BlsSecretKey(order), b"m").is_none());
    order[31] = 0;
    assert!(try_bls_sign(&BlsSecretKey(order), b"m").is_some());
    assert!(try_bls_sign(&BlsSecretKey([0; 32]), b"m").is_none());
}

#[test]
fn thresholds_count_signers_alone() {
    let aggregate = |signer_count: usize| AggregateSignature {
        signature: BlsSignature([0; 96]),
        signers: vec![0, 0],
        signer_count,
    };
    let config = ThresholdConfig { total_signers: 4, threshold: 3 };
    assert!(!meets_threshold(&aggregate(2), &config));
    assert!(meets_threshold(&aggregate(3), &config));
    assert!(meets_threshold(&aggregate(9), &config));
}

#[test]
fn signatures_report_their_faults() {
    let message = hash_bytes(b"m");
    let pair = KeyPair::generate_ed25519();
    let address = pair.address();
    let short = Signature::Ed25519 { public_key: [1; 32], signature: vec![0; 63] };
    assert_eq!(
        short.verify(&message, &address).unwrap_err(),
        SignatureError::InvalidLength { expected: 64, got: 63 }
    );
    let other = KeyPair::generate_ed25519();
    let signed = other.sign(&message).unwrap();
    let error = signed.verify(&message, &address).unwrap_err();
    assert_eq!(
        error,
        SignatureError::AddressMismatch {
            expected: address.to_hex(),
            got: other.address().to_hex(),
        }
    );
    assert_eq!(
        error.message(),
        format!("address mismatch: expected {}, got {}", address.to_hex(), other.address().to_hex())
    );
    // No point of the curve has this encoding.
    let mut bytes = [0u8; 32];
    bytes[0] = 2;
    let no_key = Signature::Ed25519 { public_key: bytes, signature: vec![0; 64] };
    let its_address = arc_crypto::address_from_ed25519_pubkey(&bytes);
    assert_eq!(
        no_key.verify(&message, &its_address).unwrap_err(),
        SignatureError::InvalidPublicKey
    );
    let wrong = pair.sign(&hash_bytes(b"other")).unwrap();
    assert_eq!(
        wrong.verify(&message, &address).unwrap_err(),
        SignatureError::InvalidSignature
    );
    let secp = Signature::Secp256k1 { signature: vec![0; 64] };
    assert_eq!(
        secp.verify(&message, &address).unwrap_err(),
        SignatureError::InvalidLength { expected: 65, got: 64 }
    );
    let secp = Signature::Secp256k1 { signature: vec![9; 65] };
    assert_eq!(
        secp.verify(&message, &address).unwrap_err(),
        SignatureError::InvalidSignature
    );
    let ml = Signature::MlDsa65 { public_key: vec![0; 5], signature: vec![0; ML_DSA_SIG_LEN] };
    assert_eq!(
        ml.verify(&message, &address).unwrap_err(),
        SignatureError::InvalidPublicKey
    );
    let falcon = Signature::Falcon512 { public_key: vec![0; FALCON_PK_LEN], signature: vec![0; 2000] };
    assert!(matches!(
        falcon.verify(&message, &address),
        Err(SignatureError::InvalidLength { got: 2000, .. })
    ));
    let unsound = KeyPair::MlDsa65 { sk_bytes: vec![1], pk_bytes: vec![2] };
    assert!(matches!(unsound.sign(&message), Err(SignatureError::SigningFailed(_))));
    assert_eq!(Secp256k1Key::from_bytes(&[0; 32]).map(|k| k.to_bytes()), None);
    assert_eq!(Secp256k1Key::from_bytes(&[1; 32]).map(|k| k.to_bytes()), Some([1; 32]));
    let mut order = [0xff; 32];
    order[15..].copy_from_slice(&[
        0xfe, 0xba, 0xae, 0xdc, 0xe6, 0xaf, 0x48, 0xa0, 0x3b, 0xbf, 0xd2, 0x5e, 0x8c, 0xd0, 0x36,
        0x41, 0x41,
    ]);
    assert!(Secp256k1Key::from_bytes(&order).is_none());
    order[31] -= 1;
    assert!(Secp256k1Key::from_bytes(&order).is_some());
    assert_eq!(
        SignatureError::HashMismatch.message(),
        "hash mismatch: transaction data does not match hash"
    );
    assert_eq!(pair.redacted(), "KeyPair::Ed25519(<redacted>)");
}

#[test]
fn falcon_keys_of_unknown_origin_do_not_sign() {
    let message = hash_bytes(b"m");
    let short = KeyPair::Falcon512 { sk_bytes: vec![1; 5], pk_bytes: vec![0; FALCON_PK_LEN] };
    assert!(matches!(short.sign(&message), Err(SignatureError::SigningFailed(_))));
    assert!(matches!(short.try_sign(&message), Some(Err(SignatureError::SigningFailed(_)))));
    assert!(matches!(vrf_prove(&short, b"alpha"), Err(SignatureError::SigningFailed(_))));
    assert!(matches!(
        try_vrf_prove(&short, b"alpha"),
        Some(Err(SignatureError::SigningFailed(_)))
    ));
    let full = KeyPair::generate_falcon512();
    assert!(full.try_sign(&message).is_none());
    assert!(try_vrf_prove(&full, b"alpha").is_none());
    let other = KeyPair::generate_ed25519();
    let signature = other.try_sign(&message).unwrap().unwrap();
    assert_eq!(signature.verify(&message, &other.address()), Ok(()));
    let (proof, output) = try_vrf_prove(&other, b"alpha").unwrap().unwrap();
    assert_eq!(vrf_verify(&other.address(), b"alpha", &proof), Ok(output));
}

#[test]
fn only_the_null_signature_is_null() {
    assert!(Signature::null().is_null());
    let empty = Signature::Ed25519 { public_key: [7; 32], signature: vec![] };
    assert!(!empty.is_null());
    let longer = Signature::Ed25519 { public_key: [0; 32], signature: vec![0; 65] };
    assert!(!longer.is_null());
}

#[test]
fn batches_report_their_faults() {
    let message: &[u8] = b"m";
    let mut key = [0u8; 32];
    key.copy_from_slice(&KeyPair::generate_ed25519().public_key_bytes());
    assert_eq!(
        batch_verify_ed25519(&[message], &[[0; 64]], &[key]).unwrap_err(),
        SignatureError::BatchVerifyFailed
    );
    assert_eq!(
        batch_verify_ml_dsa(&[message], &[[0; ML_DSA_SIG_LEN]], &[[0; 1952]]).unwrap_err(),
        SignatureError::BatchVerifyFailed
    );
    assert_eq!(
        batch_verify_falcon512(&[message], &[b"bad"], &[b"bad"]).unwrap_err(),
        SignatureError::BatchVerifyFailed
    );
    assert!(falcon_sign(b"bad", message).is_err());
    assert!(!falcon_verify(b"bad", message, b"bad"));
}

#[test]
fn vrf_proofs_without_a_signature_are_refused() {
    let proof = VrfProof { gamma: Hash256([1; 32]), signature: Signature::null() };
    assert!(vrf_verify(&Hash256([2; 32]), b"alpha", &proof).is_err());
}

#[test]
fn pedersen_points_are_checked() {
    let good = commit_value(5);
    let bad = PedersenCommitment { point: [0xff; 32], blinding: [0; 32] };
    assert!(try_add_commitments(&good, &bad).is_none());
    assert!(try_add_commitments(&bad, &good).is_none());
    assert!(try_add_commitments(&good, &good).is_some());
    let opening = |c: &PedersenCommitment, value: u64| PedersenProof {
        commitment: c.point,
        value,
        blinding: c.blinding,
    };
    assert_eq!(
        batch_verify(&[opening(&good, 5), opening(&good, 6), opening(&bad, 5)]),
        vec![true, false, false]
    );
    let hashes = [hash_bytes(b"1")];
    assert!(try_aggregate_proofs(&hashes, &[]).is_none());
    assert!(try_aggregate_proofs(&hashes, &[bad]).is_none());
    assert!(try_aggregate_proofs(&hashes, &[good]).is_some());
}

fn layer() -> DenseLayerInput {
    DenseLayerInput {
        weights: vec![1, 2, 3, 4],
        bias: vec![5, 6],
        input: vec![7, 8],
        output: vec![28, 59],
        in_size: 2,
        out_size: 2,
    }
}

#[test]
fn dense_traces_report_their_faults() {
    let tampered = |col: usize, value: i64| {
        let mut trace = generate_dense_trace(&layer());
        trace[col][1] = value;
        verify_dense_trace(&trace).unwrap_err()
    };
    assert_eq!(tampered(0, 2), "Row 1: active not boolean (2)");
    assert_eq!(tampered(8, -1), "Row 1: is_last_col not boolean (-1)");
    assert_eq!(tampered(5, 15), "Row 1: product mismatch: 15 != 2 * 8");
    assert_eq!(tampered(7, 0), "Row 1: accumulation mismatch: 0 != 7 + 16");
    assert_eq!(tampered(10, 1), "Row 1: output mismatch: 1 != 23 + 5");
    assert_eq!(verify_dense_trace(&[]).unwrap_err(), "Expected 11 columns, got 0");
    assert_eq!(prove_folded_inference(&[]).unwrap_err(), "No layers to prove");
}

#[test]
fn wrong_layer_outputs_are_not_proved() {
    let fault = |layer: DenseLayerInput| prove_dense_layer(&layer).unwrap_err();
    assert!(prove_dense_layer(&layer()).is_ok());
    assert_eq!(
        fault(DenseLayerInput { output: vec![28, 60], ..layer() }),
        "Output 1 mismatch: 60 != 59"
    );
    assert_eq!(
        fault(DenseLayerInput { output: vec![28], ..layer() }),
        "Expected 2 outputs, got 1"
    );
    assert_eq!(
        fault(DenseLayerInput { bias: vec![5], ..layer() }),
        "Expected 2 biases, got 1"
    );
    let wrong = DenseLayerInput { output: vec![0, 59], ..layer() };
    assert_eq!(
        prove_folded_inference(&[layer(), wrong]).unwrap_err(),
        "Layer 1 proof failed: Output 0 mismatch: 0 != 28"
    );
}

fn account(tag: u8) -> [u8; 32] {
    [tag; 32]
}

fn transfer(amount: u64, nonce: u64) -> RollupTx {
    RollupTx { from: account(1), to: account(2), amount, nonce, signature: vec![] }
}

#[test]
fn rollups_report_their_faults() {
    let mut state = RollupState::new();
    state.credit(account(1), 10);
    let root = state.compute_state_root();
    let batch = |transactions: Vec<RollupTx>, pre: [u8; 32]| RollupBatch {
        batch_id: 1,
        transactions,
        pre_state_root: pre,
        post_state_root: [0; 32],
        rollup_proof: None,
    };
    assert_eq!(
        state.verify_batch(&batch(vec![], [9; 32])).unwrap_err(),
        "pre-state root mismatch"
    );
    assert_eq!(
        state.verify_batch(&batch(vec![transfer(1, 0), transfer(20, 1)], root)).unwrap_err(),
        "invalid transaction at index 1"
    );
    assert_eq!(state.clone().apply_batch(&[transfer(1, 5)]), Err(0));
    let fraud = FraudProof {
        batch_id: 1,
        invalid_tx_index: 0,
        expected_root: [0; 32],
        actual_root: [0; 32],
        witness: vec![],
    };
    assert_eq!(
        arc_crypto::zk_rollup::resolve_dispute(&fraud, &batch(vec![transfer(20, 0)], root), &state),
        DisputeResolution::ProverSlashed
    );
    let unrelated = FraudProof { batch_id: 2, ..fraud };
    assert_eq!(
        arc_crypto::zk_rollup::resolve_dispute(
            &unrelated,
            &batch(vec![transfer(20, 0)], root),
            &state
        ),
        DisputeResolution::NoFraud
    );
}

#[test]
fn rollup_proofs_are_checked_in_every_part() {
    let verifier = RollupVerifier::new(RollupConfig::default());
    // A nonce whose hash begins with a zero nibble.
    let proof_data = (0u32..)
        .map(|i| i.to_le_bytes().to_vec())
        .find(|d| blake3::hash(d).as_bytes()[0] < 0x10)
        .unwrap();
    let good = RollupProof {
        proof_data: proof_data.clone(),
        public_inputs: vec![1, 0, 0, 0, 2, 0, 0, 0],
        verification_key_hash: [1; 32],
        proof_type: RollupProofType::PLONK,
    };
    assert!(verifier.verify_proof(&good));
    assert!(!verifier.verify_proof(&RollupProof { proof_data: vec![], ..good.clone() }));
    assert!(!verifier.verify_proof(&RollupProof { public_inputs: vec![], ..good.clone() }));
    assert!(!verifier.verify_proof(&RollupProof { verification_key_hash: [0; 32], ..good.clone() }));
    assert!(!verifier
        .verify_proof(&RollupProof { proof_type: RollupProofType::STARK, ..good.clone() }));
    let mut pre = [0u8; 32];
    pre[0] = 1;
    let mut post = [0u8; 32];
    post[0] = 2;
    let batch = RollupBatch {
        batch_id: 0,
        transactions: vec![],
        pre_state_root: pre,
        post_state_root: post,
        rollup_proof: Some(good),
    };
    assert!(verifier.verify_state_transition(&batch));
    assert!(!verifier.verify_state_transition(&RollupBatch { rollup_proof: None, ..batch.clone() }));
    assert!(!verifier.verify_state_transition(&RollupBatch { post_state_root: pre, ..batch }));
}

#[test]
fn receipts_are_checked_in_every_part() {
    let receipt = StwoproofReceipt {
        version: 1,
        log_size: 4,
        pow_bits: 10,
        log_blowup_factor: 1,
        n_queries: 3,
        commitment_roots: vec![[1; 32]],
        binding_hash: [2; 32],
    };
    let bytes = receipt.to_bytes();
    assert!(StwoproofReceipt::from_bytes(&bytes).is_some());
    assert!(StwoproofReceipt::from_bytes(&bytes[..bytes.len() - 1]).is_none());
    assert!(StwoproofReceipt::from_bytes(&bytes[..20]).is_none());
    let mut other = bytes.clone();
    other[0] = 9;
    assert!(StwoproofReceipt::from_bytes(&other).is_none());
}

fn block_input(height: u64) -> BlockProofInput {
    BlockProofInput {
        height,
        block_hash: [1; 32],
        prev_state_root: [height as u8; 32],
        post_state_root: [height as u8 + 1; 32],
        tx_hashes: vec![],
        state_diffs: vec![],
        transfers: vec![],
    }
}

#[test]
fn stark_proofs_report_their_faults() {
    let mut proof = BlockProof::mock_prove(&block_input(1));
    proof.verifier_hash = [0; 32];
    let result = proof.verify();
    assert!(!result.is_valid);
    assert!(result.error.is_some());
    assert!(!verify_block_proof(&block_input(1), b"no receipt"));
    let proofs = [BlockProof::mock_prove(&block_input(1)), BlockProof::mock_prove(&block_input(2))];
    let recursive = RecursiveProof::from_block_proofs(&proofs).unwrap();
    assert!(recursive.verify().is_valid);
    let mut backwards = recursive.clone();
    backwards.start_height = 9;
    assert!(!backwards.verify().is_valid);
    let mut short = recursive.clone();
    short.proof_data.truncate(10);
    assert!(!short.verify().is_valid);
    let mut childless = recursive;
    childless.child_proofs.clear();
    assert!(!childless.verify().is_valid);
    assert!(RecursiveProof::from_block_proofs_with_inputs(&proofs, &[block_input(1)]).is_err());
}
