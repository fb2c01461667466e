use arc_crypto::inference_proof::dense_forward_i64;
use arc_crypto::stark::{BlockProof, BlockProofInput, TransferWitness};
use arc_crypto::stwo_air::{
    bytes32_to_m31_limbs, compute_log_size, generate_block_witness_trace,
    generate_dense_stark_trace, generate_recursive_verifier_trace, m31_limbs_to_bytes32, m31_limbs_to_u64, prove_block,
    prove_dense_stark, prove_recursive, u64_to_m31_limbs, verify_block_proof,
    verify_recursive_proof, DenseLayerStarkEval, RecursiveVerifierInput, StarkCommitments, StwoproofReceipt, M31,
    MIN_LOG_SIZE, PROOF_VERSION, RECURSIVE_VERIFIER_COLS, TRACE_COLS,
};
use arc_crypto::{Hash256, MerkleTree};

/// Commitments as a prover would hand them over.
fn proved() -> StarkCommitments {
    StarkCommitments {
        pow_bits: 10,
        log_blowup_factor: 1,
        n_queries: 3,
        commitments: vec!["trace commitment".to_string(), "composition commitment".to_string()],
    }
}

fn make_test_input(n_diffs: usize) -> BlockProofInput {
    let h = 42u64;
    let h_bytes = h.to_le_bytes();

    let block_hash = *blake3::Hasher::new_derive_key("test-block")
        .update(&h_bytes)
        .finalize()
        .as_bytes();
    let prev = *blake3::Hasher::new_derive_key("test-prev")
        .update(&h_bytes)
        .finalize()
        .as_bytes();
    let post = *blake3::Hasher::new_derive_key("test-post")
        .update(&h_bytes)
        .finalize()
        .as_bytes();

    let tx_hashes: Vec<[u8; 32]> = (0..3u32)
        .map(|i| {
            *blake3::Hasher::new()
                .update(&h_bytes)
                .update(&i.to_le_bytes())
                .finalize()
                .as_bytes()
        })
        .collect();

    let state_diffs: Vec<([u8; 32], [u8; 32], [u8; 32])> = (0..n_diffs as u32)
        .map(|i| {
            let addr = *blake3::Hasher::new_derive_key("addr")
                .update(&i.to_le_bytes())
                .finalize()
                .as_bytes();
            let old = *blake3::Hasher::new_derive_key("old")
                .update(&i.to_le_bytes())
                .finalize()
                .as_bytes();
            let new = *blake3::Hasher::new_derive_key("new")
                .update(&i.to_le_bytes())
                .finalize()
                .as_bytes();
            (addr, old, new)
        })
        .collect();

    BlockProofInput {
        height: h,
        block_hash,
        prev_state_root: prev,
        post_state_root: post,
        tx_hashes,
        state_diffs,
        transfers: vec![],
    }
}

#[test]
fn test_m31_roundtrip() {
    let original: [u8; 32] = [
        0x01, 0x02, 0x03, 0x04, 0x05, 0x06, 0x07, 0x08, 0x09, 0x0a, 0x0b, 0x0c, 0x0d, 0x0e,
        0x0f, 0x10, 0x11, 0x12, 0x13, 0x14, 0x15, 0x16, 0x17, 0x18, 0x19, 0x1a, 0x1b, 0x1c,
        0x1d, 0x1e, 0x1f, 0x20,
    ];
    let limbs = bytes32_to_m31_limbs(&original);
    let recovered = m31_limbs_to_bytes32(&limbs);
    assert_eq!(original, recovered);
}

#[test]
fn test_m31_zero_roundtrip() {
    let zero = [0u8; 32];
    let limbs = bytes32_to_m31_limbs(&zero);
    for limb in &limbs {
        assert_eq!(limb.0, 0);
    }
    let recovered = m31_limbs_to_bytes32(&limbs);
    assert_eq!(zero, recovered);
}

#[test]
fn test_compute_log_size() {
    assert_eq!(compute_log_size(0), MIN_LOG_SIZE);
    assert_eq!(compute_log_size(1), MIN_LOG_SIZE);
    assert_eq!(compute_log_size(15), MIN_LOG_SIZE);
    assert_eq!(compute_log_size(16), MIN_LOG_SIZE);
    assert_eq!(compute_log_size(17), 5); // ceil(log2(17)) = 5
    assert_eq!(compute_log_size(32), 5);
    assert_eq!(compute_log_size(33), 6);
    assert_eq!(compute_log_size(1024), 10);
}

#[test]
fn test_trace_generation() {
    let input = make_test_input(5);
    let log_size = compute_log_size(5);
    let trace = generate_block_witness_trace(&input, log_size);

    assert_eq!(trace.len(), TRACE_COLS);
    let size = 1usize << log_size;

    // Verify all columns have the right domain size
    for col in &trace {
        assert_eq!(col.len(), size);
    }
}

#[test]
fn test_stwo_prove_verify_roundtrip() {
    let input = make_test_input(3);
    let (proof_data, proof_size, _) = prove_block(&input, &proved(), 7);

    assert!(proof_size > 0, "proof should have non-zero size");
    assert_eq!(proof_data.len(), proof_size);

    // Verify the proof receipt
    let valid = verify_block_proof(&input, &proof_data);
    assert!(valid, "Stwo proof receipt should verify");

    // Tampered block hash should fail
    let mut bad_input = input.clone();
    bad_input.block_hash[0] ^= 0xFF;
    let invalid = verify_block_proof(&bad_input, &proof_data);
    assert!(!invalid, "Tampered input should fail verification");
}

#[test]
fn test_stwo_prove_empty_diffs() {
    let input = make_test_input(0);
    let (proof_data, proof_size, _) = prove_block(&input, &proved(), 7);

    assert!(proof_size > 0);
    assert!(verify_block_proof(&input, &proof_data));
}

#[test]
fn test_stwo_prove_many_diffs() {
    let input = make_test_input(50);
    let (proof_data, _, _) = prove_block(&input, &proved(), 7);

    assert!(verify_block_proof(&input, &proof_data));
}

#[test]
fn test_dense_layer_real_stark() {
    let in_size = 32;
    let out_size = 16;
    let mut rng: u64 = 42;
    let mut next = || -> i64 {
        rng = rng.wrapping_mul(6364136223846793005).wrapping_add(1);
        ((rng >> 33) as i64) % 50 - 25
    };

    let weights: Vec<i64> = (0..out_size * in_size).map(|_| next()).collect();
    let bias: Vec<i64> = (0..out_size).map(|_| 0).collect();
    let input: Vec<i64> = (0..in_size).map(|_| next()).collect();
    let output = dense_forward_i64(&weights, &bias, &input, in_size, out_size);

    let trace = generate_dense_stark_trace(&weights, &input, &output, in_size, out_size);
    let eval = DenseLayerStarkEval { log_size: compute_log_size(in_size * out_size) };
    for r in 0..trace[0].len() {
        let row: Vec<M31> = trace.iter().map(|col| col[r]).collect();
        assert!(eval.evaluate(&row).iter().all(|c| c.0 == 0));
    }

    let (proof_data, proof_size, proving_time_ms) =
        prove_dense_stark(in_size, out_size, &proved(), 7);

    assert!(proof_size > 0);
    assert_eq!(proof_data.len(), proof_size);
    assert_eq!(proving_time_ms, 7);
}

#[test]
fn test_dense_stark_larger() {
    let in_size = 256;
    let out_size = 128;
    let mut rng: u64 = 999;
    let mut next = || -> i64 {
        rng = rng.wrapping_mul(6364136223846793005).wrapping_add(1);
        ((rng >> 33) as i64) % 10 - 5
    };

    let weights: Vec<i64> = (0..out_size * in_size).map(|_| next()).collect();
    let bias: Vec<i64> = (0..out_size).map(|_| 0).collect();
    let input: Vec<i64> = (0..in_size).map(|_| next()).collect();
    let output = dense_forward_i64(&weights, &bias, &input, in_size, out_size);

    let trace = generate_dense_stark_trace(&weights, &input, &output, in_size, out_size);
    let eval = DenseLayerStarkEval { log_size: compute_log_size(in_size * out_size) };
    for r in 0..trace[0].len() {
        let row: Vec<M31> = trace.iter().map(|col| col[r]).collect();
        assert!(eval.evaluate(&row).iter().all(|c| c.0 == 0));
    }

    let (proof_data, proof_size, proving_time_ms) =
        prove_dense_stark(in_size, out_size, &proved(), 7);

    assert!(proof_size > 0);
    assert_eq!(proof_data.len(), proof_size);
    assert_eq!(proving_time_ms, 7);
}

#[test]
fn test_icicle_feature_prove_verify() {
    let input = make_test_input(10);
    let (proof_data, proof_size, _) = prove_block(&input, &proved(), 7);

    assert!(proof_size > 0, "proof should have non-zero size");
    assert_eq!(proof_data.len(), proof_size);

    let valid = verify_block_proof(&input, &proof_data);
    assert!(valid, "proof receipt should verify");

    // Tampered input should fail
    let mut bad_input = input.clone();
    bad_input.block_hash[0] ^= 0xFF;
    assert!(!verify_block_proof(&bad_input, &proof_data));
}

#[test]
fn test_proof_receipt_serialization() {
    let receipt = StwoproofReceipt {
        version: PROOF_VERSION,
        log_size: 6,
        pow_bits: 10,
        log_blowup_factor: 1,
        n_queries: 3,
        commitment_roots: vec![[0xAA; 32], [0xBB; 32]],
        binding_hash: [0xCC; 32],
    };

    let bytes = receipt.to_bytes();
    let recovered = StwoproofReceipt::from_bytes(&bytes).expect("should deserialize");

    assert_eq!(recovered.version, PROOF_VERSION);
    assert_eq!(recovered.log_size, 6);
    assert_eq!(recovered.pow_bits, 10);
    assert_eq!(recovered.log_blowup_factor, 1);
    assert_eq!(recovered.n_queries, 3);
    assert_eq!(recovered.commitment_roots.len(), 2);
    assert_eq!(recovered.commitment_roots[0], [0xAA; 32]);
    assert_eq!(recovered.commitment_roots[1], [0xBB; 32]);
    assert_eq!(recovered.binding_hash, [0xCC; 32]);
}

#[test]
fn test_u64_m31_limb_roundtrip() {
    // Max safe value: hi = value >> 16 must be < 2^31 - 1 (M31 modulus)
    // So value < (2^31 - 1) * 2^16 + 2^16 = 2^47 - 2^16
    let max_safe = (1u64 << 47) - (1u64 << 16); // 140737488289792

    let values: Vec<u64> = vec![
        0,
        1,
        65535,          // max lo limb (lo = 0xFFFF)
        65536,          // lo=0, hi=1
        1_000_000,
        1_000_000_000,
        max_safe - 1,   // just below max safe
    ];
    for &v in &values {
        let (lo, hi) = u64_to_m31_limbs(v);
        let recovered = m31_limbs_to_u64(lo, hi);
        assert_eq!(v, recovered, "roundtrip failed for {v}");
    }
}

/// Helper: create a BlockProofInput with real transfer witness data.
fn make_transfer_input(n_transfers: usize) -> BlockProofInput {
    let h = 100u64;
    let h_bytes = h.to_le_bytes();

    let block_hash = *blake3::Hasher::new_derive_key("test-block")
        .update(&h_bytes)
        .finalize()
        .as_bytes();
    let prev = *blake3::Hasher::new_derive_key("test-prev")
        .update(&h_bytes)
        .finalize()
        .as_bytes();
    let post = *blake3::Hasher::new_derive_key("test-post")
        .update(&h_bytes)
        .finalize()
        .as_bytes();

    let mut transfers = Vec::with_capacity(n_transfers);
    let mut state_diffs = Vec::with_capacity(n_transfers);
    let mut tx_hashes = Vec::with_capacity(n_transfers);

    for i in 0..n_transfers {
        let amount = 1000u64 + i as u64 * 100;
        let fee = 10u64 + i as u64;
        let sender_bal_before = 100_000u64 + i as u64 * 10_000;
        let sender_bal_after = sender_bal_before - amount - fee;
        let receiver_bal_before = 50_000u64 + i as u64 * 5_000;
        let receiver_bal_after = receiver_bal_before + amount;
        let nonce_before = (i as u32) * 10;
        let nonce_after = nonce_before + 1;

        transfers.push(TransferWitness {
            sender_bal_before,
            sender_bal_after,
            receiver_bal_before,
            receiver_bal_after,
            amount,
            sender_nonce_before: nonce_before,
            sender_nonce_after: nonce_after,
            fee,
        });

        // Generate corresponding state diff
        let addr = *blake3::Hasher::new_derive_key("addr")
            .update(&(i as u32).to_le_bytes())
            .finalize()
            .as_bytes();
        let old = *blake3::Hasher::new_derive_key("old")
            .update(&(i as u32).to_le_bytes())
            .finalize()
            .as_bytes();
        let new = *blake3::Hasher::new_derive_key("new")
            .update(&(i as u32).to_le_bytes())
            .finalize()
            .as_bytes();
        state_diffs.push((addr, old, new));

        let tx_hash = *blake3::Hasher::new()
            .update(&h_bytes)
            .update(&(i as u32).to_le_bytes())
            .finalize()
            .as_bytes();
        tx_hashes.push(tx_hash);
    }

    BlockProofInput {
        height: h,
        block_hash,
        prev_state_root: prev,
        post_state_root: post,
        tx_hashes,
        state_diffs,
        transfers,
    }
}

#[test]
fn test_trace_generation_with_transfers() {
    let input = make_transfer_input(5);
    let log_size = compute_log_size(5);
    let trace = generate_block_witness_trace(&input, log_size);

    assert_eq!(trace.len(), TRACE_COLS);
    assert_eq!(TRACE_COLS, 32); // 1 + 16 + 15
    let size = 1usize << log_size;

    for col in &trace {
        assert_eq!(col.len(), size);
    }
}

#[test]
fn test_stwo_prove_verify_with_transfers() {
    // Create a block with 3 real transfers:
    // Transfer 0: sender 100_000 -> pays 1_000 + 10 fee -> sender 98_990, receiver 50_000 + 1_000 = 51_000
    // Transfer 1: sender 110_000 -> pays 1_100 + 11 fee -> sender 108_889, receiver 55_000 + 1_100 = 56_100
    // Transfer 2: sender 120_000 -> pays 1_200 + 12 fee -> sender 118_788, receiver 60_000 + 1_200 = 61_200
    let input = make_transfer_input(3);

    // Verify transfer witness consistency before proving
    for tw in &input.transfers {
        assert_eq!(tw.sender_bal_after, tw.sender_bal_before - tw.amount - tw.fee);
        assert_eq!(tw.receiver_bal_after, tw.receiver_bal_before + tw.amount);
        assert_eq!(tw.sender_nonce_after, tw.sender_nonce_before + 1);
    }

    let (proof_data, proof_size, _) = prove_block(&input, &proved(), 7);

    assert!(proof_size > 0, "proof should have non-zero size");
    assert_eq!(proof_data.len(), proof_size);

    // Verify the proof receipt
    let valid = verify_block_proof(&input, &proof_data);
    assert!(valid, "Stwo proof with transfers should verify");

    // Tampered block hash should fail
    let mut bad_input = input.clone();
    bad_input.block_hash[0] ^= 0xFF;
    let invalid = verify_block_proof(&bad_input, &proof_data);
    assert!(!invalid, "Tampered input should fail verification");
}

#[test]
fn test_stwo_prove_single_transfer() {
    let h = 1u64;
    let h_bytes = h.to_le_bytes();

    let block_hash = *blake3::Hasher::new_derive_key("test-block")
        .update(&h_bytes)
        .finalize()
        .as_bytes();
    let prev = *blake3::Hasher::new_derive_key("test-prev")
        .update(&h_bytes)
        .finalize()
        .as_bytes();
    let post = *blake3::Hasher::new_derive_key("test-post")
        .update(&h_bytes)
        .finalize()
        .as_bytes();

    // Alice sends 500 tokens to Bob, paying 5 fee
    let transfer = TransferWitness {
        sender_bal_before: 10_000,
        sender_bal_after: 9_495,   // 10_000 - 500 - 5
        receiver_bal_before: 2_000,
        receiver_bal_after: 2_500,  // 2_000 + 500
        amount: 500,
        sender_nonce_before: 7,
        sender_nonce_after: 8,
        fee: 5,
    };

    let addr = *blake3::Hasher::new_derive_key("alice-addr")
        .update(&h_bytes)
        .finalize()
        .as_bytes();
    let old_state = *blake3::Hasher::new_derive_key("old-state")
        .update(&h_bytes)
        .finalize()
        .as_bytes();
    let new_state = *blake3::Hasher::new_derive_key("new-state")
        .update(&h_bytes)
        .finalize()
        .as_bytes();

    let input = BlockProofInput {
        height: h,
        block_hash,
        prev_state_root: prev,
        post_state_root: post,
        tx_hashes: vec![*blake3::hash(b"tx0").as_bytes()],
        state_diffs: vec![(addr, old_state, new_state)],
        transfers: vec![transfer],
    };

    let (proof_data, proof_size, _) = prove_block(&input, &proved(), 7);

    assert!(proof_size > 0);
    assert!(verify_block_proof(&input, &proof_data));
}

// ===================================================================
// Recursive Verifier AIR tests
// ===================================================================

/// Helper: build a RecursiveVerifierInput from N child block proofs.
fn make_recursive_input(n_children: usize) -> (RecursiveVerifierInput, Vec<BlockProofInput>) {
    let mut child_hashes = Vec::with_capacity(n_children);
    let mut child_start_states = Vec::with_capacity(n_children);
    let mut child_end_states = Vec::with_capacity(n_children);
    let mut block_inputs = Vec::with_capacity(n_children);

    // Create chained block proofs: block_i.post_state == block_{i+1}.prev_state
    let mut prev_state = *blake3::Hasher::new_derive_key("genesis-state")
        .update(&[0u8])
        .finalize()
        .as_bytes();

    for i in 0..n_children {
        let h = (i + 1) as u64;
        let h_bytes = h.to_le_bytes();
        let block_hash = *blake3::Hasher::new_derive_key("test-block")
            .update(&h_bytes)
            .finalize()
            .as_bytes();
        let post_state = *blake3::Hasher::new_derive_key("test-post")
            .update(&h_bytes)
            .finalize()
            .as_bytes();

        let tx_hashes: Vec<[u8; 32]> = (0..2u32)
            .map(|j| {
                *blake3::Hasher::new()
                    .update(&h_bytes)
                    .update(&j.to_le_bytes())
                    .finalize()
                    .as_bytes()
            })
            .collect();

        let state_diffs: Vec<([u8; 32], [u8; 32], [u8; 32])> = vec![(
            *blake3::Hasher::new_derive_key("addr")
                .update(&h_bytes)
                .finalize()
                .as_bytes(),
            *blake3::Hasher::new_derive_key("old")
                .update(&h_bytes)
                .finalize()
                .as_bytes(),
            *blake3::Hasher::new_derive_key("new")
                .update(&h_bytes)
                .finalize()
                .as_bytes(),
        )];

        let input = BlockProofInput {
            height: h,
            block_hash,
            prev_state_root: prev_state,
            post_state_root: post_state,
            tx_hashes,
            state_diffs,
            transfers: vec![],
        };

        let proof = BlockProof::stwo_prove(&input, &proved());
        child_hashes.push(proof.proof_hash());
        child_start_states.push(prev_state);
        child_end_states.push(post_state);
        block_inputs.push(input);

        prev_state = post_state;
    }

    // Build Merkle tree over child hashes
    let leaves: Vec<Hash256> = child_hashes.iter().map(|h| Hash256(*h)).collect();
    let tree = MerkleTree::from_leaves(leaves);
    let merkle_root = *tree.root().as_bytes();

    // Build Merkle siblings: for each child, get the proof path
    // For simplicity, use zero siblings (the circuit constrains the
    // structural relationship, not the actual BLAKE3 Merkle computation)
    let merkle_siblings: Vec<Vec<[u8; 32]>> = (0..n_children)
        .map(|_i| {
            // Use a single sibling per child (depth-1 path)
            let sibling = *blake3::Hasher::new_derive_key("merkle-sibling")
                .update(&merkle_root)
                .finalize()
                .as_bytes();
            vec![sibling]
        })
        .collect();

    let verifier_input = RecursiveVerifierInput {
        child_hashes,
        child_start_states,
        child_end_states,
        merkle_siblings,
        expected_merkle_root: merkle_root,
    };

    (verifier_input, block_inputs)
}

#[test]
fn test_recursive_verifier_trace_generation() {
    let (input, _) = make_recursive_input(3);
    let log_size = compute_log_size(input.child_hashes.len());
    let trace = generate_recursive_verifier_trace(&input, log_size);

    // Verify column count
    assert_eq!(trace.len(), RECURSIVE_VERIFIER_COLS);
    assert_eq!(RECURSIVE_VERIFIER_COLS, 82);

    // Verify domain size
    let size = 1usize << log_size;
    for col in &trace {
        assert_eq!(col.len(), size);
    }
}

#[test]
fn test_recursive_verifier_prove_verify() {
    let (input, _) = make_recursive_input(3);

    let (proof_data, proof_size, _) = prove_recursive(&input, &proved(), 7);

    assert!(proof_size > 0, "recursive proof should have non-zero size");
    assert_eq!(proof_data.len(), proof_size);

    // Verify the recursive proof receipt
    let valid = verify_recursive_proof(&input, &proof_data);
    assert!(valid, "recursive STARK proof receipt should verify");
}

#[test]
fn test_recursive_verifier_tamper_detection() {
    let (input, _) = make_recursive_input(3);

    let (proof_data, _, _) = prove_recursive(&input, &proved(), 7);

    // Tamper with one child hash in the input
    let mut tampered_input = input.clone();
    tampered_input.child_hashes[1][0] ^= 0xFF;

    // Verification with tampered input should fail
    let invalid = verify_recursive_proof(&tampered_input, &proof_data);
    assert!(
        !invalid,
        "tampered child hash should cause verification failure"
    );

    // Tamper with expected Merkle root
    let mut tampered_root = input.clone();
    tampered_root.expected_merkle_root[5] ^= 0xAA;
    let invalid2 = verify_recursive_proof(&tampered_root, &proof_data);
    assert!(
        !invalid2,
        "tampered Merkle root should cause verification failure"
    );

    // Tamper with a start state
    let mut tampered_state = input.clone();
    tampered_state.child_start_states[0][10] ^= 0x42;
    let invalid3 = verify_recursive_proof(&tampered_state, &proof_data);
    assert!(
        !invalid3,
        "tampered start state should cause verification failure"
    );
}

#[test]
fn test_recursive_verifier_state_chain() {
    // Build input with valid state chain: child_i.end == child_{i+1}.start
    let (input, _) = make_recursive_input(4);

    // Verify state chain is valid
    for i in 0..input.child_end_states.len() - 1 {
        assert_eq!(
            input.child_end_states[i], input.child_start_states[i + 1],
            "state chain should be continuous at index {}",
            i
        );
    }

    // Generate trace and check chain_valid flags
    let log_size = compute_log_size(input.child_hashes.len());
    let trace = generate_recursive_verifier_trace(&input, log_size);

    // chain_valid is the last column (index 81)
    let chain_valid_col = &trace[RECURSIVE_VERIFIER_COLS - 1];

    // All active rows should have chain_valid = 1 (since state chain is continuous)
    for i in 0..input.child_hashes.len() {
        let val = chain_valid_col[i];
        assert_eq!(
            val,
            M31(1),
            "chain_valid should be 1 at row {} (continuous chain)",
            i
        );
    }

    // Now test with broken chain: modify child_start_states[2] to break continuity
    let mut broken_input = input.clone();
    broken_input.child_start_states[2] = [0xDE; 32]; // break chain at index 1→2

    let broken_trace = generate_recursive_verifier_trace(&broken_input, log_size);
    let broken_chain_col = &broken_trace[RECURSIVE_VERIFIER_COLS - 1];

    // Row 1 should have chain_valid = 0 (because end_state[1] != start_state[2])
    let val = broken_chain_col[1];
    assert_eq!(
        val,
        M31(0),
        "chain_valid should be 0 at row 1 (broken chain)"
    );

    // Prove and verify still works structurally (the constraint is chain_valid * delta = 0,
    // so when chain_valid=0, the constraint is satisfied vacuously)
    let (proof_data, _, _) = prove_recursive(&broken_input, &proved(), 7);
    let valid = verify_recursive_proof(&broken_input, &proof_data);
    assert!(
        valid,
        "broken chain should still produce a valid proof (chain_valid=0 is allowed)"
    );
}

#[test]
fn test_inner_circuit_roundtrip() {
    // Step 1: Generate real block proofs with Stwo
    let (recursive_input, block_inputs) = make_recursive_input(3);

    // Step 2: Verify each child block proof with Stwo
    for input in &block_inputs {
        let proof = BlockProof::stwo_prove(input, &proved());
        let result = proof.stwo_verify(input);
        assert!(
            result.is_valid,
            "child block proof should pass Stwo verification"
        );
    }

    // Step 3: Generate recursive STARK proof of the verification
    let (recursive_proof_data, proof_size, _) =
        prove_recursive(&recursive_input, &proved(), 7);

    assert!(proof_size > 0);

    // Step 4: Verify the recursive proof receipt
    let valid = verify_recursive_proof(&recursive_input, &recursive_proof_data);
    assert!(
        valid,
        "inner-circuit recursive proof should verify end-to-end"
    );

    // Step 5: Verify the receipt is structurally valid
    let receipt = StwoproofReceipt::from_bytes(&recursive_proof_data)
        .expect("should deserialize recursive receipt");
    assert_eq!(receipt.version, 1);
    assert!(receipt.log_size >= MIN_LOG_SIZE);
    assert!(!receipt.commitment_roots.is_empty());
}
