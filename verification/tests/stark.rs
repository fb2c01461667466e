use arc_crypto::stark::{
    extract_child_count, extract_merkle_root, extract_state_hash, extract_version, BlockProof,
    BlockProofInput, ProofHashType, ProofType, ProverConfig, ProvingPipeline, RecursiveProof,
    PROOF_DATA_HEADER_LEN, PROOF_DATA_MERKLE_OFF, RECURSIVE_PROOF_VERSION,
};
use arc_crypto::stwo_air::{verify_recursive_proof, RecursiveVerifierInput, StarkCommitments};
use arc_crypto::{Hash256, MerkleTree};

fn blake3_hash(data: &[u8]) -> [u8; 32] {
    *blake3::hash(data).as_bytes()
}

fn blake3_domain_hash(domain: &str, data: &[u8]) -> [u8; 32] {
    blake3::derive_key(domain, data)
}

/// Commitments as a prover would hand them over.
fn proved() -> StarkCommitments {
    StarkCommitments {
        pow_bits: 10,
        log_blowup_factor: 1,
        n_queries: 3,
        commitments: vec!["trace commitment".to_string(), "composition commitment".to_string()],
    }
}

/// Helper: create a deterministic `BlockProofInput` for height `h`.
fn make_input(h: u64) -> BlockProofInput {
    let h_bytes = h.to_le_bytes();
    let block_hash = blake3_domain_hash("test-block", &h_bytes);
    let prev = blake3_domain_hash("test-prev", &h_bytes);
    let post = blake3_domain_hash("test-post", &h_bytes);

    let tx_hashes: Vec<[u8; 32]> = (0..5u32)
        .map(|i| {
            let mut buf = Vec::new();
            buf.extend_from_slice(&h_bytes);
            buf.extend_from_slice(&i.to_le_bytes());
            blake3_hash(&buf)
        })
        .collect();

    let state_diffs = vec![(
        blake3_domain_hash("addr", &h_bytes),
        blake3_domain_hash("old", &h_bytes),
        blake3_domain_hash("new", &h_bytes),
    )];

    BlockProofInput {
        height: h,
        block_hash,
        prev_state_root: prev,
        post_state_root: post,
        tx_hashes,
        state_diffs,
        transfers: vec![],
    }
}

// 1. Mock prove + verify
#[test]
fn test_block_proof_mock() {
    let input = make_input(42);
    let proof = BlockProof::mock_prove(&input);

    assert_eq!(proof.block_height, 42);
    assert_eq!(proof.tx_count, 5);
    assert_eq!(proof.block_hash, input.block_hash);
    assert_eq!(proof.prev_state_root, input.prev_state_root);
    assert_eq!(proof.post_state_root, input.post_state_root);
    assert!(!proof.proof_data.is_empty());
    assert_eq!(proof.proof_size_bytes, proof.proof_data.len());

    let result = proof.verify();
    assert!(result.is_valid);
    assert_eq!(result.proof_type, ProofType::Block);
    assert!(result.error.is_none());
}

// 2. Same input = same hash
#[test]
fn test_block_proof_hash_deterministic() {
    let input = make_input(100);
    let proof_a = BlockProof::mock_prove(&input);
    let proof_b = BlockProof::mock_prove(&input);

    assert_eq!(proof_a.proof_hash(), proof_b.proof_hash());
    assert_eq!(proof_a.proof_data, proof_b.proof_data);
}

// 3. Aggregate 5 block proofs
#[test]
fn test_recursive_from_blocks() {
    let proofs: Vec<BlockProof> = (10..15).map(|h| BlockProof::mock_prove(&make_input(h))).collect();

    let recursive = RecursiveProof::from_block_proofs(&proofs).unwrap();

    assert_eq!(recursive.start_height, 10);
    assert_eq!(recursive.end_height, 14);
    assert_eq!(recursive.block_count, 5);
    assert_eq!(recursive.total_tx_count, 25); // 5 tx per block * 5 blocks
    assert_eq!(recursive.child_proofs.len(), 5);
    assert_eq!(recursive.depth, 1);
    assert_eq!(recursive.start_state_root, proofs[0].prev_state_root);
    assert_eq!(recursive.end_state_root, proofs[4].post_state_root);

    let result = recursive.verify();
    assert!(result.is_valid);
    assert_eq!(result.proof_type, ProofType::Recursive);
}

// 4. Recurse over 2 recursive proofs
#[test]
fn test_recursive_from_recursive() {
    let proofs_a: Vec<BlockProof> = (0..5).map(|h| BlockProof::mock_prove(&make_input(h))).collect();
    let proofs_b: Vec<BlockProof> = (5..10).map(|h| BlockProof::mock_prove(&make_input(h))).collect();

    let rec_a = RecursiveProof::from_block_proofs(&proofs_a).unwrap();
    let rec_b = RecursiveProof::from_block_proofs(&proofs_b).unwrap();

    assert_eq!(rec_a.depth, 1);
    assert_eq!(rec_b.depth, 1);

    let deep = RecursiveProof::from_recursive_proofs(&[rec_a, rec_b]).unwrap();

    assert_eq!(deep.start_height, 0);
    assert_eq!(deep.end_height, 9);
    assert_eq!(deep.block_count, 10);
    assert_eq!(deep.total_tx_count, 50);
    assert_eq!(deep.child_proofs.len(), 2);
    assert_eq!(deep.depth, 2);

    let result = deep.verify();
    assert!(result.is_valid);
    assert_eq!(result.proof_type, ProofType::Aggregate);
}

// 5. Range check
#[test]
fn test_recursive_spans_range() {
    let proofs: Vec<BlockProof> = (100..110).map(|h| BlockProof::mock_prove(&make_input(h))).collect();
    let recursive = RecursiveProof::from_block_proofs(&proofs).unwrap();

    assert!(recursive.spans_range(100));
    assert!(recursive.spans_range(105));
    assert!(recursive.spans_range(109));
    assert!(!recursive.spans_range(99));
    assert!(!recursive.spans_range(110));
}

// 6. Submit blocks to pipeline
#[test]
fn test_proving_pipeline_submit() {
    let mut pipeline = ProvingPipeline::new(ProverConfig::default_config());

    assert_eq!(pipeline.pending_count(), 0);

    pipeline.submit_block(make_input(1));
    pipeline.submit_block(make_input(2));
    pipeline.submit_block(make_input(3));

    assert_eq!(pipeline.pending_count(), 3);
    assert_eq!(pipeline.blocks_behind(), 0); // Nothing proven yet
}

// 7. Prove pending returns proofs
#[test]
fn test_proving_pipeline_prove() {
    let mut pipeline = ProvingPipeline::new(ProverConfig::default_config());

    for h in 0..5 {
        pipeline.submit_block(make_input(h));
    }
    assert_eq!(pipeline.pending_count(), 5);

    let proofs = pipeline.prove_pending();

    assert_eq!(proofs.len(), 5);
    assert_eq!(pipeline.pending_count(), 0);
    assert_eq!(pipeline.blocks_behind(), 5); // 5 proven, not yet recursive-aggregated

    // Each proof should verify
    for proof in &proofs {
        assert!(proof.verify().is_valid);
    }
}

// 8. Auto-recurse at threshold
#[test]
fn test_proving_pipeline_recursive() {
    let config = ProverConfig {
        recursion_threshold: 4,
        ..ProverConfig::default_config()
    };
    let mut pipeline = ProvingPipeline::new(config);

    // Submit and prove 3 blocks — not enough for recursion
    for h in 0..3 {
        pipeline.submit_block(make_input(h));
    }
    pipeline.prove_pending();
    assert!(pipeline.try_recursive().is_none());
    assert_eq!(pipeline.blocks_behind(), 3);

    // Submit and prove 1 more — now we have 4, meeting threshold
    pipeline.submit_block(make_input(3));
    pipeline.prove_pending();
    assert_eq!(pipeline.blocks_behind(), 4);

    let recursive = pipeline.try_recursive();
    assert!(recursive.is_some());

    let rp = recursive.unwrap();
    assert_eq!(rp.start_height, 0);
    assert_eq!(rp.end_height, 3);
    assert_eq!(rp.block_count, 4);
    assert!(rp.verify().is_valid);

    // blocks_behind should be 0 now (all consumed by recursive proof)
    assert_eq!(pipeline.blocks_behind(), 0);

    // The pipeline should remember the recursive proof
    assert!(pipeline.latest_recursive_proof().is_some());
}

// 9. Stats tracked correctly
#[test]
fn test_proving_stats() {
    let config = ProverConfig {
        recursion_threshold: 3,
        ..ProverConfig::fast_config()
    };
    let mut pipeline = ProvingPipeline::new(config);

    for h in 0..6 {
        pipeline.submit_block(make_input(h));
    }

    pipeline.prove_pending();

    let stats = pipeline.stats();
    assert_eq!(stats.blocks_proven, 6);
    assert!(stats.total_proof_bytes > 0);
    let avg_block_proof_time_ms = stats.block_proof_time_sum_ms as f64 / stats.blocks_proven as f64;
    assert!(avg_block_proof_time_ms >= 0.0);

    // Generate recursive proofs
    pipeline.try_recursive(); // consumes first 3
    pipeline.try_recursive(); // consumes next 3

    let stats = pipeline.stats();
    assert_eq!(stats.recursive_proofs_generated, 2);
}

// 10. Config defaults are reasonable
#[test]
fn test_prover_config_defaults() {
    let default = ProverConfig::default_config();
    assert_eq!(default.field_size_bits, 64);
    assert_eq!(default.hash_function, ProofHashType::Poseidon);
    assert!(default.max_constraints > 0);
    assert!(default.recursion_threshold > 0);
    assert!(default.target_proof_size > 0);
    assert!(!default.gpu_acceleration);

    let fast = ProverConfig::fast_config();
    assert!(fast.max_constraints < default.max_constraints);
    assert!(fast.recursion_threshold < default.recursion_threshold);
    assert_eq!(fast.hash_function, ProofHashType::Blake3);

    let prod = ProverConfig::production_config();
    assert!(prod.max_constraints > default.max_constraints);
    assert!(prod.recursion_threshold > default.recursion_threshold);
    assert!(prod.gpu_acceleration);
}

// 11. Recursive proof rejects invalid child block proof
#[test]
fn test_recursive_proof_rejects_invalid_child() {
    let mut proofs: Vec<BlockProof> = (0..4)
        .map(|h| BlockProof::mock_prove(&make_input(h)))
        .collect();

    // Corrupt the verifier_hash of the third proof to make it fail verification
    proofs[2].verifier_hash = [0xFFu8; 32];

    // Sanity: the corrupted proof should fail individual verification
    assert!(!proofs[2].verify().is_valid);

    // from_block_proofs should return Err because child 2 fails verification
    let result = RecursiveProof::from_block_proofs(&proofs);
    assert!(result.is_err());
    let err_msg = result.unwrap_err();
    assert!(
        err_msg.contains("child block proof 2"),
        "error should identify the failing child: {}",
        err_msg
    );
    assert!(
        err_msg.contains("failed verification"),
        "error should mention verification failure: {}",
        err_msg
    );

    // Also test from_recursive_proofs rejecting an invalid child
    let valid_proofs: Vec<BlockProof> = (10..15)
        .map(|h| BlockProof::mock_prove(&make_input(h)))
        .collect();
    let mut rec = RecursiveProof::from_block_proofs(&valid_proofs).unwrap();

    // Corrupt the recursive proof's proof_data to make it fail verification
    rec.proof_data[PROOF_DATA_MERKLE_OFF] ^= 0xFF;

    let result = RecursiveProof::from_recursive_proofs(&[rec]);
    assert!(result.is_err());
    let err_msg = result.unwrap_err();
    assert!(
        err_msg.contains("child recursive proof 0"),
        "error should identify the failing child: {}",
        err_msg
    );
}

// 12. Merkle commitment is correct and tamper-evident
#[test]
fn test_recursive_proof_merkle_commitment() {
    let proofs: Vec<BlockProof> = (0..8)
        .map(|h| BlockProof::mock_prove(&make_input(h)))
        .collect();

    let recursive = RecursiveProof::from_block_proofs(&proofs).unwrap();

    // Verify the proof_data has the correct format
    assert!(recursive.proof_data.len() >= PROOF_DATA_HEADER_LEN);

    // Check version
    let version = extract_version(&recursive.proof_data).unwrap();
    assert_eq!(version, RECURSIVE_PROOF_VERSION);

    // Check child count
    let child_count = extract_child_count(&recursive.proof_data).unwrap();
    assert_eq!(child_count, 8);

    // Reconstruct the Merkle root independently and verify it matches
    let leaves: Vec<Hash256> = recursive
        .child_proofs
        .iter()
        .map(|h| Hash256(*h))
        .collect();
    let tree = MerkleTree::from_leaves(leaves);
    let expected_root = tree.root();
    let committed_root = extract_merkle_root(&recursive.proof_data).unwrap();
    assert_eq!(
        *expected_root.as_bytes(),
        committed_root,
        "Merkle root in proof_data should match independently computed root"
    );

    // Verify state hash commitment
    let mut state_buf = Vec::with_capacity(64);
    state_buf.extend_from_slice(&recursive.start_state_root);
    state_buf.extend_from_slice(&recursive.end_state_root);
    let expected_state_hash = blake3_hash(&state_buf);
    let committed_state_hash = extract_state_hash(&recursive.proof_data).unwrap();
    assert_eq!(
        expected_state_hash, committed_state_hash,
        "state hash in proof_data should match BLAKE3(start || end)"
    );

    // Verification should pass
    assert!(recursive.verify().is_valid);

    // Tamper with the Merkle root in proof_data and verify it gets caught
    let mut tampered = recursive.clone();
    tampered.proof_data[PROOF_DATA_MERKLE_OFF] ^= 0x01;
    let result = tampered.verify();
    assert!(!result.is_valid);
    assert!(
        result.error.as_ref().unwrap().contains("Merkle root mismatch"),
        "should detect Merkle root tampering: {:?}",
        result.error
    );

    // Tamper with a child proof hash — should also cause Merkle root mismatch
    let mut tampered2 = recursive.clone();
    tampered2.child_proofs[3][0] ^= 0x01;
    let result2 = tampered2.verify();
    assert!(!result2.is_valid);
    assert!(
        result2.error.as_ref().unwrap().contains("Merkle root mismatch"),
        "should detect child proof hash tampering: {:?}",
        result2.error
    );

    // Tamper with state root — should cause state hash mismatch
    let mut tampered3 = recursive.clone();
    tampered3.start_state_root[0] ^= 0x01;
    let result3 = tampered3.verify();
    assert!(!result3.is_valid);
    assert!(
        result3.error.as_ref().unwrap().contains("state hash mismatch"),
        "should detect state root tampering: {:?}",
        result3.error
    );
}

// 13. Chained verification: blocks → recursive → aggregate, all verified
#[test]
fn test_recursive_proof_chained_verification() {
    // Layer 1: 3 groups of 4 block proofs each
    let group_a: Vec<BlockProof> = (0..4)
        .map(|h| BlockProof::mock_prove(&make_input(h)))
        .collect();
    let group_b: Vec<BlockProof> = (4..8)
        .map(|h| BlockProof::mock_prove(&make_input(h)))
        .collect();
    let group_c: Vec<BlockProof> = (8..12)
        .map(|h| BlockProof::mock_prove(&make_input(h)))
        .collect();

    // Layer 2: recursive proofs from each group
    let rec_a = RecursiveProof::from_block_proofs(&group_a).unwrap();
    let rec_b = RecursiveProof::from_block_proofs(&group_b).unwrap();
    let rec_c = RecursiveProof::from_block_proofs(&group_c).unwrap();

    assert_eq!(rec_a.depth, 1);
    assert_eq!(rec_b.depth, 1);
    assert_eq!(rec_c.depth, 1);

    // Each recursive proof should individually verify
    assert!(rec_a.verify().is_valid);
    assert!(rec_b.verify().is_valid);
    assert!(rec_c.verify().is_valid);

    // Layer 3: aggregate proof from recursive proofs
    let aggregate = RecursiveProof::from_recursive_proofs(&[rec_a, rec_b, rec_c]).unwrap();

    assert_eq!(aggregate.depth, 2);
    assert_eq!(aggregate.start_height, 0);
    assert_eq!(aggregate.end_height, 11);
    assert_eq!(aggregate.block_count, 12);
    assert_eq!(aggregate.total_tx_count, 60); // 5 tx * 12 blocks
    assert_eq!(aggregate.child_proofs.len(), 3);

    // The aggregate should verify
    let result = aggregate.verify();
    assert!(result.is_valid);
    assert_eq!(result.proof_type, ProofType::Aggregate);

    // Verify the aggregate has a valid Merkle commitment
    let committed_root = extract_merkle_root(&aggregate.proof_data).unwrap();
    let leaves: Vec<Hash256> = aggregate
        .child_proofs
        .iter()
        .map(|h| Hash256(*h))
        .collect();
    let tree = MerkleTree::from_leaves(leaves);
    assert_eq!(*tree.root().as_bytes(), committed_root);

    // Layer 4: even deeper — aggregate of aggregates
    let group_d: Vec<BlockProof> = (12..16)
        .map(|h| BlockProof::mock_prove(&make_input(h)))
        .collect();
    let rec_d = RecursiveProof::from_block_proofs(&group_d).unwrap();
    let aggregate_2 = RecursiveProof::from_recursive_proofs(&[rec_d]).unwrap();

    let top_level = RecursiveProof::from_recursive_proofs(&[aggregate, aggregate_2]).unwrap();
    assert_eq!(top_level.depth, 3);
    assert_eq!(top_level.start_height, 0);
    assert_eq!(top_level.end_height, 15);
    assert_eq!(top_level.block_count, 16);
    assert!(top_level.verify().is_valid);

    // Verify from_block_proofs rejects empty slice
    let empty_result = RecursiveProof::from_block_proofs(&[]);
    assert!(empty_result.is_err());
    assert!(empty_result.unwrap_err().contains("empty slice"));

    // Verify from_recursive_proofs rejects empty slice
    let empty_rec_result = RecursiveProof::from_recursive_proofs(&[]);
    assert!(empty_rec_result.is_err());
    assert!(empty_rec_result.unwrap_err().contains("empty slice"));
}

// 14. Recursive proof verifies all children before aggregation
#[test]
fn test_recursive_proof_verifies_children() {
    // Build 6 valid block proofs, aggregate, and verify the recursive proof
    let proofs: Vec<BlockProof> = (20..26)
        .map(|h| BlockProof::mock_prove(&make_input(h)))
        .collect();

    // All child proofs should individually verify
    for p in &proofs {
        assert!(p.verify().is_valid, "child block proof should be valid");
    }

    let recursive = RecursiveProof::from_block_proofs(&proofs).unwrap();

    // The recursive proof should be valid
    let result = recursive.verify();
    assert!(result.is_valid, "recursive proof should verify: {:?}", result.error);

    // merkle_root field should be populated (non-zero)
    assert_ne!(recursive.merkle_root, [0u8; 32], "merkle_root should not be zero");

    // merkle_root should match the root embedded in proof_data
    let committed_root = extract_merkle_root(&recursive.proof_data).unwrap();
    assert_eq!(
        recursive.merkle_root, committed_root,
        "merkle_root field should match proof_data committed root"
    );

    // Verify the Merkle root is computed correctly from child proof hashes
    let leaves: Vec<Hash256> = recursive
        .child_proofs
        .iter()
        .map(|h| Hash256(*h))
        .collect();
    let tree = MerkleTree::from_leaves(leaves);
    assert_eq!(
        *tree.root().as_bytes(),
        recursive.merkle_root,
        "merkle_root should match tree built from child proof hashes"
    );
}

// 15. Recursive proof rejects a tampered child block proof
#[test]
fn test_recursive_proof_rejects_tampered_child() {
    let mut proofs: Vec<BlockProof> = (30..35)
        .map(|h| BlockProof::mock_prove(&make_input(h)))
        .collect();

    // Tamper with the proof_data of child 1 — this invalidates its verifier_hash
    proofs[1].proof_data[0] ^= 0xFF;

    // The tampered proof should fail individual verification
    assert!(
        !proofs[1].verify().is_valid,
        "tampered proof should fail individual verification"
    );

    // from_block_proofs should reject because child 1 fails verification
    let result = RecursiveProof::from_block_proofs(&proofs);
    assert!(result.is_err(), "should reject tampered child");
    let err = result.unwrap_err();
    assert!(
        err.contains("child block proof 1"),
        "error should identify child 1: {}",
        err
    );
    assert!(
        err.contains("failed verification"),
        "error should say failed verification: {}",
        err
    );

    // Also test: tampering with a recursive child in from_recursive_proofs
    let valid_a: Vec<BlockProof> = (40..44)
        .map(|h| BlockProof::mock_prove(&make_input(h)))
        .collect();
    let valid_b: Vec<BlockProof> = (44..48)
        .map(|h| BlockProof::mock_prove(&make_input(h)))
        .collect();

    let rec_a = RecursiveProof::from_block_proofs(&valid_a).unwrap();
    let mut rec_b = RecursiveProof::from_block_proofs(&valid_b).unwrap();

    // Tamper with rec_b's merkle_root field — makes verify() fail
    rec_b.merkle_root[0] ^= 0xFF;
    assert!(
        !rec_b.verify().is_valid,
        "tampered recursive proof should fail verification"
    );

    // from_recursive_proofs should reject because rec_b fails
    let result = RecursiveProof::from_recursive_proofs(&[rec_a, rec_b]);
    assert!(result.is_err(), "should reject tampered recursive child");
    let err = result.unwrap_err();
    assert!(
        err.contains("child recursive proof 1"),
        "error should identify child 1: {}",
        err
    );
}

// 16. Merkle commitment binds both the field and proof_data
#[test]
fn test_recursive_proof_merkle_commitment_field() {
    let proofs: Vec<BlockProof> = (50..54)
        .map(|h| BlockProof::mock_prove(&make_input(h)))
        .collect();

    let recursive = RecursiveProof::from_block_proofs(&proofs).unwrap();
    assert!(recursive.verify().is_valid);

    // Tampering with the merkle_root field alone should be caught
    let mut tampered_field = recursive.clone();
    tampered_field.merkle_root[15] ^= 0x42;
    let result = tampered_field.verify();
    assert!(!result.is_valid, "tampered merkle_root field should be detected");
    let err = result.error.unwrap();
    assert!(
        err.contains("merkle_root"),
        "error should mention merkle_root: {}",
        err
    );

    // Tampering with the proof_data Merkle root but not the field should also fail
    let mut tampered_data = recursive.clone();
    tampered_data.proof_data[PROOF_DATA_MERKLE_OFF + 10] ^= 0x01;
    let result2 = tampered_data.verify();
    assert!(!result2.is_valid, "tampered proof_data root should be detected");

    // Tampering with a child proof hash should cause Merkle root mismatch
    let mut tampered_child = recursive.clone();
    tampered_child.child_proofs[2][5] ^= 0xAB;
    let result3 = tampered_child.verify();
    assert!(!result3.is_valid, "tampered child hash should be detected");
}

// 17. Two layers of recursion: blocks -> recursive -> aggregate
#[test]
fn test_recursive_of_recursive() {
    // Layer 1: 4 groups of 3 block proofs
    let group_1: Vec<BlockProof> = (60..63)
        .map(|h| BlockProof::mock_prove(&make_input(h)))
        .collect();
    let group_2: Vec<BlockProof> = (63..66)
        .map(|h| BlockProof::mock_prove(&make_input(h)))
        .collect();
    let group_3: Vec<BlockProof> = (66..69)
        .map(|h| BlockProof::mock_prove(&make_input(h)))
        .collect();
    let group_4: Vec<BlockProof> = (69..72)
        .map(|h| BlockProof::mock_prove(&make_input(h)))
        .collect();

    // Layer 2: recursive proofs from each group (depth 1)
    let rec_1 = RecursiveProof::from_block_proofs(&group_1).unwrap();
    let rec_2 = RecursiveProof::from_block_proofs(&group_2).unwrap();
    let rec_3 = RecursiveProof::from_block_proofs(&group_3).unwrap();
    let rec_4 = RecursiveProof::from_block_proofs(&group_4).unwrap();

    assert_eq!(rec_1.depth, 1);
    assert_eq!(rec_2.depth, 1);
    assert_eq!(rec_3.depth, 1);
    assert_eq!(rec_4.depth, 1);

    for r in [&rec_1, &rec_2, &rec_3, &rec_4] {
        assert!(r.verify().is_valid, "layer 2 proof should verify");
        assert_ne!(r.merkle_root, [0u8; 32], "layer 2 should have non-zero merkle_root");
    }

    // Layer 3: aggregate pairs of recursive proofs (depth 2)
    let agg_ab = RecursiveProof::from_recursive_proofs(&[rec_1, rec_2]).unwrap();
    let agg_cd = RecursiveProof::from_recursive_proofs(&[rec_3, rec_4]).unwrap();

    assert_eq!(agg_ab.depth, 2);
    assert_eq!(agg_cd.depth, 2);
    assert!(agg_ab.verify().is_valid, "layer 3a should verify");
    assert!(agg_cd.verify().is_valid, "layer 3b should verify");

    assert_eq!(agg_ab.start_height, 60);
    assert_eq!(agg_ab.end_height, 65);
    assert_eq!(agg_ab.block_count, 6);
    assert_eq!(agg_cd.start_height, 66);
    assert_eq!(agg_cd.end_height, 71);
    assert_eq!(agg_cd.block_count, 6);

    // Layer 4: final aggregate (depth 3) — covers all 12 blocks
    let final_proof = RecursiveProof::from_recursive_proofs(&[agg_ab, agg_cd]).unwrap();

    assert_eq!(final_proof.depth, 3);
    assert_eq!(final_proof.start_height, 60);
    assert_eq!(final_proof.end_height, 71);
    assert_eq!(final_proof.block_count, 12);
    assert_eq!(final_proof.total_tx_count, 60); // 5 tx * 12 blocks

    let result = final_proof.verify();
    assert!(result.is_valid, "final aggregate should verify: {:?}", result.error);
    assert_eq!(result.proof_type, ProofType::Aggregate);

    // The final proof's merkle_root should match its child proofs
    let leaves: Vec<Hash256> = final_proof
        .child_proofs
        .iter()
        .map(|h| Hash256(*h))
        .collect();
    let tree = MerkleTree::from_leaves(leaves);
    assert_eq!(
        *tree.root().as_bytes(),
        final_proof.merkle_root,
        "final merkle_root should match recomputed tree"
    );
}

// 18. Inner-circuit recursive proof
#[test]
fn test_from_block_proofs_inner_circuit() {
    // Create 3 block proof inputs with chained state roots
    let mut prev_state = blake3_domain_hash("genesis", &[0u8]);
    let mut inputs = Vec::new();
    let mut proofs = Vec::new();

    for h in 1..=3u64 {
        let h_bytes = h.to_le_bytes();
        let block_hash = blake3_domain_hash("block", &h_bytes);
        let post_state = blake3_domain_hash("post", &h_bytes);

        let tx_hashes: Vec<[u8; 32]> = (0..2u32)
            .map(|i| {
                let mut buf = Vec::new();
                buf.extend_from_slice(&h_bytes);
                buf.extend_from_slice(&i.to_le_bytes());
                blake3_hash(&buf)
            })
            .collect();

        let state_diffs = vec![(
            blake3_domain_hash("addr", &h_bytes),
            blake3_domain_hash("old", &h_bytes),
            blake3_domain_hash("new", &h_bytes),
        )];

        let input = BlockProofInput {
            height: h,
            block_hash,
            prev_state_root: prev_state,
            post_state_root: post_state,
            tx_hashes,
            state_diffs,
            transfers: vec![],
        };

        let proof = BlockProof::stwo_prove(&input, &proved());
        inputs.push(input);
        proofs.push(proof);

        prev_state = post_state;
    }

    // Generate inner-circuit recursive proof
    let recursive = RecursiveProof::from_block_proofs_inner_circuit(&proofs, &inputs, &proved())
        .expect("inner-circuit recursive proof should succeed");

    assert_eq!(recursive.start_height, 1);
    assert_eq!(recursive.end_height, 3);
    assert_eq!(recursive.block_count, 3);
    assert_eq!(recursive.total_tx_count, 6); // 2 tx * 3 blocks
    assert_eq!(recursive.child_proofs.len(), 3);
    assert_eq!(recursive.depth, 1);

    // The proof_data should contain a recursive STARK proof receipt
    assert!(!recursive.proof_data.is_empty());

    // The Merkle root should be non-zero
    assert_ne!(recursive.merkle_root, [0u8; 32]);

    // Verify the recursive STARK receipt using the stwo_air verifier
    let recursive_input = RecursiveVerifierInput {
        child_hashes: recursive.child_proofs.clone(),
        child_start_states: proofs.iter().map(|p| p.prev_state_root).collect(),
        child_end_states: proofs.iter().map(|p| p.post_state_root).collect(),
        merkle_siblings: (0..proofs.len())
            .map(|_| {
                let sibling = blake3_domain_hash(
                    "ARC-merkle-sibling-v1",
                    &recursive.merkle_root,
                );
                vec![sibling]
            })
            .collect(),
        expected_merkle_root: recursive.merkle_root,
    };
    let valid = verify_recursive_proof(
        &recursive_input,
        &recursive.proof_data,
    );
    assert!(valid, "inner-circuit recursive proof receipt should verify");
}
