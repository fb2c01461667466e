//! What holds of the library as a whole, on concrete values.

use arc_crypto::bls::{
    bls_keygen, bls_sign, create_verifiable_aggregate, verify_aggregate as verify_bls_aggregate,
    BlsPublicKey, BlsSignature,
};
use arc_crypto::inference_proof::{
    dense_forward_i64, generate_dense_trace, verify_dense_trace, DenseLayerInput,
};
use arc_crypto::pedersen::{add_commitments, batch_commit, commit_value_with_blinding};
use arc_crypto::poseidon::generate_mds_matrix;
use arc_crypto::proof_compress::{dict_decode, dict_encode, rle_decode, rle_encode};
use arc_crypto::stark::{
    BlockProof, BlockProofInput, ProverConfig, ProvingPipeline, ProvingStats, RecursiveProof,
    TransferWitness,
};
use arc_crypto::stwo_air::{
    bytes32_to_m31_limbs, compute_log_size, generate_block_witness_trace,
    generate_recursive_verifier_trace, m31_limbs_to_bytes32, m31_limbs_to_u64, u64_to_m31_limbs,
    ArcBlockWitnessEval, ArcRecursiveVerifierEval, RecursiveVerifierInput, StarkCommitments,
    StwoproofReceipt, M31,
};
use arc_crypto::zk_rollup::{bytes_to_u64s, resolve_dispute, u64s_to_bytes};
use arc_crypto::{
    aggregate_proofs, commit_transaction, compress_proof, decompress_proof, hash_bytes,
    verify_aggregate, verify_commitment, vrf_prove, vrf_verify, BatchCompressor, BatchConfig, BatchProver, Circuit,
    CircuitBuilder, CircuitEvaluator, DisputeResolution, FraudProof, Gate, Hash256,
    IncrementalMerkle, KeyGeneration, KeyPair, MerkleTree, PedersenProof, PoseidonSponge,
    ProofAggregator, ProveTask, RollupBatch, RollupConfig, RollupSequencer, RollupState, RollupTx,
    ThresholdEncryption, TransferCircuit, Wire,
};

#[test]
fn any_threshold_of_shares_recovers_the_secret() {
    let secret = [0x17; 32];
    let shares = KeyGeneration::generate_shares(&secret, 3, 6);
    let commitments: Vec<[u8; 32]> = shares.iter().map(|s| s.commitment).collect();
    assert!(shares.iter().all(|s| KeyGeneration::verify_share(s, &commitments)));
    let expected = KeyGeneration::recover_secret(&shares[..3], 3).unwrap();
    for i in 0..6 {
        for j in i + 1..6 {
            for k in j + 1..6 {
                let subset = [shares[k].clone(), shares[i].clone(), shares[j].clone()];
                assert_eq!(KeyGeneration::recover_secret(&subset, 3).unwrap(), expected);
            }
        }
    }
}

#[test]
fn decryption_undoes_encryption() {
    let key = [3; 32];
    for len in [0, 1, 31, 32, 33, 100] {
        let plaintext = vec![0xa5; len];
        let sealed = ThresholdEncryption::encrypt(&key, &plaintext);
        assert_eq!(ThresholdEncryption::decrypt(&key, &sealed), Some(plaintext));
    }
}

#[test]
fn incremental_trees_agree_with_full_trees() {
    let mut im = IncrementalMerkle::new();
    for i in [5u8, 1, 9, 3, 7] {
        assert!(im.update([i; 32], hash_bytes(&[i])).1);
    }
    im.rebuild();
    let full = |items: &[(u8, Hash256)]| {
        MerkleTree::from_leaves(items.iter().map(|item| item.1).collect()).root()
    };
    let mut items: Vec<(u8, Hash256)> =
        [1u8, 3, 5, 7, 9].iter().map(|i| (*i, hash_bytes(&[*i]))).collect();
    assert_eq!(im.root(), full(&items));
    let (index, is_new) = im.update([5; 32], hash_bytes(b"new"));
    assert!(!is_new);
    assert_eq!(im.get_index(&[5; 32]), Some(index));
    im.recompute_paths(&[index]);
    items[2].1 = hash_bytes(b"new");
    assert_eq!(im.root(), full(&items));
    assert_eq!(im.len(), 5);
    assert!(im.remove(&[9; 32]));
    assert!(!im.remove(&[9; 32]));
    im.rebuild();
    assert_eq!(im.root(), full(&items[..4]));
}

#[test]
fn every_leaf_of_a_tree_is_proved() {
    for n in 1..20u8 {
        let tree = MerkleTree::from_leaves((0..n).map(|i| hash_bytes(&[i])).collect());
        for i in 0..n {
            assert!(MerkleTree::verify_proof(&tree.proof_of(i as usize).unwrap()));
        }
    }
}

#[test]
fn compression_is_lossless() {
    let mixed: Vec<u8> = (0..2000u32).map(|i| (i * i % 251) as u8).collect();
    for data in [vec![], vec![1], vec![7; 700], b"abababab".to_vec(), mixed] {
        assert_eq!(rle_decode(&rle_encode(&data)), data);
        assert_eq!(dict_decode(&dict_encode(&data)), data);
        assert_eq!(decompress_proof(&compress_proof(&data)), data);
    }
    let mut aggregator = ProofAggregator::new();
    for i in 0..5u8 {
        aggregator.add_proof(vec![i; 10], vec![i as u64]);
        assert!(aggregator.verify_aggregated(&aggregator.aggregate()));
    }
}

#[test]
fn evaluated_circuits_meet_their_constraints() {
    let mut builder = CircuitBuilder::new("law");
    let a = builder.add_public_input();
    let b = builder.add_private_input();
    let c = builder.constant(3);
    let s = builder.add(a, b);
    builder.mul(s, c);
    let circuit = builder.build();
    let witness = CircuitEvaluator::evaluate(&circuit, &[4, 5]).unwrap();
    assert!(CircuitEvaluator::verify_constraints(&circuit, &witness));
    let moved = TransferCircuit::verify_transfer(100, 7, 40).unwrap();
    assert_eq!(moved.new_sender_balance + moved.new_receiver_balance, 107);
}

#[test]
fn inputs_follow_the_list_of_public_inputs() {
    let wire = |id: usize| Wire { id, value: None, is_public: true };
    let circuit = Circuit {
        id: [0; 32],
        name: "order".to_string(),
        gates: vec![Gate::PublicInput(1), Gate::PublicInput(0)],
        wires: vec![wire(0), wire(1)],
        public_inputs: vec![0, 1],
        constraints: 0,
    };
    let witness = CircuitEvaluator::evaluate(&circuit, &[10, 20]).unwrap();
    assert_eq!(witness, vec![10, 20]);
    let turned = Circuit { public_inputs: vec![1, 0], ..circuit };
    assert_eq!(CircuitEvaluator::evaluate(&turned, &[10, 20]).unwrap(), vec![20, 10]);
}

fn tx(from: u8, to: u8, amount: u64, nonce: u64) -> RollupTx {
    RollupTx { from: [from; 32], to: [to; 32], amount, nonce, signature: vec![] }
}

#[test]
fn rollup_batches_chain_and_verify() {
    let mut state = RollupState::new();
    state.credit([1; 32], 1000);
    let mut sequencer = RollupSequencer::new(RollupConfig::default());
    let mut last = None;
    for nonce in 0..3 {
        let before = state.clone();
        sequencer.add_tx(tx(1, 2, 100, nonce));
        let batch = sequencer.flush_batch(&mut state).unwrap();
        assert_eq!(before.verify_batch(&batch), Ok(true));
        if let Some(root) = last {
            assert_eq!(batch.pre_state_root, root);
        }
        last = Some(batch.post_state_root);
    }
    assert_eq!(state.get_account(&[1; 32]).balance + state.get_account(&[2; 32]).balance, 1000);
    assert_eq!(state.get_account(&[1; 32]).nonce, 3);
    let root = [0x9c; 32];
    assert_eq!(u64s_to_bytes(&bytes_to_u64s(&root)), root);
}

#[test]
fn rollup_batches_conserve_balances() {
    let mut state = RollupState::new();
    state.credit([1; 32], 600);
    state.credit([2; 32], 50);
    let before = state.clone();
    let txs = [tx(1, 2, 100, 0), tx(2, 3, 120, 0), tx(1, 1, 40, 1), tx(3, 1, 5, 0)];
    let root = state.apply_batch(&txs).unwrap();
    let at = |s: &RollupState, a: u8| (s.get_account(&[a; 32]).balance, s.get_account(&[a; 32]).nonce);
    assert_eq!(at(&state, 1), (600 - 100 - 40 + 40 + 5, 2));
    assert_eq!(at(&state, 2), (50 + 100 - 120, 1));
    assert_eq!(at(&state, 3), (120 - 5, 1));
    // A batch stops at the first transaction that is not valid, which changes nothing.
    let mut partial = before.clone();
    let stopped = [tx(1, 2, 100, 0), tx(9, 2, 1, 0), tx(1, 2, 100, 1)];
    assert_eq!(partial.apply_batch(&stopped), Err(1));
    assert_eq!(at(&partial, 1), (500, 1));
    assert_eq!(at(&partial, 2), (150, 0));
    assert_eq!(at(&partial, 9), (0, 0));
    let batch = RollupBatch {
        batch_id: 4,
        transactions: txs.to_vec(),
        pre_state_root: before.compute_state_root(),
        post_state_root: root,
        rollup_proof: None,
    };
    let fraud = FraudProof {
        batch_id: 4,
        invalid_tx_index: 0,
        expected_root: [0; 32],
        actual_root: [0; 32],
        witness: vec![],
    };
    assert_eq!(before.verify_batch(&batch), Ok(true));
    assert_eq!(resolve_dispute(&fraud, &batch, &before), DisputeResolution::NoFraud);
    let forged = RollupBatch { post_state_root: [7; 32], ..batch };
    assert_eq!(before.verify_batch(&forged), Ok(false));
    assert_eq!(resolve_dispute(&fraud, &forged, &before), DisputeResolution::ProverSlashed);
}

#[test]
fn aggregates_go_stale_when_a_proof_is_added() {
    let mut aggregator = ProofAggregator::new();
    aggregator.add_proof(vec![1, 2, 3], vec![1]);
    aggregator.add_proof(vec![4, 5], vec![2]);
    let aggregate = aggregator.aggregate();
    assert!(aggregator.verify_aggregated(&aggregate));
    aggregator.add_proof(vec![4, 5], vec![2]);
    assert!(!aggregator.verify_aggregated(&aggregate));
    assert!(aggregator.verify_aggregated(&aggregator.aggregate()));
}

#[test]
fn state_roots_do_not_depend_on_the_order_of_credits() {
    let mut a = RollupState::new();
    let mut b = RollupState::new();
    for i in 0..6u8 {
        a.credit([i; 32], i as u64);
        b.credit([5 - i; 32], 5 - i as u64);
    }
    assert_eq!(a.compute_state_root(), b.compute_state_root());
}

fn block_input() -> BlockProofInput {
    let transfer = TransferWitness {
        sender_bal_before: 10_000,
        sender_bal_after: 9_495,
        receiver_bal_before: 2_000,
        receiver_bal_after: 2_500,
        amount: 500,
        sender_nonce_before: 7,
        sender_nonce_after: 8,
        fee: 5,
    };
    BlockProofInput {
        height: 1,
        block_hash: [1; 32],
        prev_state_root: [2; 32],
        post_state_root: [3; 32],
        tx_hashes: vec![[4; 32]],
        state_diffs: vec![([5; 32], [6; 32], [7; 32])],
        transfers: vec![transfer],
    }
}

#[test]
fn block_traces_meet_their_constraints_and_bind_transfers() {
    let eval = ArcBlockWitnessEval { log_size: compute_log_size(1) };
    let zeros = |input: &BlockProofInput| {
        let trace = generate_block_witness_trace(input, eval.log_size());
        (0..trace[0].len()).all(|r| {
            let row: Vec<M31> = trace.iter().map(|col| col[r]).collect();
            eval.evaluate(&row).iter().all(|c| c.0 == 0)
        })
    };
    assert!(zeros(&block_input()));
    let mut minted = block_input();
    minted.transfers[0].receiver_bal_after += 1;
    assert!(!zeros(&minted));
    let mut replayed = block_input();
    replayed.transfers[0].sender_nonce_after = 7;
    assert!(!zeros(&replayed));
    assert_eq!(eval.max_constraint_log_degree_bound(), 5);
}

#[test]
fn recursive_traces_meet_their_constraints() {
    let input = RecursiveVerifierInput {
        child_hashes: vec![[1; 32], [2; 32]],
        child_start_states: vec![[3; 32], [4; 32]],
        child_end_states: vec![[4; 32], [5; 32]],
        merkle_siblings: vec![vec![[6; 32]], vec![[7; 32]]],
        expected_merkle_root: [8; 32],
    };
    let eval = ArcRecursiveVerifierEval { log_size: 4 };
    let trace = generate_recursive_verifier_trace(&input, 4);
    for r in 0..16 {
        let row: Vec<M31> = trace.iter().map(|col| col[r]).collect();
        assert!(eval.evaluate(&row).iter().all(|c| c.0 == 0));
    }
    assert_eq!(trace[81][0], M31(1));
    let mut broken = input;
    broken.child_start_states[1] = [9; 32];
    assert_eq!(generate_recursive_verifier_trace(&broken, 4)[81][0], M31(0));
}

#[test]
fn limbs_and_receipts_survive_a_round_trip() {
    let bytes: [u8; 32] = *blake3::hash(b"limbs").as_bytes();
    assert_eq!(m31_limbs_to_bytes32(&bytes32_to_m31_limbs(&bytes)), bytes);
    let (lo, hi) = u64_to_m31_limbs(123_456_789_012);
    assert_eq!(m31_limbs_to_u64(lo, hi), 123_456_789_012);
    let receipt = StwoproofReceipt {
        version: 1,
        log_size: 7,
        pow_bits: 1,
        log_blowup_factor: 2,
        n_queries: 3,
        commitment_roots: vec![[4; 32], [5; 32], [6; 32]],
        binding_hash: bytes,
    };
    let read = StwoproofReceipt::from_bytes(&receipt.to_bytes()).unwrap();
    assert_eq!(read.to_bytes(), receipt.to_bytes());
}

#[test]
fn aggregates_of_block_proofs_verify() {
    let proofs = [BlockProof::mock_prove(&block_input()), BlockProof::mock_prove(&block_input())];
    assert_eq!(proofs[0].proof_hash(), proofs[1].proof_hash());
    let recursive = RecursiveProof::from_block_proofs(&proofs).unwrap();
    assert!(recursive.verify().is_valid);
    let again = RecursiveProof::from_block_proofs(&proofs).unwrap();
    assert_eq!(recursive.proof_hash(), again.proof_hash());
    let deeper = RecursiveProof::from_recursive_proofs(&[recursive, again]).unwrap();
    assert!(deeper.verify().is_valid);
}

#[test]
fn generated_dense_traces_verify_and_hold_the_forward_pass() {
    let (weights, bias, input) = (vec![1, -2, 3, -4, 5, -6], vec![7, -8], vec![9, 10, 11]);
    let output = dense_forward_i64(&weights, &bias, &input, 3, 2);
    let layer = DenseLayerInput { weights, bias, input, output, in_size: 3, out_size: 2 };
    let trace = generate_dense_trace(&layer);
    assert_eq!(verify_dense_trace(&trace), Ok(()));
    assert_eq!(vec![trace[10][2], trace[10][5]], layer.output);
}

#[test]
fn matrix_entries_invert_their_denominators() {
    let p: u128 = (1 << 61) - 1;
    let matrix = generate_mds_matrix(4);
    for (i, row) in matrix.iter().enumerate() {
        for (j, entry) in row.iter().enumerate() {
            assert_eq!(*entry as u128 * (i + 1 + 4 + j + 1) as u128 % p, 1);
        }
    }
}

#[test]
fn absorption_may_come_in_parts() {
    let data: Vec<u64> = (0..9).collect();
    let mut whole = PoseidonSponge::new();
    whole.absorb(&data);
    let expected = whole.squeeze(4);
    for cut in 0..9 {
        let mut parts = PoseidonSponge::new();
        parts.absorb(&data[..cut]);
        parts.absorb(&data[cut..]);
        assert_eq!(parts.squeeze(4), expected);
    }
}

#[test]
fn tasks_come_by_priority_and_then_by_submission() {
    let mut prover = BatchProver::new(BatchConfig::default());
    for (id, priority) in [(1u8, 5u8), (2, 9), (3, 5), (4, 9)] {
        prover.submit(ProveTask {
            id: [id; 32],
            circuit_id: [0; 32],
            public_inputs: vec![],
            private_inputs: vec![],
            priority,
            submitted_at: 0,
        });
    }
    let order: Vec<u8> = prover.prove_batch(4).iter().map(|r| r.task_id[0]).collect();
    assert_eq!(order, vec![2, 4, 1, 3]);
}

#[test]
fn a_drain_returns_all_results_in_order() {
    let mut prover = BatchProver::new(BatchConfig::default());
    let task = |id: u8| ProveTask {
        id: [id; 32],
        circuit_id: [0; 32],
        public_inputs: vec![],
        private_inputs: vec![],
        priority: 1,
        submitted_at: 0,
    };
    for id in 1..=4 {
        prover.submit(task(id));
    }
    let mut returned: Vec<[u8; 32]> = Vec::new();
    returned.extend(prover.prove_next().iter().map(|r| r.task_id));
    returned.extend(prover.prove_batch(2).iter().map(|r| r.task_id));
    let drained: Vec<[u8; 32]> = prover.drain_completed().iter().map(|r| r.task_id).collect();
    assert_eq!(drained, returned);
    assert_eq!(drained, vec![[1; 32], [2; 32], [3; 32]]);
    assert!(prover.drain_completed().is_empty());
    assert_eq!(prover.pending_count(), 1);
    assert_eq!(prover.stats().total_proved, 3);
    prover.prove_batch(9);
    assert_eq!(prover.drain_completed().len(), 1);
}

#[test]
fn proofs_made_elsewhere_enter_the_pipeline() {
    let proved = StarkCommitments {
        pow_bits: 10,
        log_blowup_factor: 1,
        n_queries: 3,
        commitments: vec!["c0".to_string(), "c1".to_string()],
    };
    let config = ProverConfig { recursion_threshold: 2, ..ProverConfig::stwo_config(false) };
    let mut pipeline = ProvingPipeline::new(config);
    assert_eq!(ProvingStats::default().blocks_proven, pipeline.stats().blocks_proven);
    pipeline.submit_block(block_input());
    pipeline.submit_block(block_input());
    let inputs = pipeline.take_pending();
    assert_eq!((inputs.len(), pipeline.pending_count()), (2, 0));
    let proofs: Vec<BlockProof> =
        inputs.iter().map(|input| BlockProof::stwo_prove(input, &proved)).collect();
    assert!(proofs[0].stwo_verify(&inputs[0]).is_valid);
    pipeline.accept_proofs(&inputs, &proofs, &[5, 7]);
    let stats = *pipeline.stats();
    let bytes = proofs[0].proof_size_bytes + proofs[1].proof_size_bytes;
    assert_eq!((stats.blocks_proven, stats.total_proving_time_ms), (2, 12));
    assert_eq!((stats.total_proof_bytes, stats.batch_proof_bytes), (bytes as u64, bytes));
    assert_eq!(stats.block_proof_time_sum_ms, 12);
    let raw = 104 + 32 * inputs[0].tx_hashes.len() + 96 * inputs[0].state_diffs.len();
    assert_eq!(stats.batch_raw_bytes, 2 * raw);
    assert_eq!(pipeline.blocks_behind(), 2);
    pipeline.accept_proofs(&[], &[], &[]);
    assert_eq!(pipeline.stats().batch_raw_bytes, 2 * raw);
    let recursive = pipeline.try_recursive().unwrap();
    assert_eq!(recursive.verify().is_valid, true);
    assert_eq!(pipeline.blocks_behind(), 0);
}

#[test]
fn fresh_compressors_have_counted_nothing() {
    let stats = *BatchCompressor::default().stats();
    assert_eq!((stats.original_bytes, stats.compressed_bytes, stats.time_us), (0, 0, 0));
    assert_eq!(BatchCompressor::default().count(), 0);
}

#[test]
fn domains_never_share_a_commitment() {
    assert_ne!(commit_transaction(1, b"x").hash, commit_transaction(2, b"x").hash);
}

#[test]
fn signatures_of_every_scheme_verify() {
    let message = hash_bytes(b"law");
    let pairs = [
        KeyPair::generate_ed25519(),
        KeyPair::generate_secp256k1(),
        KeyPair::generate_ml_dsa().unwrap(),
        KeyPair::generate_falcon512(),
    ];
    for pair in &pairs {
        let signature = pair.sign(&message).unwrap();
        assert_eq!(signature.verify(&message, &pair.address()), Ok(()));
        let (proof, output) = vrf_prove(pair, b"alpha").unwrap();
        assert_eq!(vrf_verify(&pair.address(), b"alpha", &proof), Ok(output));
    }
}

#[test]
fn bls_aggregates_verify_under_their_aggregate_key() {
    let pairs: Vec<_> = (0..4u8).map(|i| bls_keygen(&[i])).collect();
    let signatures: Vec<BlsSignature> = pairs.iter().map(|p| bls_sign(&p.secret, b"m")).collect();
    let parts: Vec<(usize, &BlsPublicKey, &BlsSignature)> = pairs
        .iter()
        .zip(signatures.iter())
        .enumerate()
        .map(|(i, (pair, signature))| (i, &pair.public, signature))
        .collect();
    let (key, signature) = create_verifiable_aggregate(&parts, b"m").unwrap();
    assert!(verify_bls_aggregate(&key, b"m", &signature));
    assert_eq!(signature.signers, vec![0, 1, 2, 3]);
}

#[test]
fn commitments_add_up() {
    let a = commit_value_with_blinding(40, &[1; 32]);
    let b = commit_value_with_blinding(2, &[0xff; 32]);
    let c = add_commitments(&a, &b);
    let opening = |value: u64| PedersenProof { commitment: c.point, value, blinding: c.blinding };
    assert!(verify_commitment(&opening(42)));
    assert!(!verify_commitment(&opening(41)));
}

#[test]
fn aggregates_commit_to_the_total_and_verify() {
    let values = [3u64, 5, 9];
    let commitments = batch_commit(&values);
    let hashes: Vec<Hash256> = (0..3u8).map(|i| hash_bytes(&[i])).collect();
    let proof = aggregate_proofs(&hashes, &commitments);
    assert!(verify_aggregate(&proof, &hashes));
    let total = add_commitments(&add_commitments(&commitments[0], &commitments[1]), &commitments[2]);
    assert_eq!(proof.aggregate_commitment, total.point);
    assert!(verify_commitment(&PedersenProof {
        commitment: proof.aggregate_commitment,
        value: 17,
        blinding: total.blinding,
    }));
}
