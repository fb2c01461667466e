use arc_crypto::zk_rollup::resolve_dispute;
use arc_crypto::{
    BatchSubmission, DisputeResolution, FraudProof, RollupBatch, RollupConfig, RollupProofType,
    RollupSequencer, RollupState, RollupTx,
};

fn alice() -> [u8; 32] {
    let mut a = [0u8; 32];
    a[0] = 0xAA;
    a
}

fn bob() -> [u8; 32] {
    let mut b = [0u8; 32];
    b[0] = 0xBB;
    b
}

fn make_tx(from: [u8; 32], to: [u8; 32], amount: u64, nonce: u64) -> RollupTx {
    RollupTx {
        from,
        to,
        amount,
        nonce,
        signature: vec![0u8; 64],
    }
}

#[test]
fn test_state_root_empty() {
    let state = RollupState::new();
    assert_eq!(state.compute_state_root(), [0u8; 32]);
}

#[test]
fn test_state_root_deterministic() {
    let mut s1 = RollupState::new();
    s1.credit(alice(), 1000);
    let mut s2 = RollupState::new();
    s2.credit(alice(), 1000);
    assert_eq!(s1.compute_state_root(), s2.compute_state_root());
}

#[test]
fn test_state_root_changes_on_transfer() {
    let mut state = RollupState::new();
    state.credit(alice(), 1000);
    let root_before = state.compute_state_root();
    let tx = make_tx(alice(), bob(), 100, 0);
    let _ = state.apply_batch(&[tx]);
    let root_after = state.compute_state_root();
    assert_ne!(root_before, root_after);
}

#[test]
fn test_apply_batch_success() {
    let mut state = RollupState::new();
    state.credit(alice(), 500);
    let tx = make_tx(alice(), bob(), 200, 0);
    let result = state.apply_batch(&[tx]);
    assert!(result.is_ok());
    assert_eq!(state.get_account(&alice()).balance, 300);
    assert_eq!(state.get_account(&bob()).balance, 200);
}

#[test]
fn test_apply_batch_insufficient_funds() {
    let mut state = RollupState::new();
    state.credit(alice(), 50);
    let tx = make_tx(alice(), bob(), 100, 0);
    let result = state.apply_batch(&[tx]);
    assert!(result.is_err());
}

#[test]
fn test_apply_batch_bad_nonce() {
    let mut state = RollupState::new();
    state.credit(alice(), 1000);
    let tx = make_tx(alice(), bob(), 100, 999); // wrong nonce
    let result = state.apply_batch(&[tx]);
    assert!(result.is_err());
}

#[test]
fn test_sequencer_flush() {
    let config = RollupConfig::default();
    let mut seq = RollupSequencer::new(config);
    let mut state = RollupState::new();
    state.credit(alice(), 1000);

    seq.add_tx(make_tx(alice(), bob(), 100, 0));
    seq.add_tx(make_tx(alice(), bob(), 200, 1));
    assert_eq!(seq.pending_count(), 2);

    let batch = seq.flush_batch(&mut state);
    assert!(batch.is_some());
    let batch = batch.unwrap();
    assert_eq!(batch.batch_id, 0);
    assert_eq!(batch.transactions.len(), 2);
    assert_eq!(seq.pending_count(), 0);
}

#[test]
fn test_sequencer_empty_flush() {
    let config = RollupConfig::default();
    let mut seq = RollupSequencer::new(config);
    let mut state = RollupState::new();
    assert!(seq.flush_batch(&mut state).is_none());
}

#[test]
fn test_verify_batch_valid() {
    let mut state = RollupState::new();
    state.credit(alice(), 1000);
    let pre_root = state.compute_state_root();

    let tx = make_tx(alice(), bob(), 100, 0);

    // Compute expected post root.
    let mut clone = state.clone();
    let post_root = clone.apply_batch(&[tx.clone()]).unwrap();

    let batch = RollupBatch {
        batch_id: 0,
        transactions: vec![tx],
        pre_state_root: pre_root,
        post_state_root: post_root,
        rollup_proof: None,
    };

    let result = state.verify_batch(&batch);
    assert!(result.is_ok());
    assert!(result.unwrap());
}

#[test]
fn test_verify_batch_wrong_post_root() {
    let mut state = RollupState::new();
    state.credit(alice(), 1000);
    let pre_root = state.compute_state_root();

    let tx = make_tx(alice(), bob(), 100, 0);

    let batch = RollupBatch {
        batch_id: 0,
        transactions: vec![tx],
        pre_state_root: pre_root,
        post_state_root: [0xFFu8; 32], // wrong
        rollup_proof: None,
    };

    let result = state.verify_batch(&batch);
    assert!(result.is_ok());
    assert!(!result.unwrap()); // verification fails
}

#[test]
fn test_rollup_proof_type_variants() {
    let types = [
        RollupProofType::STARK,
        RollupProofType::SNARK,
        RollupProofType::PLONK,
        RollupProofType::Groth16,
    ];
    for t in &types {
        assert_eq!(*t, *t);
    }
    assert_ne!(RollupProofType::STARK, RollupProofType::PLONK);
}

#[test]
fn test_fraud_proof_no_fraud() {
    let mut state = RollupState::new();
    state.credit(alice(), 1000);
    let pre_root = state.compute_state_root();

    let tx = make_tx(alice(), bob(), 100, 0);
    let mut exec_state = state.clone();
    let post_root = exec_state.apply_batch(&[tx.clone()]).unwrap();

    let batch = RollupBatch {
        batch_id: 0,
        transactions: vec![tx],
        pre_state_root: pre_root,
        post_state_root: post_root,
        rollup_proof: None,
    };

    let fraud = FraudProof {
        batch_id: 0,
        invalid_tx_index: 0,
        expected_root: post_root,
        actual_root: [0xFFu8; 32],
        witness: vec![],
    };

    let result = resolve_dispute(&fraud, &batch, &state);
    assert_eq!(result, DisputeResolution::NoFraud);
}

#[test]
fn test_fraud_proof_prover_slashed() {
    let mut state = RollupState::new();
    state.credit(alice(), 1000);
    let pre_root = state.compute_state_root();

    let tx = make_tx(alice(), bob(), 100, 0);

    // Batch claims a WRONG post root.
    let batch = RollupBatch {
        batch_id: 1,
        transactions: vec![tx],
        pre_state_root: pre_root,
        post_state_root: [0xDE; 32], // fraudulent
        rollup_proof: None,
    };

    let fraud = FraudProof {
        batch_id: 1,
        invalid_tx_index: 0,
        expected_root: [0u8; 32],
        actual_root: [0xDE; 32],
        witness: vec![],
    };

    let result = resolve_dispute(&fraud, &batch, &state);
    assert_eq!(result, DisputeResolution::ProverSlashed);
}

#[test]
fn test_batch_submission_struct() {
    let batch = RollupBatch {
        batch_id: 42,
        transactions: vec![],
        pre_state_root: [0u8; 32],
        post_state_root: [1u8; 32],
        rollup_proof: None,
    };
    let sub = BatchSubmission {
        batch: batch.clone(),
        l1_block_number: 100,
        submitter: [0xAA; 32],
        bond_amount: 1_000_000,
    };
    assert_eq!(sub.l1_block_number, 100);
    assert_eq!(sub.bond_amount, 1_000_000);
}

#[test]
fn test_config_defaults() {
    let config = RollupConfig::default();
    assert_eq!(config.max_batch_size, 1000);
    assert_eq!(config.proof_type, RollupProofType::PLONK);
    assert_eq!(config.state_tree_depth, 20);
    assert_eq!(config.challenge_period_blocks, 100);
}

#[test]
fn test_sequencer_respects_max_batch_size() {
    let config = RollupConfig {
        max_batch_size: 2,
        ..RollupConfig::default()
    };
    let mut seq = RollupSequencer::new(config);
    let mut state = RollupState::new();
    state.credit(alice(), 10_000);

    for i in 0..5u64 {
        seq.add_tx(make_tx(alice(), bob(), 10, i));
    }
    assert_eq!(seq.pending_count(), 5);

    let batch = seq.flush_batch(&mut state).unwrap();
    assert_eq!(batch.transactions.len(), 2);
    assert_eq!(seq.pending_count(), 3);
}

#[test]
fn test_multiple_sequential_batches() {
    let config = RollupConfig::default();
    let mut seq = RollupSequencer::new(config);
    let mut state = RollupState::new();
    state.credit(alice(), 10_000);

    seq.add_tx(make_tx(alice(), bob(), 100, 0));
    let b1 = seq.flush_batch(&mut state).unwrap();
    assert_eq!(b1.batch_id, 0);

    seq.add_tx(make_tx(alice(), bob(), 200, 1));
    let b2 = seq.flush_batch(&mut state).unwrap();
    assert_eq!(b2.batch_id, 1);

    // Post root of batch 1 should equal pre root of batch 2.
    assert_eq!(b1.post_state_root, b2.pre_state_root);
}
