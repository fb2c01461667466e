use arc_crypto::batch_prover::{compute_verify_tag, generate_mock_proof};
use arc_crypto::{
    circuit_id_from_name, task_id_from_seed, verify_mock_proof, BatchConfig, BatchProver,
    ProveStatus, ProveTask,
};

fn make_task(seed: &str, priority: u8) -> ProveTask {
    ProveTask {
        id: task_id_from_seed(seed),
        circuit_id: circuit_id_from_name("test-circuit"),
        public_inputs: vec![1, 2, 3],
        private_inputs: vec![10, 20],
        priority,
        submitted_at: 1000,
    }
}

#[test]
fn test_new_prover() {
    let prover = BatchProver::new(BatchConfig::default());
    assert_eq!(prover.pending_count(), 0);
    assert_eq!(prover.stats().total_proved, 0);
    assert_eq!(prover.stats().total_failed, 0);
}

#[test]
fn test_submit_task() {
    let mut prover = BatchProver::new(BatchConfig::default());
    let id = prover.submit(make_task("task-1", 5));
    assert_eq!(prover.pending_count(), 1);
    assert_eq!(id, task_id_from_seed("task-1"));
}

#[test]
fn test_prove_next_empty() {
    let mut prover = BatchProver::new(BatchConfig::default());
    assert!(prover.prove_next().is_none());
}

#[test]
fn test_prove_next_single() {
    let mut prover = BatchProver::new(BatchConfig::default());
    prover.submit(make_task("task-1", 5));

    let result = prover.prove_next().unwrap();
    assert_eq!(result.task_id, task_id_from_seed("task-1"));
    assert_eq!(result.status, ProveStatus::Success);
    assert!(!result.proof_data.is_empty());
    assert_eq!(prover.pending_count(), 0);
}

#[test]
fn test_prove_next_priority_order() {
    let mut prover = BatchProver::new(BatchConfig::default());
    prover.submit(make_task("low", 1));
    prover.submit(make_task("high", 10));
    prover.submit(make_task("medium", 5));

    // Highest priority first.
    let r1 = prover.prove_next().unwrap();
    assert_eq!(r1.task_id, task_id_from_seed("high"));

    let r2 = prover.prove_next().unwrap();
    assert_eq!(r2.task_id, task_id_from_seed("medium"));

    let r3 = prover.prove_next().unwrap();
    assert_eq!(r3.task_id, task_id_from_seed("low"));
}

#[test]
fn test_prove_batch() {
    let mut prover = BatchProver::new(BatchConfig::default());
    for i in 0..5 {
        prover.submit(make_task(&format!("task-{i}"), i as u8));
    }

    let results = prover.prove_batch(3);
    assert_eq!(results.len(), 3);
    assert_eq!(prover.pending_count(), 2);

    // All should succeed.
    for r in &results {
        assert_eq!(r.status, ProveStatus::Success);
    }
}

#[test]
fn test_prove_batch_more_than_available() {
    let mut prover = BatchProver::new(BatchConfig::default());
    prover.submit(make_task("only-one", 5));

    let results = prover.prove_batch(100);
    assert_eq!(results.len(), 1);
    assert_eq!(prover.pending_count(), 0);
}

#[test]
fn test_drain_completed() {
    let mut prover = BatchProver::new(BatchConfig::default());
    prover.submit(make_task("t1", 5));
    prover.submit(make_task("t2", 5));

    prover.prove_batch(2);
    let completed = prover.drain_completed();
    assert_eq!(completed.len(), 2);

    // Drain again should be empty.
    let again = prover.drain_completed();
    assert!(again.is_empty());
}

#[test]
fn test_stats_updated() {
    let mut prover = BatchProver::new(BatchConfig::default());
    prover.submit(make_task("t1", 5));
    prover.submit(make_task("t2", 5));
    prover.submit(make_task("t3", 5));

    prover.prove_batch(3);

    let stats = prover.stats();
    assert_eq!(stats.total_proved, 3);
    assert_eq!(stats.total_failed, 0);
    assert_eq!(stats.total_verified, 3);
}

#[test]
fn test_mock_proof_deterministic() {
    let task = make_task("deterministic", 5);
    let proof1 = generate_mock_proof(&task);
    let proof2 = generate_mock_proof(&task);
    assert_eq!(proof1, proof2, "mock proofs must be deterministic");
}

#[test]
fn test_mock_proof_different_inputs() {
    let mut t1 = make_task("same-seed", 5);
    let mut t2 = make_task("same-seed", 5);
    t1.public_inputs = vec![1, 2, 3];
    t2.public_inputs = vec![4, 5, 6];

    let proof1 = generate_mock_proof(&t1);
    let proof2 = generate_mock_proof(&t2);
    assert_ne!(proof1, proof2, "different inputs must produce different proofs");
}

#[test]
fn test_verify_mock_proof_roundtrip() {
    let task = make_task("verify-roundtrip", 5);
    let proof = generate_mock_proof(&task);
    let tag = compute_verify_tag(&task.circuit_id, &task.public_inputs, &proof);

    assert!(verify_mock_proof(
        &task.circuit_id,
        &task.public_inputs,
        &proof,
        &tag
    ));
}

#[test]
fn test_verify_mock_proof_tampered() {
    let task = make_task("tamper-test", 5);
    let mut proof = generate_mock_proof(&task);
    let tag = compute_verify_tag(&task.circuit_id, &task.public_inputs, &proof);

    // Tamper with the proof.
    proof[0] ^= 0xFF;
    assert!(!verify_mock_proof(
        &task.circuit_id,
        &task.public_inputs,
        &proof,
        &tag
    ));
}

#[test]
fn test_public_outputs_present() {
    let mut prover = BatchProver::new(BatchConfig::default());
    prover.submit(make_task("outputs", 5));

    let result = prover.prove_next().unwrap();
    // Public outputs should be 4 u64 values (32 bytes / 8).
    assert_eq!(result.public_outputs.len(), 4);
}

#[test]
fn test_task_id_from_seed() {
    let id1 = task_id_from_seed("hello");
    let id2 = task_id_from_seed("hello");
    let id3 = task_id_from_seed("world");

    assert_eq!(id1, id2);
    assert_ne!(id1, id3);
}

#[test]
fn test_batch_config_default() {
    let config = BatchConfig::default();
    assert_eq!(config.max_batch_size, 256);
    assert_eq!(config.max_parallel_proofs, 4);
    assert_eq!(config.timeout_ms, 30_000);
    assert_eq!(config.proof_type, "stark-mock");
}
