use arc_crypto::pedersen::batch_commit;
use arc_crypto::{
    aggregate_proofs, commit_value, hash_bytes, verify_aggregate, Hash256, PedersenCommitment,
};

#[test]
fn test_aggregate_and_verify() {
    let n = 1000;
    let tx_hashes: Vec<Hash256> = (0..n as u32)
        .map(|i| hash_bytes(&i.to_le_bytes()))
        .collect();
    let values: Vec<u64> = (0..n as u64).collect();
    let commitments: Vec<PedersenCommitment> = batch_commit(&values);

    let proof = aggregate_proofs(&tx_hashes, &commitments);
    assert_eq!(proof.tx_count, n as u64);
    assert!(verify_aggregate(&proof, &tx_hashes));
}

#[test]
fn test_aggregate_fails_wrong_hashes() {
    let tx_hashes: Vec<Hash256> = (0..100u32)
        .map(|i| hash_bytes(&i.to_le_bytes()))
        .collect();
    let commitments: Vec<PedersenCommitment> = (0..100).map(|i| commit_value(i as u64)).collect();

    let proof = aggregate_proofs(&tx_hashes, &commitments);

    // Tamper with one hash
    let mut bad_hashes = tx_hashes.clone();
    bad_hashes[50] = hash_bytes(b"tampered");
    assert!(!verify_aggregate(&proof, &bad_hashes));
}

#[test]
fn test_aggregate_large_batch() {
    let n = 10_000;
    let tx_hashes: Vec<Hash256> = (0..n as u32)
        .map(|i| hash_bytes(&i.to_le_bytes()))
        .collect();
    let values: Vec<u64> = (0..n as u64).collect();
    let commitments: Vec<PedersenCommitment> = batch_commit(&values);

    let proof = aggregate_proofs(&tx_hashes, &commitments);
    assert_eq!(proof.tx_count, n as u64);
    assert!(verify_aggregate(&proof, &tx_hashes));
}
