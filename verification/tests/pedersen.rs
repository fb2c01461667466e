use arc_crypto::pedersen::{add_commitments, batch_commit, commit_value_with_blinding};
use arc_crypto::{commit_value, verify_commitment, PedersenProof};
use curve25519_dalek::scalar::Scalar;
use rand::rngs::OsRng;

#[test]
fn test_commit_verify() {
    let c = commit_value(42);
    let proof = PedersenProof {
        commitment: c.point,
        value: 42,
        blinding: c.blinding,
    };
    assert!(verify_commitment(&proof));
}

#[test]
fn test_wrong_value_fails() {
    let c = commit_value(42);
    let proof = PedersenProof {
        commitment: c.point,
        value: 43, // wrong
        blinding: c.blinding,
    };
    assert!(!verify_commitment(&proof));
}

#[test]
fn test_homomorphic_addition() {
    let a_val = 100u64;
    let b_val = 250u64;

    let blinding_a = Scalar::random(&mut OsRng).to_bytes();
    let blinding_b = Scalar::random(&mut OsRng).to_bytes();

    let ca = commit_value_with_blinding(a_val, &blinding_a);
    let cb = commit_value_with_blinding(b_val, &blinding_b);
    let c_sum = add_commitments(&ca, &cb);

    // Verify the sum commitment
    let proof = PedersenProof {
        commitment: c_sum.point,
        value: a_val + b_val,
        blinding: c_sum.blinding,
    };
    assert!(verify_commitment(&proof));
}

#[test]
fn pedersen_test_batch_commit() {
    let values: Vec<u64> = (0..10_000).collect();
    let commits = batch_commit(&values);
    assert_eq!(commits.len(), 10_000);
    // Verify a random sample
    let proof = PedersenProof {
        commitment: commits[42].point,
        value: 42,
        blinding: commits[42].blinding,
    };
    assert!(verify_commitment(&proof));
}
