use arc_crypto::bls::{
    address_from_bls_pubkey, bls_keygen, bls_sign, bls_verify, create_aggregate,
    create_verifiable_aggregate, meets_threshold, verify_aggregate, AggregatePublicKey,
    AggregateSignature, BlsKeypair, BlsPublicKey, BlsSignature, ThresholdConfig, BLS_PK_LEN,
    BLS_SIG_LEN, BLS_SK_LEN,
};

#[test]
fn test_bls_keygen() {
    // Deterministic: same seed produces same keypair
    let kp1 = bls_keygen(b"test-seed");
    let kp2 = bls_keygen(b"test-seed");
    assert_eq!(kp1.public.0, kp2.public.0);
    assert_eq!(kp1.secret.0, kp2.secret.0);

    // Correct lengths
    assert_eq!(kp1.public.0.len(), BLS_PK_LEN);
    assert_eq!(kp1.secret.0.len(), BLS_SK_LEN);

    // Different seeds produce different keys
    let kp3 = bls_keygen(b"different-seed");
    assert_ne!(kp1.public.0, kp3.public.0);
    assert_ne!(kp1.secret.0, kp3.secret.0);
}

#[test]
fn test_bls_sign_verify() {
    let kp = bls_keygen(b"sign-verify-seed");
    let message = b"hello ARC chain";
    let sig = bls_sign(&kp.secret, message);

    // Correct length
    assert_eq!(sig.0.len(), BLS_SIG_LEN);

    // Verify succeeds
    assert!(bls_verify(&kp.public, message, &sig));

    // Deterministic: same inputs produce same signature
    let sig2 = bls_sign(&kp.secret, message);
    assert_eq!(sig.0, sig2.0);
}

#[test]
fn test_bls_verify_wrong_message() {
    let kp = bls_keygen(b"wrong-msg-seed");
    let sig = bls_sign(&kp.secret, b"correct message");

    // Wrong message must fail
    assert!(!bls_verify(&kp.public, b"wrong message", &sig));
}

#[test]
fn test_bls_verify_wrong_key() {
    let kp1 = bls_keygen(b"key-1");
    let kp2 = bls_keygen(b"key-2");
    let message = b"test message";
    let sig = bls_sign(&kp1.secret, message);

    // Wrong key must fail
    assert!(!bls_verify(&kp2.public, message, &sig));

    // Right key succeeds
    assert!(bls_verify(&kp1.public, message, &sig));
}

#[test]
fn test_aggregate_signatures() {
    let message = b"finalize block 42";

    // Generate 5 validator keypairs and signatures
    let keypairs: Vec<BlsKeypair> = (0..5)
        .map(|i| bls_keygen(format!("validator-{i}").as_bytes()))
        .collect();
    let sigs: Vec<BlsSignature> = keypairs
        .iter()
        .map(|kp| bls_sign(&kp.secret, message))
        .collect();

    // Each individual sig should verify
    for (kp, sig) in keypairs.iter().zip(sigs.iter()) {
        assert!(bls_verify(&kp.public, message, sig));
    }

    // Build verifiable aggregate
    let refs: Vec<(usize, &BlsPublicKey, &BlsSignature)> = keypairs
        .iter()
        .zip(sigs.iter())
        .enumerate()
        .map(|(i, (kp, sig))| (i, &kp.public, sig))
        .collect();
    let (agg_pk, agg_sig) = create_verifiable_aggregate(&refs, message).unwrap();

    // Aggregate should verify
    assert!(verify_aggregate(&agg_pk, message, &agg_sig));
    assert_eq!(agg_pk.participant_count, 5);
    assert_eq!(agg_sig.signer_count, 5);
}

#[test]
fn test_aggregate_different_messages_fails() {
    let keypairs: Vec<BlsKeypair> = (0..3)
        .map(|i| bls_keygen(format!("val-{i}").as_bytes()))
        .collect();

    // Sign DIFFERENT messages
    let sig0 = bls_sign(&keypairs[0].secret, b"message A");
    let sig1 = bls_sign(&keypairs[1].secret, b"message B");
    let sig2 = bls_sign(&keypairs[2].secret, b"message C");

    // Individual verification fails for mismatched messages
    assert!(!bls_verify(&keypairs[1].public, b"message A", &sig1));
    assert!(!bls_verify(&keypairs[2].public, b"message A", &sig2));

    // But sig0 verifies correctly for message A
    assert!(bls_verify(&keypairs[0].public, b"message A", &sig0));
}

#[test]
fn test_threshold_met() {
    let config = ThresholdConfig {
        total_signers: 4,
        threshold: 3, // 3 of 4, approx 2/3 + 1
    };

    // 3 of 4 signers participate
    let keypairs: Vec<BlsKeypair> = (0..3)
        .map(|i| bls_keygen(format!("thresh-val-{i}").as_bytes()))
        .collect();
    let message = b"threshold test";
    let sigs: Vec<BlsSignature> = keypairs
        .iter()
        .map(|kp| bls_sign(&kp.secret, message))
        .collect();

    let indexed_sigs: Vec<(usize, BlsSignature)> =
        sigs.into_iter().enumerate().collect();
    let agg = create_aggregate(&indexed_sigs).unwrap();

    assert!(meets_threshold(&agg, &config));
}

#[test]
fn test_threshold_not_met() {
    let config = ThresholdConfig {
        total_signers: 4,
        threshold: 3, // Need 3 of 4
    };

    // Only 1 signer participates
    let kp = bls_keygen(b"lone-validator");
    let sig = bls_sign(&kp.secret, b"threshold fail");
    let agg = create_aggregate(&[(0, sig)]).unwrap();

    assert!(!meets_threshold(&agg, &config));
    assert_eq!(agg.signer_count, 1);
}

#[test]
fn test_address_derivation() {
    let kp = bls_keygen(b"address-test-seed");
    let addr1 = address_from_bls_pubkey(&kp.public);
    let addr2 = address_from_bls_pubkey(&kp.public);

    // Deterministic
    assert_eq!(addr1, addr2);
    assert_eq!(addr1.len(), 32);

    // Different key produces different address
    let kp2 = bls_keygen(b"other-address-seed");
    let addr3 = address_from_bls_pubkey(&kp2.public);
    assert_ne!(addr1, addr3);
}

#[test]
fn test_large_aggregate() {
    let message = b"large validator set consensus";
    let n = 100;

    let keypairs: Vec<BlsKeypair> = (0..n)
        .map(|i| bls_keygen(format!("large-val-{i}").as_bytes()))
        .collect();
    let sigs: Vec<BlsSignature> = keypairs
        .iter()
        .map(|kp| bls_sign(&kp.secret, message))
        .collect();

    // Build verifiable aggregate
    let refs: Vec<(usize, &BlsPublicKey, &BlsSignature)> = keypairs
        .iter()
        .zip(sigs.iter())
        .enumerate()
        .map(|(i, (kp, sig))| (i, &kp.public, sig))
        .collect();
    let (agg_pk, agg_sig) = create_verifiable_aggregate(&refs, message).unwrap();

    // Should verify
    assert!(verify_aggregate(&agg_pk, message, &agg_sig));
    assert_eq!(agg_pk.participant_count, n);
    assert_eq!(agg_sig.signer_count, n);
    assert_eq!(agg_sig.signers.len(), n);

    // Threshold check: 100 of 100 meets 67 threshold (2/3)
    let config = ThresholdConfig {
        total_signers: 100,
        threshold: 67,
    };
    assert!(meets_threshold(&agg_sig, &config));
}

#[test]
fn test_empty_aggregate_fails_verify() {
    let agg_pk = AggregatePublicKey {
        key: BlsPublicKey([0u8; BLS_PK_LEN]),
        participant_count: 0,
    };
    let agg_sig = AggregateSignature {
        signature: BlsSignature([0u8; BLS_SIG_LEN]),
        signers: vec![],
        signer_count: 0,
    };

    assert!(!verify_aggregate(&agg_pk, b"anything", &agg_sig));
}

#[test]
fn test_real_pairing_security() {
    // Verify that forged signatures fail (this is trivially true with
    // BLAKE3 simulation but cryptographically meaningful with real BLS)
    let kp = bls_keygen(b"security-test");
    let message = b"important consensus vote";

    // Random bytes should not verify as a valid signature
    let fake_sig = BlsSignature([0xAB; BLS_SIG_LEN]);
    assert!(!bls_verify(&kp.public, message, &fake_sig));

    // Sign with one key, try to verify with another key
    let kp2 = bls_keygen(b"attacker-key");
    let sig = bls_sign(&kp.secret, message);
    assert!(!bls_verify(&kp2.public, message, &sig));
    assert!(bls_verify(&kp.public, message, &sig));
}

#[test]
fn test_aggregate_verify_wrong_message() {
    let message = b"correct message";
    let wrong_message = b"wrong message";

    let keypairs: Vec<BlsKeypair> = (0..3)
        .map(|i| bls_keygen(format!("agg-wrong-{i}").as_bytes()))
        .collect();
    let sigs: Vec<BlsSignature> = keypairs
        .iter()
        .map(|kp| bls_sign(&kp.secret, message))
        .collect();

    let refs: Vec<(usize, &BlsPublicKey, &BlsSignature)> = keypairs
        .iter()
        .zip(sigs.iter())
        .enumerate()
        .map(|(i, (kp, sig))| (i, &kp.public, sig))
        .collect();
    let (agg_pk, agg_sig) = create_verifiable_aggregate(&refs, message).unwrap();

    // Correct message verifies
    assert!(verify_aggregate(&agg_pk, message, &agg_sig));
    // Wrong message fails
    assert!(!verify_aggregate(&agg_pk, wrong_message, &agg_sig));
}
