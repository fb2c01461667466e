use arc_crypto::bls::{bls_keygen, bls_sign};
use arc_crypto::field::{field_add, field_inv, field_mul, field_sub, MERSENNE_P};
use arc_crypto::threshold::{
    bytes_to_field, eval_polynomial, field_to_bytes, lagrange_interpolate_at_zero,
};
use arc_crypto::{
    derive_public_key, KeyGeneration, ThresholdEncryption, ThresholdError, ThresholdScheme,
    ThresholdSigner, THRESHOLD_TAG_LEN,
};

fn test_secret() -> [u8; 32] {
    let mut s = [0u8; 32];
    s[0..16].copy_from_slice(b"arc-test-secret!");
    s
}

#[test]
fn test_field_add() {
    assert_eq!(field_add(0, 0), 0);
    assert_eq!(field_add(1, 1), 2);
    assert_eq!(field_add(MERSENNE_P - 1, 1), 0);
    assert_eq!(field_add(MERSENNE_P - 1, 2), 1);
}

#[test]
fn test_field_sub() {
    assert_eq!(field_sub(5, 3), 2);
    assert_eq!(field_sub(0, 1), MERSENNE_P - 1);
    assert_eq!(field_sub(3, 3), 0);
}

#[test]
fn test_field_mul() {
    assert_eq!(field_mul(0, 100), 0);
    assert_eq!(field_mul(1, 42), 42);
    assert_eq!(field_mul(2, 3), 6);
}

#[test]
fn test_field_inv() {
    // a * a^{-1} = 1 mod p.
    let a = 12345u64;
    let inv = field_inv(a);
    assert_eq!(field_mul(a, inv), 1);

    let b = MERSENNE_P - 1;
    let inv_b = field_inv(b);
    assert_eq!(field_mul(b, inv_b), 1);
}

#[test]
fn test_bytes_roundtrip() {
    let val = 999999u64;
    let bytes = field_to_bytes(val);
    let recovered = bytes_to_field(&bytes);
    assert_eq!(recovered, val);
}

#[test]
fn test_generate_shares_basic() {
    let secret = test_secret();
    let shares = KeyGeneration::generate_shares(&secret, 2, 3);
    assert_eq!(shares.len(), 3);
    // Indices should be 1, 2, 3.
    for (i, share) in shares.iter().enumerate() {
        assert_eq!(share.index, (i + 1) as u32);
    }
}

#[test]
fn test_recover_secret_exact_threshold() {
    let secret = test_secret();
    let shares = KeyGeneration::generate_shares(&secret, 2, 5);

    // Recover from exactly 2 shares.
    let subset = vec![shares[0].clone(), shares[2].clone()];
    let recovered = KeyGeneration::recover_secret(&subset, 2).unwrap();

    // Compare field elements (the secret is reduced mod p during sharing).
    let secret_field = bytes_to_field(&secret);
    let recovered_field = bytes_to_field(&recovered);
    assert_eq!(recovered_field, secret_field,
        "recovered secret field element does not match original");
}

#[test]
fn test_recover_secret_more_than_threshold() {
    let secret = test_secret();
    let shares = KeyGeneration::generate_shares(&secret, 3, 5);

    // Recover with 4 shares (more than the threshold of 3).
    let subset = vec![
        shares[0].clone(),
        shares[1].clone(),
        shares[3].clone(),
        shares[4].clone(),
    ];
    // Only the first `threshold` shares are used, but it should still work.
    let recovered = KeyGeneration::recover_secret(&subset, 3).unwrap();
    // The field element portion (first 8 bytes) must match.
    let secret_field = bytes_to_field(&secret);
    let recovered_field = bytes_to_field(&recovered);
    assert_eq!(recovered_field, secret_field);
}

#[test]
fn test_recover_insufficient_shares() {
    let secret = test_secret();
    let shares = KeyGeneration::generate_shares(&secret, 3, 5);
    let subset = vec![shares[0].clone()];
    let err = KeyGeneration::recover_secret(&subset, 3).unwrap_err();
    assert!(matches!(err, ThresholdError::InsufficientShares { needed: 3, got: 1 }));
}

#[test]
fn test_recover_duplicate_index() {
    let secret = test_secret();
    let shares = KeyGeneration::generate_shares(&secret, 2, 3);
    let subset = vec![shares[0].clone(), shares[0].clone()];
    let err = KeyGeneration::recover_secret(&subset, 2).unwrap_err();
    assert!(matches!(err, ThresholdError::DuplicateIndex(1)));
}

#[test]
fn test_verify_share() {
    let secret = test_secret();
    let shares = KeyGeneration::generate_shares(&secret, 2, 3);
    let commitments: Vec<[u8; 32]> = shares.iter().map(|s| s.commitment).collect();

    for share in &shares {
        assert!(KeyGeneration::verify_share(share, &commitments));
    }

    // Tampered share should fail.
    let mut bad_share = shares[0].clone();
    bad_share.value[0] ^= 0xFF;
    assert!(!KeyGeneration::verify_share(&bad_share, &commitments));
}

#[test]
fn test_partial_sign_deterministic() {
    let secret = test_secret();
    let shares = KeyGeneration::generate_shares(&secret, 2, 3);
    let scheme = ThresholdScheme {
        threshold: 2,
        total_shares: 3,
        dealer: None,
    };
    let signer = ThresholdSigner::new(scheme, shares[0].clone());
    let msg = b"hello ARC chain";

    let sig1 = signer.partial_sign(msg);
    let sig2 = signer.partial_sign(msg);
    assert_eq!(sig1.signature, sig2.signature, "partial signing must be deterministic");
    assert_eq!(sig1.signer_index, 1);
}

#[test]
fn test_combine_partials_and_verify() {
    let secret = test_secret();
    let shares = KeyGeneration::generate_shares(&secret, 2, 3);
    let scheme = ThresholdScheme {
        threshold: 2,
        total_shares: 3,
        dealer: None,
    };

    let signer0 = ThresholdSigner::new(scheme.clone(), shares[0].clone());
    let signer1 = ThresholdSigner::new(scheme.clone(), shares[1].clone());

    let msg = b"transfer 100 ARC tokens";
    let p0 = signer0.partial_sign(msg);
    let p1 = signer1.partial_sign(msg);

    let combined = signer0.combine_partials(&[p0, p1]).unwrap();
    let pubkey = derive_public_key(&secret);
    assert!(ThresholdSigner::verify_combined(msg, &combined, &pubkey));
}

#[test]
fn test_combine_insufficient_partials() {
    let secret = test_secret();
    let shares = KeyGeneration::generate_shares(&secret, 3, 5);
    let scheme = ThresholdScheme {
        threshold: 3,
        total_shares: 5,
        dealer: None,
    };

    let signer = ThresholdSigner::new(scheme, shares[0].clone());
    let msg = b"not enough signers";
    let p0 = signer.partial_sign(msg);

    let err = signer.combine_partials(&[p0]).unwrap_err();
    assert!(matches!(err, ThresholdError::InsufficientShares { needed: 3, got: 1 }));
}

#[test]
fn test_combine_duplicate_signer() {
    let secret = test_secret();
    let shares = KeyGeneration::generate_shares(&secret, 2, 3);
    let scheme = ThresholdScheme {
        threshold: 2,
        total_shares: 3,
        dealer: None,
    };

    let signer = ThresholdSigner::new(scheme, shares[0].clone());
    let msg = b"duplicate signer";
    let p0 = signer.partial_sign(msg);
    let p0_dup = signer.partial_sign(msg);

    let err = signer.combine_partials(&[p0, p0_dup]).unwrap_err();
    assert!(matches!(err, ThresholdError::DuplicateIndex(1)));
}

#[test]
fn test_threshold_1_of_1() {
    // Degenerate case: 1-of-1 threshold is equivalent to a normal signature.
    let secret = test_secret();
    let shares = KeyGeneration::generate_shares(&secret, 1, 1);
    assert_eq!(shares.len(), 1);

    let recovered = KeyGeneration::recover_secret(&shares, 1).unwrap();
    let secret_field = bytes_to_field(&secret);
    let recovered_field = bytes_to_field(&recovered);
    assert_eq!(recovered_field, secret_field);
}

#[test]
fn test_different_share_subsets_recover_same_secret() {
    let secret = test_secret();
    let shares = KeyGeneration::generate_shares(&secret, 3, 5);

    // Subset A: shares 1, 2, 3.
    let subset_a = vec![shares[0].clone(), shares[1].clone(), shares[2].clone()];
    let recovered_a = KeyGeneration::recover_secret(&subset_a, 3).unwrap();

    // Subset B: shares 3, 4, 5.
    let subset_b = vec![shares[2].clone(), shares[3].clone(), shares[4].clone()];
    let recovered_b = KeyGeneration::recover_secret(&subset_b, 3).unwrap();

    // Both should recover the same field element.
    assert_eq!(
        bytes_to_field(&recovered_a),
        bytes_to_field(&recovered_b),
        "different subsets must recover the same secret"
    );
}

#[test]
fn test_polynomial_evaluation() {
    // f(x) = 5 + 3x + 2x^2 mod p.
    let coeffs = vec![5u64, 3, 2];
    // f(0) = 5, f(1) = 10, f(2) = 19.
    assert_eq!(eval_polynomial(&coeffs, 0), 5);
    assert_eq!(eval_polynomial(&coeffs, 1), 10);
    assert_eq!(eval_polynomial(&coeffs, 2), 19);
}

#[test]
fn test_lagrange_interpolation_simple() {
    // Points from f(x) = 5 + 3x: f(1) = 8, f(2) = 11.
    let points = vec![(1u64, 8u64), (2, 11)];
    let f0 = lagrange_interpolate_at_zero(&points).unwrap();
    assert_eq!(f0, 5);
}

// ── ThresholdEncryption tests ─────────────────────────────────────────

#[test]
fn test_threshold_encrypt_decrypt_roundtrip() {
    let key = [42u8; 32];
    let plaintext = b"hello ARC chain threshold encryption";
    let ciphertext = ThresholdEncryption::encrypt(&key, plaintext);

    // Ciphertext must be: 12 (nonce) + plaintext.len() + 32 (tag)
    assert_eq!(ciphertext.len(), 12 + plaintext.len() + THRESHOLD_TAG_LEN);

    // Must not contain plaintext in the clear
    assert_ne!(&ciphertext[12..12 + plaintext.len()], &plaintext[..]);

    let decrypted = ThresholdEncryption::decrypt(&key, &ciphertext).unwrap();
    assert_eq!(&decrypted, &plaintext[..]);
}

#[test]
fn test_threshold_encrypt_empty_plaintext() {
    let key = [99u8; 32];
    let plaintext = b"";
    let ciphertext = ThresholdEncryption::encrypt(&key, plaintext);
    assert_eq!(ciphertext.len(), 12 + 0 + THRESHOLD_TAG_LEN);

    let decrypted = ThresholdEncryption::decrypt(&key, &ciphertext).unwrap();
    assert!(decrypted.is_empty());
}

#[test]
fn test_threshold_encrypt_wrong_key_fails() {
    let key = [1u8; 32];
    let wrong_key = [2u8; 32];
    let plaintext = b"secret data";
    let ciphertext = ThresholdEncryption::encrypt(&key, plaintext);

    assert!(ThresholdEncryption::decrypt(&wrong_key, &ciphertext).is_none());
}

#[test]
fn test_threshold_encrypt_tampered_ciphertext_fails() {
    let key = [7u8; 32];
    let plaintext = b"do not tamper";
    let mut ciphertext = ThresholdEncryption::encrypt(&key, plaintext);

    // Tamper with a ciphertext byte (after nonce, before tag)
    if ciphertext.len() > 12 + THRESHOLD_TAG_LEN + 1 {
        ciphertext[13] ^= 0xFF;
    }

    assert!(ThresholdEncryption::decrypt(&key, &ciphertext).is_none());
}

#[test]
fn test_threshold_encrypt_tampered_tag_fails() {
    let key = [8u8; 32];
    let plaintext = b"integrity check";
    let mut ciphertext = ThresholdEncryption::encrypt(&key, plaintext);

    // Tamper with the last byte of the tag
    let last = ciphertext.len() - 1;
    ciphertext[last] ^= 0xFF;

    assert!(ThresholdEncryption::decrypt(&key, &ciphertext).is_none());
}

#[test]
fn test_threshold_encrypt_with_nonce_deterministic() {
    let key = [10u8; 32];
    let nonce = [5u8; 12];
    let plaintext = b"deterministic test";

    let ct1 = ThresholdEncryption::encrypt_with_nonce(&key, plaintext, &nonce);
    let ct2 = ThresholdEncryption::encrypt_with_nonce(&key, plaintext, &nonce);
    assert_eq!(ct1, ct2, "same key+nonce+plaintext must produce identical ciphertext");
}

#[test]
fn test_derive_slot_key_from_bls_sigs() {
    let slot = 42u64;
    let msg = ThresholdEncryption::slot_message(slot);

    // 3 committee members sign the slot message
    let keypairs: Vec<_> = (0..3)
        .map(|i| bls_keygen(format!("committee-{i}").as_bytes()))
        .collect();
    let sigs: Vec<_> = keypairs.iter()
        .map(|kp| bls_sign(&kp.secret, &msg))
        .collect();

    let key = ThresholdEncryption::derive_slot_key(slot, &sigs);
    assert_eq!(key.len(), 32);

    // Same sigs, same slot => same key (deterministic)
    let key2 = ThresholdEncryption::derive_slot_key(slot, &sigs);
    assert_eq!(key, key2);

    // Different slot => different key
    let key3 = ThresholdEncryption::derive_slot_key(slot + 1, &sigs);
    assert_ne!(key, key3);
}

#[test]
fn test_full_threshold_encryption_flow() {
    // End-to-end: BLS key derivation -> encrypt -> decrypt
    let slot = 100u64;
    let msg = ThresholdEncryption::slot_message(slot);

    // Committee of 5 validators
    let keypairs: Vec<_> = (0..5)
        .map(|i| bls_keygen(format!("val-enc-{i}").as_bytes()))
        .collect();
    let sigs: Vec<_> = keypairs.iter()
        .map(|kp| bls_sign(&kp.secret, &msg))
        .collect();

    // Derive slot key from all 5 signatures
    let key = ThresholdEncryption::derive_slot_key(slot, &sigs);

    // Encrypt a transaction payload
    let tx_data = b"transfer 1000 ARC from alice to bob, nonce=7";
    let ciphertext = ThresholdEncryption::encrypt(&key, tx_data);

    // Decrypt with same key
    let decrypted = ThresholdEncryption::decrypt(&key, &ciphertext).unwrap();
    assert_eq!(&decrypted, &tx_data[..]);

    // Subset of 3 sigs derives a DIFFERENT key (intentional: all-or-threshold)
    let partial_key = ThresholdEncryption::derive_slot_key(slot, &sigs[..3]);
    assert_ne!(key, partial_key, "different sig subsets must produce different keys");
    assert!(ThresholdEncryption::decrypt(&partial_key, &ciphertext).is_none());
}

#[test]
fn test_threshold_encrypt_large_payload() {
    let key = [0xABu8; 32];
    // 10 KB payload to test multi-block keystream
    let plaintext: Vec<u8> = (0..10_000).map(|i| (i % 256) as u8).collect();
    let ciphertext = ThresholdEncryption::encrypt(&key, &plaintext);

    let decrypted = ThresholdEncryption::decrypt(&key, &ciphertext).unwrap();
    assert_eq!(decrypted, plaintext);
}

#[test]
fn test_threshold_decrypt_truncated_data_fails() {
    let key = [0xCDu8; 32];
    // Too short: less than nonce + tag
    assert!(ThresholdEncryption::decrypt(&key, &[0u8; 43]).is_none());
    assert!(ThresholdEncryption::decrypt(&key, &[0u8; 10]).is_none());
    assert!(ThresholdEncryption::decrypt(&key, &[]).is_none());
}
