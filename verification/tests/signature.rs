use arc_crypto::signature::{ML_DSA_PK_LEN, ML_DSA_SIG_LEN};
use arc_crypto::{
    batch_verify_ed25519, batch_verify_falcon512, batch_verify_ml_dsa, falcon_batch_verify,
    falcon_keygen, falcon_sign, falcon_verify, hash_bytes, KeyPair, Signature, FALCON_PK_LEN,
    FALCON_SIG_MAX_LEN, FALCON_SK_LEN,
};
use ed25519_dalek::Signer;

// ── Ed25519 ──

#[test]
fn ed25519_sign_and_verify() {
    let kp = KeyPair::generate_ed25519();
    let address = kp.address();
    let msg = hash_bytes(b"test transaction");

    let sig = kp.sign(&msg).expect("sign ok");
    sig.verify(&msg, &address).expect("verify ok");
}

#[test]
fn ed25519_wrong_address_fails() {
    let kp = KeyPair::generate_ed25519();
    let wrong = hash_bytes(b"wrong address");
    let msg = hash_bytes(b"test transaction");

    let sig = kp.sign(&msg).expect("sign ok");
    assert!(sig.verify(&msg, &wrong).is_err());
}

#[test]
fn ed25519_wrong_message_fails() {
    let kp = KeyPair::generate_ed25519();
    let address = kp.address();
    let msg = hash_bytes(b"test transaction");
    let wrong_msg = hash_bytes(b"different");

    let sig = kp.sign(&msg).expect("sign ok");
    assert!(sig.verify(&wrong_msg, &address).is_err());
}

#[test]
fn ed25519_address_is_deterministic() {
    let kp = KeyPair::generate_ed25519();
    assert_eq!(kp.address(), kp.address());
}

// ── Secp256k1 ──

#[test]
fn secp256k1_sign_and_verify() {
    let kp = KeyPair::generate_secp256k1();
    let address = kp.address();
    let msg = hash_bytes(b"test transaction");

    let sig = kp.sign(&msg).expect("sign ok");
    sig.verify(&msg, &address).expect("verify ok");
}

#[test]
fn secp256k1_wrong_address_fails() {
    let kp = KeyPair::generate_secp256k1();
    let wrong = hash_bytes(b"wrong address");
    let msg = hash_bytes(b"test transaction");

    let sig = kp.sign(&msg).expect("sign ok");
    assert!(sig.verify(&msg, &wrong).is_err());
}

#[test]
fn secp256k1_wrong_message_fails() {
    let kp = KeyPair::generate_secp256k1();
    let address = kp.address();
    let msg = hash_bytes(b"msg1");
    let wrong = hash_bytes(b"msg2");

    let sig = kp.sign(&msg).expect("sign ok");
    assert!(sig.verify(&wrong, &address).is_err());
}

// ── ML-DSA-65 (Post-Quantum) ──

#[test]
fn ml_dsa_sign_and_verify() {
    let kp = KeyPair::generate_ml_dsa().expect("key generation ok");
    let address = kp.address();
    let msg = hash_bytes(b"quantum-proof transaction");

    let sig = kp.sign(&msg).expect("sign ok");
    sig.verify(&msg, &address).expect("verify ok");
}

#[test]
fn ml_dsa_wrong_address_fails() {
    let kp = KeyPair::generate_ml_dsa().expect("key generation ok");
    let wrong = hash_bytes(b"wrong address");
    let msg = hash_bytes(b"quantum-proof transaction");

    let sig = kp.sign(&msg).expect("sign ok");
    assert!(sig.verify(&msg, &wrong).is_err());
}

#[test]
fn ml_dsa_wrong_message_fails() {
    let kp = KeyPair::generate_ml_dsa().expect("key generation ok");
    let address = kp.address();
    let msg = hash_bytes(b"msg1");
    let wrong = hash_bytes(b"msg2");

    let sig = kp.sign(&msg).expect("sign ok");
    assert!(sig.verify(&wrong, &address).is_err());
}

#[test]
fn ml_dsa_address_is_deterministic() {
    let kp = KeyPair::generate_ml_dsa().expect("key generation ok");
    assert_eq!(kp.address(), kp.address());
}

#[test]
fn ml_dsa_public_key_bytes_correct_length() {
    let kp = KeyPair::generate_ml_dsa().expect("key generation ok");
    assert_eq!(kp.public_key_bytes().len(), ML_DSA_PK_LEN);
}

#[test]
fn ml_dsa_signature_correct_length() {
    let kp = KeyPair::generate_ml_dsa().expect("key generation ok");
    let msg = hash_bytes(b"test");
    let sig = kp.sign(&msg).expect("sign ok");
    match sig {
        Signature::MlDsa65 { signature, public_key } => {
            assert_eq!(signature.len(), ML_DSA_SIG_LEN);
            assert_eq!(public_key.len(), ML_DSA_PK_LEN);
        }
        _ => panic!("expected MlDsa65 signature"),
    }
}

// ── Batch verification ──

#[test]
fn batch_verify_10_ed25519() {
    let keys: Vec<_> = (0..10)
        .map(|_| ed25519_dalek::SigningKey::generate(&mut rand::rngs::OsRng))
        .collect();

    let messages: Vec<Vec<u8>> = (0..10)
        .map(|i| format!("message {}", i).into_bytes())
        .collect();

    let signatures: Vec<_> = keys
        .iter()
        .zip(messages.iter())
        .map(|(sk, msg)| {
            sk.sign(msg).to_bytes()
        })
        .collect();

    let verifying_keys: Vec<_> = keys.iter().map(|sk| sk.verifying_key().to_bytes()).collect();
    let msg_refs: Vec<&[u8]> = messages.iter().map(|m| m.as_slice()).collect();

    batch_verify_ed25519(&msg_refs, &signatures, &verifying_keys).expect("batch verify ok");
}

#[test]
fn batch_verify_fails_on_bad_signature() {
    let keys: Vec<_> = (0..5)
        .map(|_| ed25519_dalek::SigningKey::generate(&mut rand::rngs::OsRng))
        .collect();

    let messages: Vec<Vec<u8>> = (0..5)
        .map(|i| format!("message {}", i).into_bytes())
        .collect();

    let mut signatures: Vec<_> = keys
        .iter()
        .zip(messages.iter())
        .map(|(sk, msg)| {
            sk.sign(msg).to_bytes()
        })
        .collect();

    // Corrupt one signature by signing a different message
    {
        signatures[2] = keys[2].sign(b"tampered").to_bytes();
    }

    let verifying_keys: Vec<_> = keys.iter().map(|sk| sk.verifying_key().to_bytes()).collect();
    let msg_refs: Vec<&[u8]> = messages.iter().map(|m| m.as_slice()).collect();

    assert!(batch_verify_ed25519(&msg_refs, &signatures, &verifying_keys).is_err());
}

#[test]
fn batch_verify_ml_dsa_5_signatures() {
    let count = 5;
    let mut messages: Vec<Vec<u8>> = Vec::with_capacity(count);
    let mut signatures: Vec<[u8; ML_DSA_SIG_LEN]> = Vec::with_capacity(count);
    let mut public_keys: Vec<[u8; ML_DSA_PK_LEN]> = Vec::with_capacity(count);

    for i in 0..count {
        let kp = KeyPair::generate_ml_dsa().expect("key generation ok");
        let msg = format!("quantum message {}", i).into_bytes();
        let msg_hash = hash_bytes(&msg);
        let sig = kp.sign(&msg_hash).expect("sign ok");

        match sig {
            Signature::MlDsa65 {
                public_key,
                signature,
            } => {
                messages.push(msg_hash.as_bytes().to_vec());
                signatures.push(signature.as_slice().try_into().unwrap());
                public_keys.push(public_key.as_slice().try_into().unwrap());
            }
            _ => panic!("expected MlDsa65"),
        }
    }

    let msg_refs: Vec<&[u8]> = messages.iter().map(|m| m.as_slice()).collect();
    batch_verify_ml_dsa(&msg_refs, &signatures, &public_keys).expect("batch verify ok");
}

#[test]
fn batch_verify_ml_dsa_fails_on_bad_signature() {
    let count = 3;
    let mut messages: Vec<Vec<u8>> = Vec::with_capacity(count);
    let mut signatures: Vec<[u8; ML_DSA_SIG_LEN]> = Vec::with_capacity(count);
    let mut public_keys: Vec<[u8; ML_DSA_PK_LEN]> = Vec::with_capacity(count);

    for i in 0..count {
        let kp = KeyPair::generate_ml_dsa().expect("key generation ok");
        let msg = format!("quantum message {}", i).into_bytes();
        let msg_hash = hash_bytes(&msg);
        let sig = kp.sign(&msg_hash).expect("sign ok");

        match sig {
            Signature::MlDsa65 {
                public_key,
                signature,
            } => {
                messages.push(msg_hash.as_bytes().to_vec());
                signatures.push(signature.as_slice().try_into().unwrap());
                public_keys.push(public_key.as_slice().try_into().unwrap());
            }
            _ => panic!("expected MlDsa65"),
        }
    }

    // Corrupt: use a different message for verification of entry 1
    messages[1] = hash_bytes(b"tampered").as_bytes().to_vec();

    let msg_refs: Vec<&[u8]> = messages.iter().map(|m| m.as_slice()).collect();
    assert!(batch_verify_ml_dsa(&msg_refs, &signatures, &public_keys).is_err());
}

// ── Falcon-512 (Post-Quantum) ──

#[test]
fn falcon512_sign_and_verify() {
    let kp = KeyPair::generate_falcon512();
    let address = kp.address();
    let msg = hash_bytes(b"falcon quantum-proof transaction");

    let sig = kp.sign(&msg).expect("sign ok");
    sig.verify(&msg, &address).expect("verify ok");
}

#[test]
fn falcon512_wrong_address_fails() {
    let kp = KeyPair::generate_falcon512();
    let wrong = hash_bytes(b"wrong address");
    let msg = hash_bytes(b"falcon quantum-proof transaction");

    let sig = kp.sign(&msg).expect("sign ok");
    assert!(sig.verify(&msg, &wrong).is_err());
}

#[test]
fn falcon512_wrong_message_fails() {
    let kp = KeyPair::generate_falcon512();
    let address = kp.address();
    let msg = hash_bytes(b"msg1");
    let wrong = hash_bytes(b"msg2");

    let sig = kp.sign(&msg).expect("sign ok");
    assert!(sig.verify(&wrong, &address).is_err());
}

#[test]
fn falcon512_address_is_deterministic() {
    let kp = KeyPair::generate_falcon512();
    assert_eq!(kp.address(), kp.address());
}

#[test]
fn falcon512_public_key_bytes_correct_length() {
    let kp = KeyPair::generate_falcon512();
    assert_eq!(kp.public_key_bytes().len(), FALCON_PK_LEN);
}

#[test]
fn falcon512_signature_correct_length() {
    let kp = KeyPair::generate_falcon512();
    let msg = hash_bytes(b"test");
    let sig = kp.sign(&msg).expect("sign ok");
    match sig {
        Signature::Falcon512 { signature, public_key } => {
            assert!(signature.len() <= FALCON_SIG_MAX_LEN);
            assert!(signature.len() > 0);
            assert_eq!(public_key.len(), FALCON_PK_LEN);
        }
        _ => panic!("expected Falcon512 signature"),
    }
}

#[test]
fn falcon512_is_not_null() {
    let kp = KeyPair::generate_falcon512();
    let sig = kp.sign(&hash_bytes(b"x")).unwrap();
    assert!(!sig.is_null());
}

// ── Falcon-512 standalone helpers ──

#[test]
fn falcon_keygen_produces_valid_keys() {
    let (pk, sk) = falcon_keygen();
    assert_eq!(pk.len(), FALCON_PK_LEN);
    assert_eq!(sk.len(), FALCON_SK_LEN);
}

#[test]
fn falcon_sign_and_verify_standalone() {
    let (pk, sk) = falcon_keygen();
    let msg = b"standalone falcon test";
    let sig = falcon_sign(&sk, msg).expect("sign ok");
    assert!(falcon_verify(&pk, msg, &sig));
}

#[test]
fn falcon_verify_rejects_wrong_message() {
    let (pk, sk) = falcon_keygen();
    let sig = falcon_sign(&sk, b"correct").expect("sign ok");
    assert!(!falcon_verify(&pk, b"wrong", &sig));
}

#[test]
fn falcon_batch_verify_all_valid() {
    let count = 5;
    let mut pks = Vec::with_capacity(count);
    let mut msgs: Vec<Vec<u8>> = Vec::with_capacity(count);
    let mut sigs = Vec::with_capacity(count);

    for i in 0..count {
        let (pk, sk) = falcon_keygen();
        let msg = format!("falcon batch message {}", i).into_bytes();
        let sig = falcon_sign(&sk, &msg).expect("sign ok");
        pks.push(pk);
        msgs.push(msg);
        sigs.push(sig);
    }

    let pk_refs: Vec<&[u8]> = pks.iter().map(|p| p.as_slice()).collect();
    let msg_refs: Vec<&[u8]> = msgs.iter().map(|m| m.as_slice()).collect();
    let sig_refs: Vec<&[u8]> = sigs.iter().map(|s| s.as_slice()).collect();

    let results = falcon_batch_verify(&pk_refs, &msg_refs, &sig_refs);
    assert!(results.iter().all(|&v| v));
}

#[test]
fn falcon_batch_verify_detects_bad_signature() {
    let count = 3;
    let mut pks = Vec::with_capacity(count);
    let mut msgs: Vec<Vec<u8>> = Vec::with_capacity(count);
    let mut sigs = Vec::with_capacity(count);

    for i in 0..count {
        let (pk, sk) = falcon_keygen();
        let msg = format!("falcon batch message {}", i).into_bytes();
        let sig = falcon_sign(&sk, &msg).expect("sign ok");
        pks.push(pk);
        msgs.push(msg);
        sigs.push(sig);
    }

    // Corrupt message at index 1
    msgs[1] = b"tampered".to_vec();

    let pk_refs: Vec<&[u8]> = pks.iter().map(|p| p.as_slice()).collect();
    let msg_refs: Vec<&[u8]> = msgs.iter().map(|m| m.as_slice()).collect();
    let sig_refs: Vec<&[u8]> = sigs.iter().map(|s| s.as_slice()).collect();

    let results = falcon_batch_verify(&pk_refs, &msg_refs, &sig_refs);
    assert!(results[0], "first should be valid");
    assert!(!results[1], "second should be invalid (tampered)");
    assert!(results[2], "third should be valid");
}

// ── Batch verification (Falcon-512 aggregate) ──

#[test]
fn batch_verify_falcon512_5_signatures() {
    let count = 5;
    let mut messages: Vec<Vec<u8>> = Vec::with_capacity(count);
    let mut signatures: Vec<Vec<u8>> = Vec::with_capacity(count);
    let mut public_keys: Vec<Vec<u8>> = Vec::with_capacity(count);

    for i in 0..count {
        let kp = KeyPair::generate_falcon512();
        let msg = format!("falcon quantum message {}", i).into_bytes();
        let msg_hash = hash_bytes(&msg);
        let sig = kp.sign(&msg_hash).expect("sign ok");

        match sig {
            Signature::Falcon512 { public_key, signature } => {
                messages.push(msg_hash.as_bytes().to_vec());
                signatures.push(signature);
                public_keys.push(public_key);
            }
            _ => panic!("expected Falcon512"),
        }
    }

    let msg_refs: Vec<&[u8]> = messages.iter().map(|m| m.as_slice()).collect();
    let sig_refs: Vec<&[u8]> = signatures.iter().map(|s| s.as_slice()).collect();
    let pk_refs: Vec<&[u8]> = public_keys.iter().map(|p| p.as_slice()).collect();

    batch_verify_falcon512(&msg_refs, &sig_refs, &pk_refs).expect("batch verify ok");
}

#[test]
fn batch_verify_falcon512_fails_on_bad_signature() {
    let count = 3;
    let mut messages: Vec<Vec<u8>> = Vec::with_capacity(count);
    let mut signatures: Vec<Vec<u8>> = Vec::with_capacity(count);
    let mut public_keys: Vec<Vec<u8>> = Vec::with_capacity(count);

    for i in 0..count {
        let kp = KeyPair::generate_falcon512();
        let msg = format!("falcon quantum message {}", i).into_bytes();
        let msg_hash = hash_bytes(&msg);
        let sig = kp.sign(&msg_hash).expect("sign ok");

        match sig {
            Signature::Falcon512 { public_key, signature } => {
                messages.push(msg_hash.as_bytes().to_vec());
                signatures.push(signature);
                public_keys.push(public_key);
            }
            _ => panic!("expected Falcon512"),
        }
    }

    // Corrupt: tamper with a message
    messages[1] = hash_bytes(b"tampered").as_bytes().to_vec();

    let msg_refs: Vec<&[u8]> = messages.iter().map(|m| m.as_slice()).collect();
    let sig_refs: Vec<&[u8]> = signatures.iter().map(|s| s.as_slice()).collect();
    let pk_refs: Vec<&[u8]> = public_keys.iter().map(|p| p.as_slice()).collect();

    assert!(batch_verify_falcon512(&msg_refs, &sig_refs, &pk_refs).is_err());
}

// ── Null / Default ──

#[test]
fn null_signature() {
    let sig = Signature::null();
    assert!(sig.is_null());
    assert_eq!(sig, Signature::default());
}

#[test]
fn non_null_signature() {
    let kp = KeyPair::generate_ed25519();
    let sig = kp.sign(&hash_bytes(b"x")).unwrap();
    assert!(!sig.is_null());
}

#[test]
fn ml_dsa_signature_is_not_null() {
    let kp = KeyPair::generate_ml_dsa().expect("key generation ok");
    let sig = kp.sign(&hash_bytes(b"x")).unwrap();
    assert!(!sig.is_null());
}

// ── Cross-scheme ──

#[test]
fn ed25519_and_secp256k1_addresses_differ() {
    let ed = KeyPair::generate_ed25519();
    let secp = KeyPair::generate_secp256k1();
    // Different schemes → different addresses (collision probability ~2^-256)
    assert_ne!(ed.address(), secp.address());
}

#[test]
fn all_four_schemes_produce_different_addresses() {
    let ed = KeyPair::generate_ed25519();
    let secp = KeyPair::generate_secp256k1();
    let ml = KeyPair::generate_ml_dsa().expect("key generation ok");
    let falcon = KeyPair::generate_falcon512();
    assert_ne!(ed.address(), secp.address());
    assert_ne!(ed.address(), ml.address());
    assert_ne!(ed.address(), falcon.address());
    assert_ne!(secp.address(), ml.address());
    assert_ne!(secp.address(), falcon.address());
    assert_ne!(ml.address(), falcon.address());
}
