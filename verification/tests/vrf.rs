use arc_crypto::{vrf_prove, vrf_verify, KeyPair};

#[test]
fn test_vrf_prove_verify() {
    let kp = KeyPair::generate_ed25519();
    let address = kp.address();
    let alpha = b"block-42-slot-7";

    let (proof, output) = vrf_prove(&kp, alpha).expect("prove ok");
    let verified = vrf_verify(&address, alpha, &proof).expect("verify ok");

    assert_eq!(output, verified, "prove and verify must yield the same output");
}

#[test]
fn test_vrf_different_inputs() {
    let kp = KeyPair::generate_ed25519();
    let alpha_a = b"input-a";
    let alpha_b = b"input-b";

    let (_, output_a) = vrf_prove(&kp, alpha_a).expect("prove a");
    let (_, output_b) = vrf_prove(&kp, alpha_b).expect("prove b");

    assert_ne!(
        output_a, output_b,
        "different inputs must produce different outputs"
    );
}

#[test]
fn test_vrf_wrong_key_fails() {
    let kp = KeyPair::generate_ed25519();
    let other = KeyPair::generate_ed25519();
    let alpha = b"leader-election-epoch-99";

    let (proof, _) = vrf_prove(&kp, alpha).expect("prove ok");
    let wrong_address = other.address();

    let result = vrf_verify(&wrong_address, alpha, &proof);
    assert!(
        result.is_err(),
        "verification must fail with a different key's address"
    );
}

#[test]
fn test_vrf_deterministic() {
    let kp = KeyPair::generate_ed25519();
    let alpha = b"deterministic-test";

    let (_, output1) = vrf_prove(&kp, alpha).expect("prove 1");
    let (_, output2) = vrf_prove(&kp, alpha).expect("prove 2");

    assert_eq!(
        output1, output2,
        "same keypair + same input must produce identical outputs"
    );
}

#[test]
fn test_vrf_tampered_proof_fails() {
    let kp = KeyPair::generate_ed25519();
    let address = kp.address();
    let alpha = b"tamper-test";

    let (mut proof, _) = vrf_prove(&kp, alpha).expect("prove ok");

    // Tamper with gamma — flip a byte.
    proof.gamma.0[0] ^= 0xff;

    let result = vrf_verify(&address, alpha, &proof);
    assert!(
        result.is_err(),
        "verification must fail when gamma is tampered"
    );
}

#[test]
fn test_vrf_wrong_alpha_fails() {
    let kp = KeyPair::generate_ed25519();
    let address = kp.address();
    let alpha = b"original-input";

    let (proof, _) = vrf_prove(&kp, alpha).expect("prove ok");

    // Verify with a different alpha.
    let result = vrf_verify(&address, b"different-input", &proof);
    assert!(
        result.is_err(),
        "verification must fail when alpha is changed"
    );
}

#[test]
fn test_vrf_output_is_32_bytes() {
    let kp = KeyPair::generate_ed25519();
    let (_, output) = vrf_prove(&kp, b"size-check").expect("prove ok");
    assert_eq!(output.0.as_bytes().len(), 32);
}

#[test]
fn test_vrf_different_keys_same_input() {
    let kp1 = KeyPair::generate_ed25519();
    let kp2 = KeyPair::generate_ed25519();
    let alpha = b"same-input";

    let (_, output1) = vrf_prove(&kp1, alpha).expect("prove 1");
    let (_, output2) = vrf_prove(&kp2, alpha).expect("prove 2");

    assert_ne!(
        output1, output2,
        "different keys with same input must produce different outputs"
    );
}
