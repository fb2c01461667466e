use arc_crypto::{hash_bytes, hash_pair, Hash256};

#[test]
fn test_hash_deterministic() {
    let a = hash_bytes(b"hello world");
    let b = hash_bytes(b"hello world");
    assert_eq!(a, b);
}

#[test]
fn test_hash_different_inputs() {
    let a = hash_bytes(b"hello");
    let b = hash_bytes(b"world");
    assert_ne!(a, b);
}

#[test]
fn test_hash_pair_order_matters() {
    let a = hash_bytes(b"left");
    let b = hash_bytes(b"right");
    assert_ne!(hash_pair(&a, &b), hash_pair(&b, &a));
}

#[test]
fn test_hex_roundtrip() {
    let h = hash_bytes(b"test");
    let hex_str = h.to_hex();
    let recovered = Hash256::from_hex(&hex_str).unwrap();
    assert_eq!(h, recovered);
}
