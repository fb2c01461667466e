use arc_crypto::poseidon::{generate_mds_matrix, generate_round_constants};
use arc_crypto::{
    poseidon_hash, poseidon_hash_bytes, poseidon_hash_with_config, poseidon_merkle_hash,
    PoseidonConfig, PoseidonSponge,
};

#[test]
fn test_basic_hash() {
    let h = poseidon_hash(&[1, 2, 3]);
    assert_ne!(h, 0);
}

#[test]
fn test_consistency() {
    let a = poseidon_hash(&[42, 99]);
    let b = poseidon_hash(&[42, 99]);
    assert_eq!(a, b, "same inputs must produce same output");
}

#[test]
fn test_different_inputs_different_outputs() {
    let a = poseidon_hash(&[1, 2]);
    let b = poseidon_hash(&[2, 1]);
    assert_ne!(a, b, "different inputs should produce different outputs");
}

#[test]
fn test_single_input() {
    let h = poseidon_hash(&[7]);
    assert_ne!(h, 0);
}

#[test]
fn test_empty_input() {
    let h = poseidon_hash(&[]);
    assert_ne!(h, 0, "empty input should still produce a non-zero hash");
}

#[test]
fn test_large_input() {
    let data: Vec<u64> = (0..100).collect();
    let h = poseidon_hash(&data);
    assert_ne!(h, 0);
}

#[test]
fn test_merkle_hash() {
    let h = poseidon_merkle_hash(10, 20);
    assert_ne!(h, 0);
    // Commutativity should NOT hold (order matters).
    let h2 = poseidon_merkle_hash(20, 10);
    assert_ne!(h, h2);
}

#[test]
fn test_merkle_hash_consistency() {
    let a = poseidon_merkle_hash(100, 200);
    let b = poseidon_merkle_hash(100, 200);
    assert_eq!(a, b);
}

#[test]
fn test_hash_bytes() {
    let digest = poseidon_hash_bytes(b"hello world");
    assert_ne!(digest, [0u8; 32]);
}

#[test]
fn test_hash_bytes_consistency() {
    let a = poseidon_hash_bytes(b"arc chain");
    let b = poseidon_hash_bytes(b"arc chain");
    assert_eq!(a, b);
}

#[test]
fn test_hash_bytes_different() {
    let a = poseidon_hash_bytes(b"foo");
    let b = poseidon_hash_bytes(b"bar");
    assert_ne!(a, b);
}

#[test]
fn test_sponge_basic() {
    let mut sponge = PoseidonSponge::new();
    sponge.absorb(&[1, 2, 3, 4, 5]);
    let out = sponge.squeeze(2);
    assert_eq!(out.len(), 2);
    assert_ne!(out[0], 0);
}

#[test]
fn test_sponge_consistency() {
    let mut s1 = PoseidonSponge::new();
    s1.absorb(&[10, 20, 30]);
    let o1 = s1.squeeze(1);

    let mut s2 = PoseidonSponge::new();
    s2.absorb(&[10, 20, 30]);
    let o2 = s2.squeeze(1);

    assert_eq!(o1, o2);
}

#[test]
fn test_sponge_incremental_absorb() {
    // Absorbing in parts should equal absorbing all at once.
    let mut s_all = PoseidonSponge::new();
    s_all.absorb(&[1, 2, 3, 4]);
    let o_all = s_all.squeeze(1);

    let mut s_parts = PoseidonSponge::new();
    s_parts.absorb(&[1, 2]);
    s_parts.absorb(&[3, 4]);
    let o_parts = s_parts.squeeze(1);

    assert_eq!(o_all, o_parts, "incremental absorb must match bulk absorb");
}

#[test]
fn test_collision_resistance_sanity() {
    // Hash 1000 random-ish inputs and check no collisions.
    let mut seen = std::collections::HashSet::new();
    for i in 0u64..1000 {
        let h = poseidon_hash(&[i]);
        assert!(seen.insert(h), "collision at input {i}");
    }
}

#[test]
fn test_custom_config() {
    let config = PoseidonConfig {
        width: 5,
        full_rounds: 8,
        partial_rounds: 22,
        alpha: 5,
    };
    let h = poseidon_hash_with_config(&[1, 2, 3], &config);
    assert_ne!(h, 0);
}

#[test]
fn test_mds_matrix_dimensions() {
    let mds = generate_mds_matrix(3);
    assert_eq!(mds.len(), 3);
    for row in &mds {
        assert_eq!(row.len(), 3);
    }
}

#[test]
fn test_round_constants_deterministic() {
    let a = generate_round_constants(10);
    let b = generate_round_constants(10);
    assert_eq!(a, b);
}
