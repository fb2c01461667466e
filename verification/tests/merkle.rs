use arc_crypto::{hash_bytes, hash_pair, Hash256, IncrementalMerkle, MerkleTree};

#[test]
fn test_single_leaf() {
    let leaf = hash_bytes(b"tx-0");
    let tree = MerkleTree::from_leaves(vec![leaf]);
    // Single leaf padded to 2, root = hash(leaf, leaf)
    assert_ne!(tree.root(), Hash256::zero());
}

#[test]
fn test_two_leaves() {
    let a = hash_bytes(b"tx-0");
    let b = hash_bytes(b"tx-1");
    let tree = MerkleTree::from_leaves(vec![a, b]);
    assert_eq!(tree.root(), hash_pair(&a, &b));
}

#[test]
fn test_proof_verify() {
    let leaves: Vec<Hash256> = (0..1000u32)
        .map(|i| hash_bytes(&i.to_le_bytes()))
        .collect();
    let tree = MerkleTree::from_leaves(leaves);

    // Prove leaf 42
    let proof = tree.proof_of(42).unwrap();
    assert!(MerkleTree::verify_proof(&proof));
}

#[test]
fn test_proof_fails_with_wrong_leaf() {
    let leaves: Vec<Hash256> = (0..100u32)
        .map(|i| hash_bytes(&i.to_le_bytes()))
        .collect();
    let tree = MerkleTree::from_leaves(leaves);

    let mut proof = tree.proof_of(42).unwrap();
    proof.leaf = hash_bytes(b"wrong");
    assert!(!MerkleTree::verify_proof(&proof));
}

#[test]
fn test_large_tree() {
    let leaves: Vec<Hash256> = (0..1_000_000u32)
        .map(|i| hash_bytes(&i.to_le_bytes()))
        .collect();
    let tree = MerkleTree::from_leaves(leaves);
    assert_eq!(tree.leaf_count(), 1_000_000);

    // Verify random proofs
    for idx in [0, 999, 500_000, 999_999] {
        let proof = tree.proof_of(idx).unwrap();
        assert!(MerkleTree::verify_proof(&proof));
    }
}

// ── IncrementalMerkle tests ───────────────────────────────────────

#[test]
fn test_incremental_matches_full_rebuild() {
    // Build with IncrementalMerkle and compare against MerkleTree.
    let mut im = IncrementalMerkle::new();
    let keys: Vec<[u8; 32]> = (0u32..100)
        .map(|i| {
            let mut k = [0u8; 32];
            k[..4].copy_from_slice(&i.to_be_bytes());
            k
        })
        .collect();
    let hashes: Vec<Hash256> = keys.iter().map(|k| hash_bytes(k)).collect();

    for (k, h) in keys.iter().zip(hashes.iter()) {
        im.update(*k, *h);
    }
    im.rebuild();

    // The sorted order of keys is 0,1,2,...,99 because big-endian.
    let mut sorted_pairs: Vec<([u8; 32], Hash256)> =
        keys.iter().copied().zip(hashes.iter().copied()).collect();
    sorted_pairs.sort_by_key(|(k, _)| *k);
    let sorted_hashes: Vec<Hash256> = sorted_pairs.iter().map(|(_, h)| *h).collect();

    let full_tree = MerkleTree::from_leaves(sorted_hashes);
    assert_eq!(im.root(), full_tree.root());
}

#[test]
fn test_incremental_update_matches_full() {
    let mut im = IncrementalMerkle::new();
    let n = 50u32;
    let keys: Vec<[u8; 32]> = (0..n)
        .map(|i| {
            let mut k = [0u8; 32];
            k[..4].copy_from_slice(&i.to_be_bytes());
            k
        })
        .collect();
    let hashes: Vec<Hash256> = keys.iter().map(|k| hash_bytes(k)).collect();

    for (k, h) in keys.iter().zip(hashes.iter()) {
        im.update(*k, *h);
    }
    im.rebuild();

    // Change a few leaves incrementally.
    let new_hash_10 = hash_bytes(b"updated-10");
    let new_hash_25 = hash_bytes(b"updated-25");
    let new_hash_49 = hash_bytes(b"updated-49"); // last leaf

    let (idx10, new10) = im.update(keys[10], new_hash_10);
    let (idx25, new25) = im.update(keys[25], new_hash_25);
    let (idx49, new49) = im.update(keys[49], new_hash_49);
    assert!(!new10);
    assert!(!new25);
    assert!(!new49);

    im.recompute_paths(&[idx10, idx25, idx49]);

    // Build the expected tree from scratch.
    let mut expected_hashes = hashes.clone();
    expected_hashes[10] = new_hash_10;
    expected_hashes[25] = new_hash_25;
    expected_hashes[49] = new_hash_49;
    // Keys are already in sorted order (0,1,...,49 big-endian).
    let full_tree = MerkleTree::from_leaves(expected_hashes);
    assert_eq!(im.root(), full_tree.root());
}

#[test]
fn test_incremental_odd_leaf_count() {
    // Odd number of leaves — tests padding edge case.
    let mut im = IncrementalMerkle::new();
    let n = 7u32;
    let keys: Vec<[u8; 32]> = (0..n)
        .map(|i| {
            let mut k = [0u8; 32];
            k[..4].copy_from_slice(&i.to_be_bytes());
            k
        })
        .collect();
    let hashes: Vec<Hash256> = keys.iter().map(|k| hash_bytes(k)).collect();

    for (k, h) in keys.iter().zip(hashes.iter()) {
        im.update(*k, *h);
    }
    im.rebuild();

    let full = MerkleTree::from_leaves(hashes.clone());
    assert_eq!(im.root(), full.root());

    // Update the last leaf (padding boundary).
    let new_last = hash_bytes(b"new-last");
    let (idx, is_new) = im.update(keys[6], new_last);
    assert!(!is_new);
    im.recompute_paths(&[idx]);

    let mut updated = hashes;
    updated[6] = new_last;
    let full2 = MerkleTree::from_leaves(updated);
    assert_eq!(im.root(), full2.root());
}

#[test]
fn test_incremental_proof_verifies() {
    let mut im = IncrementalMerkle::new();
    let n = 100u32;
    let keys: Vec<[u8; 32]> = (0..n)
        .map(|i| {
            let mut k = [0u8; 32];
            k[..4].copy_from_slice(&i.to_be_bytes());
            k
        })
        .collect();
    let hashes: Vec<Hash256> = keys.iter().map(|k| hash_bytes(k)).collect();

    for (k, h) in keys.iter().zip(hashes.iter()) {
        im.update(*k, *h);
    }
    im.rebuild();

    // Generate and verify proofs at various positions.
    for idx in [0, 1, 50, 98, 99] {
        let proof = im.proof_of(idx).unwrap();
        assert!(MerkleTree::verify_proof(&proof), "proof failed at index {idx}");
    }
}
