use arc_crypto::blake3_commit::domains;
use arc_crypto::{batch_commit_parallel, commit_transaction};

#[test]
fn test_commit_deterministic() {
    let a = commit_transaction(domains::TRANSFER, b"tx-data-1");
    let b = commit_transaction(domains::TRANSFER, b"tx-data-1");
    assert_eq!(a.hash, b.hash);
}

#[test]
fn test_domain_separation() {
    let transfer = commit_transaction(domains::TRANSFER, b"same-data");
    let swap = commit_transaction(domains::SWAP, b"same-data");
    assert_ne!(transfer.hash, swap.hash);
}

#[test]
fn blake3_commit_test_batch_commit() {
    let txns: Vec<(u8, &[u8])> = vec![
        (domains::TRANSFER, b"tx1" as &[u8]),
        (domains::SETTLE, b"tx2"),
        (domains::SWAP, b"tx3"),
    ];
    let commits = batch_commit_parallel(&txns);
    assert_eq!(commits.len(), 3);
    // Each should match individual commit
    assert_eq!(commits[0].hash, commit_transaction(domains::TRANSFER, b"tx1").hash);
    assert_eq!(commits[1].hash, commit_transaction(domains::SETTLE, b"tx2").hash);
}

#[test]
fn test_batch_1m() {
    let data: Vec<[u8; 128]> = (0..1_000_000u32)
        .map(|i| {
            let mut buf = [0u8; 128];
            buf[..4].copy_from_slice(&i.to_le_bytes());
            buf
        })
        .collect();
    let txns: Vec<(u8, &[u8])> = data.iter().map(|d| (domains::TRANSFER, d.as_slice())).collect();
    let commits = batch_commit_parallel(&txns);
    assert_eq!(commits.len(), 1_000_000);
}
