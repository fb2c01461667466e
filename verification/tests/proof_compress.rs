use arc_crypto::proof_compress::{dict_decode, dict_encode, rle_decode, rle_encode};
use arc_crypto::{compress_proof, decompress_proof, BatchCompressor, ProofAggregator};

#[test]
fn test_compress_decompress_roundtrip() {
    let data = b"hello world this is a test proof with some repeated bytes aaaaaaaa";
    let compressed = compress_proof(data);
    let decompressed = decompress_proof(&compressed);
    assert_eq!(decompressed, data);
}

#[test]
fn test_compress_empty() {
    let compressed = compress_proof(&[]);
    let decompressed = decompress_proof(&compressed);
    assert_eq!(decompressed, Vec::<u8>::new());
    assert_eq!(compressed.original_size, 0);
}

#[test]
fn test_compress_single_byte() {
    let data = [0x42];
    let compressed = compress_proof(&data);
    let decompressed = decompress_proof(&compressed);
    assert_eq!(decompressed, data);
}

#[test]
fn test_rle_highly_repetitive() {
    // 1000 zeroes should compress well with RLE.
    let data = vec![0u8; 1000];
    let compressed = compress_proof(&data);
    let decompressed = decompress_proof(&compressed);
    assert_eq!(decompressed, data);
    // Should be much smaller.
    assert!(
        compressed.compressed_data.len() < data.len(),
        "RLE should compress repetitive data"
    );
}

#[test]
fn test_rle_encode_decode() {
    let data = vec![1, 1, 1, 2, 2, 3, 3, 3, 3];
    let encoded = rle_encode(&data);
    let decoded = rle_decode(&encoded);
    assert_eq!(decoded, data);
}

#[test]
fn test_dict_encode_decode() {
    let data = b"abcabcabcdef".to_vec();
    let encoded = dict_encode(&data);
    let decoded = dict_decode(&encoded);
    assert_eq!(decoded, data);
}

#[test]
fn test_aggregator_basic() {
    let mut agg = ProofAggregator::new();
    agg.add_proof(vec![1, 2, 3], vec![100]);
    agg.add_proof(vec![4, 5, 6], vec![200]);
    assert_eq!(agg.count(), 2);

    let aggregated = agg.aggregate();
    assert_eq!(aggregated.count, 2);
    assert_ne!(aggregated.merkle_root, [0u8; 32]);
}

#[test]
fn test_aggregator_verify() {
    let mut agg = ProofAggregator::new();
    agg.add_proof(vec![10, 20, 30], vec![1]);
    agg.add_proof(vec![40, 50, 60], vec![2]);
    agg.add_proof(vec![70, 80, 90], vec![3]);

    let aggregated = agg.aggregate();
    assert!(agg.verify_aggregated(&aggregated));
}

#[test]
fn test_aggregator_verify_tampered() {
    let mut agg = ProofAggregator::new();
    agg.add_proof(vec![1, 2], vec![1]);
    agg.add_proof(vec![3, 4], vec![2]);

    let mut aggregated = agg.aggregate();
    aggregated.merkle_root = [0xFF; 32]; // tamper
    assert!(!agg.verify_aggregated(&aggregated));
}

#[test]
fn test_batch_compressor() {
    let mut bc = BatchCompressor::new();
    bc.add(&vec![0u8; 500]);
    bc.add(&vec![0xAB; 300]);
    bc.add(b"proof data with varied bytes 123456789");
    assert_eq!(bc.count(), 3);

    let stats = bc.stats();
    assert!(stats.original_bytes > 0);
    assert!(stats.compressed_bytes > 0);
    let ratio = stats.compressed_bytes as f64 / stats.original_bytes as f64;
    assert!(ratio > 0.0);
    assert!(ratio <= 1.5); // sanity — should not be wildly worse
}

#[test]
fn test_batch_compressor_roundtrip() {
    let mut bc = BatchCompressor::new();
    let originals: Vec<Vec<u8>> = vec![
        vec![0u8; 100],
        (0..=255).collect(),
        b"a]b]c]d]e]f]g]h]i]j]k]l]m]".to_vec(),
    ];

    for o in &originals {
        bc.add(o);
    }

    let compressed_proofs = bc.finish();
    for (cp, original) in compressed_proofs.iter().zip(originals.iter()) {
        let decompressed = decompress_proof(cp);
        assert_eq!(&decompressed, original);
    }
}

#[test]
fn test_compression_stats_ratio() {
    let data = vec![0u8; 2000];
    let compressed = compress_proof(&data);
    let ratio = compressed.compressed_data.len() as f64 / data.len() as f64;
    // Repetitive data should compress to well under 10%.
    assert!(
        ratio < 0.1,
        "2000 zeros should compress to <10%, got {ratio:.4}"
    );
}

#[test]
fn test_aggregator_empty() {
    let agg = ProofAggregator::new();
    let aggregated = agg.aggregate();
    assert_eq!(aggregated.count, 0);
    assert_eq!(aggregated.merkle_root, [0u8; 32]);
}

#[test]
fn test_aggregator_single_proof() {
    let mut agg = ProofAggregator::new();
    agg.add_proof(vec![0xDE, 0xAD], vec![42]);
    let aggregated = agg.aggregate();
    assert_eq!(aggregated.count, 1);
    assert_ne!(aggregated.merkle_root, [0u8; 32]);
    assert!(agg.verify_aggregated(&aggregated));
}
