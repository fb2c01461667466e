use arc_crypto::inference_proof::{
    dense_forward_i64, generate_dense_trace, prove_dense_layer, prove_folded_inference,
    verify_dense_trace, DenseLayerInput, DENSE_TRACE_COLS,
};

#[test]
fn test_dense_forward_i64() {
    // 2×3 Dense: output[0] = 1*1 + 2*2 + 3*3 + 10 = 24
    //            output[1] = 4*1 + 5*2 + 6*3 + 20 = 52
    let weights = vec![1, 2, 3, 4, 5, 6];
    let bias = vec![10, 20];
    let input = vec![1, 2, 3];
    let output = dense_forward_i64(&weights, &bias, &input, 3, 2);
    assert_eq!(output, vec![24, 52]);
}

#[test]
fn test_generate_and_verify_trace() {
    let weights = vec![1, 2, 3, 4, 5, 6];
    let bias = vec![10, 20];
    let input = vec![1, 2, 3];
    let output = dense_forward_i64(&weights, &bias, &input, 3, 2);

    let layer = DenseLayerInput {
        weights, bias, input, output,
        in_size: 3, out_size: 2,
    };

    let trace = generate_dense_trace(&layer);
    assert_eq!(trace.len(), DENSE_TRACE_COLS);
    assert!(verify_dense_trace(&trace).is_ok());
}

#[test]
fn test_prove_dense_layer() {
    let in_size = 64;
    let out_size = 32;

    // Deterministic weights
    let mut rng: u64 = 42;
    let mut next = || -> i64 {
        rng = rng.wrapping_mul(6364136223846793005).wrapping_add(1);
        ((rng >> 33) as i64) % 100 - 50
    };

    let weights: Vec<i64> = (0..out_size * in_size).map(|_| next()).collect();
    let bias: Vec<i64> = (0..out_size).map(|_| next()).collect();
    let input: Vec<i64> = (0..in_size).map(|_| next()).collect();
    let output = dense_forward_i64(&weights, &bias, &input, in_size, out_size);

    let layer = DenseLayerInput {
        weights, bias, input, output,
        in_size, out_size,
    };

    let proof = prove_dense_layer(&layer).unwrap();
    assert!(proof.trace_rows >= in_size * out_size);
    assert!(!proof.proof_data.is_empty());
    assert!(proof.proving_time_ms < 5000); // should be fast for 64×32
}

#[test]
fn test_prove_folded_2_layers() {
    let dim1 = 16;
    let dim2 = 8;
    let dim3 = 4;

    let mut rng: u64 = 123;
    let mut next = || -> i64 {
        rng = rng.wrapping_mul(6364136223846793005).wrapping_add(1);
        ((rng >> 33) as i64) % 10 - 5
    };

    // Layer 1: dim1 → dim2
    let w1: Vec<i64> = (0..dim2 * dim1).map(|_| next()).collect();
    let b1: Vec<i64> = (0..dim2).map(|_| next()).collect();
    let input1: Vec<i64> = (0..dim1).map(|_| next()).collect();
    let output1 = dense_forward_i64(&w1, &b1, &input1, dim1, dim2);

    // Layer 2: dim2 → dim3
    let w2: Vec<i64> = (0..dim3 * dim2).map(|_| next()).collect();
    let b2: Vec<i64> = (0..dim3).map(|_| next()).collect();
    let output2 = dense_forward_i64(&w2, &b2, &output1, dim2, dim3);

    let layers = vec![
        DenseLayerInput {
            weights: w1, bias: b1,
            input: input1, output: output1.clone(),
            in_size: dim1, out_size: dim2,
        },
        DenseLayerInput {
            weights: w2, bias: b2,
            input: output1, output: output2,
            in_size: dim2, out_size: dim3,
        },
    ];

    let folded = prove_folded_inference(&layers).unwrap();
    assert_eq!(folded.num_layers, 2);
    assert_eq!(folded.layer_proofs.len(), 2);
    assert!(folded.total_proof_size > 0);

    // Chain integrity: layer 1 output hash == layer 2 input hash
    assert_eq!(
        folded.layer_proofs[0].output_hash,
        folded.layer_proofs[1].input_hash,
    );
}

#[test]
fn test_prove_larger_layer() {
    // 256×128 Dense = 32,768 MACs
    let in_size = 256;
    let out_size = 128;

    let mut rng: u64 = 999;
    let mut next = || -> i64 {
        rng = rng.wrapping_mul(6364136223846793005).wrapping_add(1);
        ((rng >> 33) as i64) % 50 - 25
    };

    let weights: Vec<i64> = (0..out_size * in_size).map(|_| next()).collect();
    let bias: Vec<i64> = (0..out_size).map(|_| next()).collect();
    let input: Vec<i64> = (0..in_size).map(|_| next()).collect();
    let output = dense_forward_i64(&weights, &bias, &input, in_size, out_size);

    let layer = DenseLayerInput {
        weights, bias, input, output,
        in_size, out_size,
    };

    let proof = prove_dense_layer(&layer).unwrap();
    assert!(proof.trace_rows >= 32_768);
    assert!(proof.proving_time_ms < 10_000);
}

#[test]
fn test_tampered_trace_rejected() {
    let weights = vec![1, 2, 3, 4];
    let bias = vec![0, 0];
    let input = vec![1, 1];
    let output = dense_forward_i64(&weights, &bias, &input, 2, 2);

    let layer = DenseLayerInput {
        weights, bias, input, output,
        in_size: 2, out_size: 2,
    };

    let mut trace = generate_dense_trace(&layer);

    // Tamper with product column
    trace[5][0] = 999;

    assert!(verify_dense_trace(&trace).is_err());
}

#[test]
fn test_chain_break_detected() {
    let dim = 4;
    let mut rng: u64 = 77;
    let mut next = || -> i64 {
        rng = rng.wrapping_mul(6364136223846793005).wrapping_add(1);
        ((rng >> 33) as i64) % 10
    };

    let w1: Vec<i64> = (0..dim * dim).map(|_| next()).collect();
    let b1: Vec<i64> = (0..dim).map(|_| 0).collect();
    let input1: Vec<i64> = (0..dim).map(|_| next()).collect();
    let output1 = dense_forward_i64(&w1, &b1, &input1, dim, dim);

    let w2: Vec<i64> = (0..dim * dim).map(|_| next()).collect();
    let b2: Vec<i64> = (0..dim).map(|_| 0).collect();
    // WRONG input for layer 2 (doesn't match layer 1 output)
    let wrong_input: Vec<i64> = (0..dim).map(|_| next()).collect();
    let output2 = dense_forward_i64(&w2, &b2, &wrong_input, dim, dim);

    let layers = vec![
        DenseLayerInput {
            weights: w1, bias: b1,
            input: input1, output: output1,
            in_size: dim, out_size: dim,
        },
        DenseLayerInput {
            weights: w2, bias: b2,
            input: wrong_input, output: output2,
            in_size: dim, out_size: dim,
        },
    ];

    let result = prove_folded_inference(&layers);
    assert!(result.is_err());
    assert!(result.unwrap_err().contains("Chain break"));
}
