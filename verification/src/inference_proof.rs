//! Proofs of neural network inference: the forward pass of dense layers.
//!
//! What is proved of a dense layer is `output[i] = sum(weight[i][j] * input[j]) + bias[i]`. Its
//! trace has one row per multiplication, padded with zero rows to a power of two. A network is
//! proved layer by layer, and the proofs are chained by the hashes of the vectors between the
//! layers.

use vstd::arithmetic::div_mod::*;
use vstd::arithmetic::power2::*;
use vstd::prelude::*;

use crate::clock;
use crate::encoding;
use crate::encoding::{bytes_eq, decimal_text, push_bytes, push_i64, push_u64, signed_decimal_text};
use crate::hash;
use crate::hash::{hash_bytes, hex_encode, Hash256};
use crate::stwo_air;
use crate::stwo_air::{compute_log_size, trace_rows};

verus! {

/// Number of columns in the dense layer trace.
pub const DENSE_TRACE_COLS: usize = 11;

/// Input for proving a dense layer forward pass.
#[derive(Debug, Clone)]
pub struct DenseLayerInput {
    /// Weight matrix [out_size x in_size] flattened row-major.
    pub weights: Vec<i64>,
    /// Bias vector [out_size].
    pub bias: Vec<i64>,
    /// Input vector [in_size].
    pub input: Vec<i64>,
    /// Output vector [out_size], as claimed; proving the layer verifies it.
    pub output: Vec<i64>,
    /// Length of the input vector.
    pub in_size: usize,
    /// Length of the output vector.
    pub out_size: usize,
}

/// Result of proving a dense layer.
#[derive(Debug, Clone)]
pub struct DenseLayerProof {
    /// Serialized proof data.
    pub proof_data: Vec<u8>,
    /// Hash binding this proof to the layer computation.
    pub binding_hash: Hash256,
    /// Hash of the input vector.
    pub input_hash: Hash256,
    /// Hash of the output vector.
    pub output_hash: Hash256,
    /// Proving time in milliseconds.
    pub proving_time_ms: u64,
    /// Number of trace rows.
    pub trace_rows: usize,
}

/// Result of a folded multi-layer proof.
#[derive(Debug, Clone)]
pub struct FoldedInferenceProof {
    /// One proof per layer.
    pub layer_proofs: Vec<DenseLayerProof>,
    /// Composition proof over all layers.
    pub composition_proof: Vec<u8>,
    /// Model input hash.
    pub model_input_hash: Hash256,
    /// Model output hash.
    pub final_output_hash: Hash256,
    /// Total proving time across all layers.
    pub total_proving_time_ms: u64,
    /// Total proof size in bytes.
    pub total_proof_size: usize,
    /// Number of layers proven.
    pub num_layers: usize,
}

// ---------------------------------------------------------------------------
// Forward pass
// ---------------------------------------------------------------------------

/// The sum of the first `n` products of a row of weights, which starts at `base`, with the
/// input.
pub open spec fn dot(weights: Seq<i64>, input: Seq<i64>, base: int, n: nat) -> int
    decreases n,
{
    if n == 0 {
        0
    } else {
        dot(weights, input, base, (n - 1) as nat) + weights[base + n - 1] * input[n - 1]
    }
}

/// Whether an integer is a 64-bit signed integer.
pub open spec fn is_i64(x: int) -> bool {
    i64::MIN <= x <= i64::MAX
}

/// Whether the product of weight `(i, j)` with its input, and the sum up to it, are 64-bit
/// integers.
pub open spec fn step_fits(
    weights: Seq<i64>,
    input: Seq<i64>,
    in_size: nat,
    i: int,
    j: int,
) -> bool {
    &&& is_i64(weights[i * in_size + j] * input[j])
    &&& is_i64(dot(weights, input, i * in_size, (j + 1) as nat))
}

/// Whether weights and input have the dimensions of a layer and every step of its sums is a
/// 64-bit integer.
pub open spec fn sums_fit(
    weights: Seq<i64>,
    input: Seq<i64>,
    in_size: nat,
    out_size: nat,
) -> bool {
    &&& out_size * in_size <= weights.len()
    &&& out_size > 0 ==> in_size <= input.len()
    &&& forall|i: int, j: int|
        0 <= i < out_size && 0 <= j < in_size ==> #[trigger] step_fits(
            weights,
            input,
            in_size,
            i,
            j,
        )
}

/// The output of neuron `i`.
pub open spec fn neuron(
    weights: Seq<i64>,
    bias: Seq<i64>,
    input: Seq<i64>,
    in_size: nat,
    i: int,
) -> int {
    dot(weights, input, i * in_size, in_size) + bias[i]
}

/// Row `i` of a matrix lies inside it.
pub(crate) proof fn lemma_row_inside(i: int, j: int, in_size: nat, out_size: nat)
    requires
        0 <= i < out_size,
        0 <= j < in_size,
    ensures
        0 <= i * in_size + j < out_size * in_size,
        (i + 1) * in_size == i * in_size + in_size,
        (i * in_size + j) / in_size as int == i,
        (i * in_size + j) % in_size as int == j,
{
    assert(i * in_size + in_size <= out_size * in_size) by (nonlinear_arith)
        requires
            i + 1 <= out_size,
            in_size >= 0,
    ;
    assert((i + 1) * in_size == i * in_size + in_size) by (nonlinear_arith);
    assert(0 <= i * in_size) by (nonlinear_arith)
        requires
            0 <= i,
    ;
    lemma_fundamental_div_mod_converse(i * in_size + j, in_size as int, i, j);
}

/// Computes the dense layer forward pass: `output[i] = sum(weight[i][j] * input[j]) + bias[i]`.
pub fn dense_forward_i64(
    weights: &[i64],
    bias: &[i64],
    input: &[i64],
    in_size: usize,
    out_size: usize,
) -> (output: Vec<i64>)
    requires
        sums_fit(weights@, input@, in_size as nat, out_size as nat),
        out_size <= bias@.len(),
        forall|i: int|
            0 <= i < out_size ==> is_i64(
                #[trigger] neuron(weights@, bias@, input@, in_size as nat, i),
            ),
    ensures
        output@.len() == out_size,
        forall|i: int|
            0 <= i < out_size ==> #[trigger] output@[i] == neuron(
                weights@,
                bias@,
                input@,
                in_size as nat,
                i,
            ),
{
    let mut output: Vec<i64> = Vec::new();
    let mut i: usize = 0;
    while i < out_size
        invariant
            i <= out_size,
            output@.len() == i,
            sums_fit(weights@, input@, in_size as nat, out_size as nat),
            out_size <= bias@.len(),
            forall|k: int|
                0 <= k < out_size ==> is_i64(
                    #[trigger] neuron(weights@, bias@, input@, in_size as nat, k),
                ),
            forall|k: int|
                0 <= k < i ==> #[trigger] output@[k] == neuron(
                    weights@,
                    bias@,
                    input@,
                    in_size as nat,
                    k,
                ),
        decreases out_size - i,
    {
        let mut acc: i64 = 0;
        let mut j: usize = 0;
        while j < in_size
            invariant
                j <= in_size,
                i < out_size,
                sums_fit(weights@, input@, in_size as nat, out_size as nat),
                acc == dot(weights@, input@, i * in_size, j as nat),
            decreases in_size - j,
        {
            proof {
                lemma_row_inside(i as int, j as int, in_size as nat, out_size as nat);
                assert(step_fits(weights@, input@, in_size as nat, i as int, j as int));
                assert(weights.len() == weights@.len());
            }
            acc = acc + weights[i * in_size + j] * input[j];
            j = j + 1;
        }
        assert(is_i64(neuron(weights@, bias@, input@, in_size as nat, i as int)));
        acc = acc + bias[i];
        output.push(acc);
        i = i + 1;
    }
    output
}

// ---------------------------------------------------------------------------
// Trace
// ---------------------------------------------------------------------------

/// A row of the trace of a layer: active flag, output and input index, weight, input, product,
/// the sum before and after, whether this is the last input, and on the last input the bias
/// and the output. Rows beyond the multiplications are zero.
pub open spec fn dense_row(layer: DenseLayerInput, r: int) -> Seq<int> {
    let n = layer.in_size as int;
    if r < layer.out_size * n {
        let i = r / n;
        let j = r % n;
        let w = layer.weights@[r] as int;
        let x = layer.input@[j] as int;
        let before = dot(layer.weights@, layer.input@, i * n, j as nat);
        let last = j == n - 1;
        seq![
            1,
            i,
            j,
            w,
            x,
            w * x,
            before,
            before + w * x,
            if last { 1int } else { 0 },
            if last { layer.bias@[i] as int } else { 0 },
            if last { before + w * x + layer.bias@[i] } else { 0 },
        ]
    } else {
        stwo_air::zeros(11)
    }
}

/// Whether a layer has the dimensions that it claims, with all its sums 64-bit integers and a
/// trace that can be indexed.
pub open spec fn layer_fits(layer: DenseLayerInput) -> bool {
    &&& sums_fit(layer.weights@, layer.input@, layer.in_size as nat, layer.out_size as nat)
    &&& layer.out_size * layer.in_size <= usize::MAX / 2 + 1
    &&& layer.in_size > 0 ==> layer.out_size <= layer.bias@.len()
    &&& forall|i: int|
        0 <= i < layer.out_size && layer.in_size > 0 ==> is_i64(
            #[trigger] neuron(
                layer.weights@,
                layer.bias@,
                layer.input@,
                layer.in_size as nat,
                i,
            ),
        )
}

/// The number of rows of the trace of a layer.
pub open spec fn dense_height(layer: DenseLayerInput) -> nat {
    pow2(stwo_air::log_size((layer.out_size * layer.in_size) as nat))
}

/// Whether columns hold the given rows.
pub open spec fn holds_rows(
    cols: Seq<Vec<i64>>,
    width: nat,
    height: nat,
    rows: spec_fn(int) -> Seq<int>,
) -> bool {
    &&& cols.len() == width
    &&& forall|c: int| 0 <= c < width ==> (#[trigger] cols[c])@.len() == height
    &&& forall|c: int, r: int|
        0 <= c < width && 0 <= r < height ==> #[trigger] entry(cols, c, r) == rows(r)[c]
}

/// The entry of a trace at a column and a row.
pub open spec fn entry(cols: Seq<Vec<i64>>, c: int, r: int) -> int {
    cols[c]@[r] as int
}

/// The integers of a list.
pub open spec fn integers(s: Seq<i64>) -> Seq<int> {
    s.map_values(|x: i64| x as int)
}

/// Appends a row to columns of equal length.
fn append_entries(
    cols: &mut Vec<Vec<i64>>,
    row: &[i64; 11],
    Ghost(rows): Ghost<spec_fn(int) -> Seq<int>>,
    Ghost(height): Ghost<nat>,
)
    requires
        holds_rows(old(cols)@, 11, height, rows),
        integers(row@) == rows(height as int),
    ensures
        holds_rows(final(cols)@, 11, height + 1, rows),
{
    let ghost before = cols@;
    let mut c: usize = 0;
    while c < 11
        invariant
            c <= 11,
            before.len() == 11,
            cols@.len() == 11,
            holds_rows(before, 11, height, rows),
            forall|k: int| 0 <= k < c ==> (#[trigger] cols@[k])@ == before[k]@.push(row@[k]),
            forall|k: int| c <= k < 11 ==> #[trigger] cols@[k] == before[k],
        decreases 11 - c,
    {
        let col: &mut Vec<i64> = &mut cols[c];
        col.push(row[c]);
        c = c + 1;
    }
    assert forall|k: int| 0 <= k < 11 implies (#[trigger] cols@[k])@.len() == height + 1 by {
        assert(before[k]@.len() == height);
    }
    assert forall|k: int, r: int| 0 <= k < 11 && 0 <= r < height + 1 implies #[trigger] entry(
        cols@,
        k,
        r,
    ) == rows(r)[k] by {
        assert(cols@[k]@ == before[k]@.push(row@[k]));
        assert(before[k]@.len() == height);
        if r < height {
            assert(entry(before, k, r) == rows(r)[k]);
        } else {
            assert(integers(row@)[k] == row@[k]);
        }
    }
}

/// Columns without rows.
fn empty_entries() -> (cols: Vec<Vec<i64>>)
    ensures
        cols@.len() == 11,
        forall|c: int| 0 <= c < 11 ==> (#[trigger] cols@[c])@.len() == 0,
{
    let mut cols: Vec<Vec<i64>> = Vec::new();
    let mut c: usize = 0;
    while c < 11
        invariant
            c <= 11,
            cols@.len() == c,
            forall|k: int| 0 <= k < c ==> (#[trigger] cols@[k])@.len() == 0,
        decreases 11 - c,
    {
        cols.push(Vec::new());
        c = c + 1;
    }
    cols
}

/// Builds the row of a multiplication.
fn dense_entries(layer: &DenseLayerInput, i: usize, j: usize, acc: i64) -> (row: [i64; 11])
    requires
        layer_fits(*layer),
        i < layer.out_size,
        j < layer.in_size,
        acc == dot(layer.weights@, layer.input@, i * layer.in_size, j as nat),
    ensures
        integers(row@) == dense_row(*layer, i * layer.in_size + j),
        row@[7] == dot(layer.weights@, layer.input@, i * layer.in_size, j as nat + 1),
{
    let ghost weights = layer.weights@;
    let ghost input = layer.input@;
    let ghost n = layer.in_size as nat;
    proof {
        lemma_row_inside(i as int, j as int, n, layer.out_size as nat);
        assert(step_fits(weights, input, n, i as int, j as int));
        assert(is_i64(neuron(weights, layer.bias@, input, n, i as int)));
        assert(layer.weights.len() == weights.len());
        assert(i <= i * n) by (nonlinear_arith)
            requires
                n >= 1,
        ;
    }
    let w: i64 = layer.weights[i * layer.in_size + j];
    let x: i64 = layer.input[j];
    let product: i64 = w * x;
    let next: i64 = acc + product;
    let last: bool = j == layer.in_size - 1;
    let bias: i64 = if last {
        layer.bias[i]
    } else {
        0
    };
    let output: i64 = if last {
        next + bias
    } else {
        0
    };
    let row: [i64; 11] = [
        1,
        i as i64,
        j as i64,
        w,
        x,
        product,
        acc,
        next,
        if last {
            1
        } else {
            0
        },
        bias,
        output,
    ];
    assert(integers(row@) =~= dense_row(*layer, i * layer.in_size + j));
    row
}

/// Generates the execution trace for a dense layer proof: one row per multiplication, padded
/// with zero rows to a power of two, at least 16.
pub fn generate_dense_trace(layer: &DenseLayerInput) -> (cols: Vec<Vec<i64>>)
    requires
        layer_fits(*layer),
    ensures
        holds_rows(cols@, 11, dense_height(*layer), |r: int| dense_row(*layer, r)),
{
    proof {
        assert(layer.weights.len() == layer.weights@.len());
    }
    let n_ops: usize = layer.out_size * layer.in_size;
    let log: u32 = compute_log_size(n_ops);
    proof {
        stwo_air::lemma_log_size_fits(n_ops as nat, log as nat);
    }
    let size: usize = trace_rows(log);
    let mut cols: Vec<Vec<i64>> = empty_entries();
    let ghost rows = |r: int| dense_row(*layer, r);
    let mut r: usize = 0;
    let mut i: usize = 0;
    let mut j: usize = 0;
    let mut acc: i64 = 0;
    assert(n_ops > 0 ==> layer.in_size > 0 && layer.out_size > 0) by (nonlinear_arith)
        requires
            n_ops == layer.out_size * layer.in_size,
    ;
    while r < size
        invariant
            r <= size,
            n_ops <= size,
            n_ops == layer.out_size * layer.in_size,
            layer_fits(*layer),
            rows == (|r: int| dense_row(*layer, r)),
            holds_rows(cols@, 11, r as nat, rows),
            r < n_ops ==> {
                &&& i < layer.out_size
                &&& j < layer.in_size
                &&& r == i * layer.in_size + j
                &&& acc == dot(layer.weights@, layer.input@, i * layer.in_size, j as nat)
            },
        decreases size - r,
    {
        if r < n_ops {
            let row: [i64; 11] = dense_entries(layer, i, j, acc);
            append_entries(&mut cols, &row, Ghost(rows), Ghost(r as nat));
            proof {
                lemma_row_inside(
                    i as int,
                    j as int,
                    layer.in_size as nat,
                    layer.out_size as nat,
                );
                if r + 1 < n_ops && j + 1 == layer.in_size {
                    assert(i + 1 < layer.out_size) by (nonlinear_arith)
                        requires
                            (i + 1) * layer.in_size < layer.out_size * layer.in_size,
                    ;
                }
            }
            if j + 1 == layer.in_size {
                i = i + 1;
                j = 0;
                acc = 0;
            } else {
                j = j + 1;
                acc = row[7];
            }
        } else {
            let row: [i64; 11] = [0i64;11];
            assert(integers(row@) =~= stwo_air::zeros(11));
            append_entries(&mut cols, &row, Ghost(rows), Ghost(r as nat));
        }
        r = r + 1;
    }
    cols
}

// ---------------------------------------------------------------------------
// Trace verification
// ---------------------------------------------------------------------------

/// The text that opens the report of a fault in row `r`.
pub open spec fn row_label(r: nat) -> Seq<char> {
    "Row "@ + encoding::decimal(r)
}

/// The report of a mismatch between one number and two others joined by an operator.
pub open spec fn mismatch(r: nat, what: Seq<char>, a: int, b: int, op: Seq<char>, c: int) -> Seq<
    char,
> {
    row_label(r) + what + encoding::signed_decimal(a) + " != "@ + encoding::signed_decimal(b) + op
        + encoding::signed_decimal(c)
}

/// The first constraint that row `r` of a trace breaks, as a sentence.
pub open spec fn row_fault(trace: Seq<Vec<i64>>, r: nat) -> Option<Seq<char>> {
    let at = |c: int| entry(trace, c, r as int);
    let active = at(0);
    let last = at(8);
    if active * (active - 1) != 0 {
        Some(
            row_label(r) + ": active not boolean ("@ + encoding::signed_decimal(active) + ")"@,
        )
    } else if last * (last - 1) != 0 {
        Some(
            row_label(r) + ": is_last_col not boolean ("@ + encoding::signed_decimal(last) + ")"@,
        )
    } else if active != 1 {
        None
    } else if at(5) != at(3) * at(4) {
        Some(mismatch(r, ": product mismatch: "@, at(5), at(3), " * "@, at(4)))
    } else if at(7) != at(6) + at(5) {
        Some(mismatch(r, ": accumulation mismatch: "@, at(7), at(6), " + "@, at(5)))
    } else if last == 1 && at(10) != at(7) + at(9) {
        Some(mismatch(r, ": output mismatch: "@, at(10), at(7), " + "@, at(9)))
    } else {
        None
    }
}

/// The fault of the first faulty row from row `r` on.
pub open spec fn rows_fault(trace: Seq<Vec<i64>>, r: nat, n: nat) -> Option<Seq<char>>
    decreases n - r,
{
    if r >= n {
        None
    } else if row_fault(trace, r) is Some {
        row_fault(trace, r)
    } else {
        rows_fault(trace, r + 1, n)
    }
}

/// The verdict on a trace: it must have all columns, and no row may break a constraint.
pub open spec fn trace_fault(trace: Seq<Vec<i64>>) -> Option<Seq<char>> {
    if trace.len() != 11 {
        Some("Expected 11 columns, got "@ + encoding::decimal(trace.len()))
    } else {
        rows_fault(trace, 0, trace[0]@.len())
    }
}

/// The text of `row_label`.
fn row_label_text(r: usize) -> (s: String)
    ensures
        s@ == row_label(r as nat),
{
    let n: String = decimal_text(r as u64);
    "Row ".to_owned().concat(n.as_str())
}

/// The text of `mismatch`.
fn mismatch_text(r: usize, what: &str, a: i64, b: i64, op: &str, c: i64) -> (s: String)
    ensures
        s@ == mismatch(r as nat, what@, a as int, b as int, op@, c as int),
{
    let label: String = row_label_text(r);
    let x: String = signed_decimal_text(a);
    let y: String = signed_decimal_text(b);
    let z: String = signed_decimal_text(c);
    label.concat(what).concat(x.as_str()).concat(" != ").concat(y.as_str()).concat(op).concat(
        z.as_str(),
    )
}

/// Whether a number is zero or one.
fn is_boolean(x: i64) -> (r: bool)
    ensures
        r == (x * (x - 1) == 0),
{
    assert((x * (x - 1) == 0) == (x == 0 || x == 1)) by (nonlinear_arith);
    x == 0 || x == 1
}

/// Checks one row of a trace.
fn check_row(trace: &[Vec<i64>], r: usize) -> (e: Option<String>)
    requires
        trace@.len() == 11,
        forall|c: int| 0 <= c < 11 && c != 1 && c != 2 ==> r < (#[trigger] trace@[c])@.len(),
    ensures
        e is Some == row_fault(trace@, r as nat) is Some,
        e matches Some(text) ==> text@ == row_fault(trace@, r as nat)->0,
{
    let a: i64 = trace[0][r];
    if !is_boolean(a) {
        let label: String = row_label_text(r);
        let value: String = signed_decimal_text(a);
        return Some(
            label.concat(": active not boolean (").concat(value.as_str()).concat(")"),
        );
    }
    let last: i64 = trace[8][r];
    if !is_boolean(last) {
        let label: String = row_label_text(r);
        let value: String = signed_decimal_text(last);
        return Some(
            label.concat(": is_last_col not boolean (").concat(value.as_str()).concat(")"),
        );
    }
    if a == 1 {
        let weight: i64 = trace[3][r];
        let input: i64 = trace[4][r];
        let product: i64 = trace[5][r];
        let acc_prev: i64 = trace[6][r];
        let acc_next: i64 = trace[7][r];
        let bias: i64 = trace[9][r];
        let output: i64 = trace[10][r];
        assert(-0x40000000_00000000_00000000_00000000 <= weight * input
            <= 0x40000000_00000000_00000000_00000000) by (nonlinear_arith)
            requires
                -0x80000000_00000000 <= weight <= 0x7fffffff_ffffffff,
                -0x80000000_00000000 <= input <= 0x7fffffff_ffffffff,
        ;
        if product as i128 != weight as i128 * input as i128 {
            return Some(mismatch_text(r, ": product mismatch: ", product, weight, " * ", input));
        }
        if acc_next as i128 != acc_prev as i128 + product as i128 {
            return Some(
                mismatch_text(r, ": accumulation mismatch: ", acc_next, acc_prev, " + ", product),
            );
        }
        if last == 1 && output as i128 != acc_next as i128 + bias as i128 {
            return Some(mismatch_text(r, ": output mismatch: ", output, acc_next, " + ", bias));
        }
    }
    None
}

/// Verifies a dense layer trace against its constraints, row by row.
pub fn verify_dense_trace(trace: &[Vec<i64>]) -> (r: Result<(), String>)
    requires
        trace@.len() == 11 ==> forall|c: int|
            0 <= c < 11 && c != 1 && c != 2 ==> trace@[0]@.len() <= (#[trigger] trace@[c])@.len(),
    ensures
        r is Err == trace_fault(trace@) is Some,
        r matches Err(e) ==> e@ == trace_fault(trace@)->0,
{
    if trace.len() != DENSE_TRACE_COLS {
        let n: String = decimal_text(trace.len() as u64);
        return Err("Expected 11 columns, got ".to_owned().concat(n.as_str()));
    }
    let n_rows: usize = trace[0].len();
    let mut row: usize = 0;
    while row < n_rows
        invariant
            row <= n_rows,
            trace@.len() == 11,
            n_rows == trace@[0]@.len(),
            forall|c: int|
                0 <= c < 11 && c != 1 && c != 2 ==> trace@[0]@.len() <= (
                #[trigger] trace@[c])@.len(),
            rows_fault(trace@, 0, n_rows as nat) == rows_fault(trace@, row as nat, n_rows as nat),
        decreases n_rows - row,
    {
        let e: Option<String> = check_row(trace, row);
        if let Some(text) = e {
            return Err(text);
        }
        row = row + 1;
    }
    Ok(())
}

/// The trace of a layer meets the constraints.
pub proof fn law_generated_traces_verify(layer: DenseLayerInput, trace: Seq<Vec<i64>>)
    requires
        layer_fits(layer),
        holds_rows(trace, 11, dense_height(layer), |r: int| dense_row(layer, r)),
    ensures
        trace_fault(trace) is None,
{
    lemma_rows_without_fault(layer, trace, 0);
}

proof fn lemma_rows_without_fault(layer: DenseLayerInput, trace: Seq<Vec<i64>>, r: nat)
    requires
        layer_fits(layer),
        holds_rows(trace, 11, dense_height(layer), |r: int| dense_row(layer, r)),
        r <= dense_height(layer),
    ensures
        rows_fault(trace, r, dense_height(layer)) is None,
    decreases dense_height(layer) - r,
{
    if r < dense_height(layer) {
        let row = dense_row(layer, r as int);
        assert(entry(trace, 0, r as int) == row[0]);
        assert(entry(trace, 3, r as int) == row[3]);
        assert(entry(trace, 4, r as int) == row[4]);
        assert(entry(trace, 5, r as int) == row[5]);
        assert(entry(trace, 6, r as int) == row[6]);
        assert(entry(trace, 7, r as int) == row[7]);
        assert(entry(trace, 8, r as int) == row[8]);
        assert(entry(trace, 9, r as int) == row[9]);
        assert(entry(trace, 10, r as int) == row[10]);
        assert(0int * (0 - 1) == 0);
        assert(1int * (1 - 1) == 0);
        lemma_rows_without_fault(layer, trace, r + 1);
    }
}

/// The trace of a layer computes the outputs of the layer: the row of the last input of neuron
/// `i` holds the output of that neuron.
pub proof fn law_trace_outputs_are_the_forward_pass(layer: DenseLayerInput, i: int)
    requires
        layer_fits(layer),
        0 <= i < layer.out_size,
        layer.in_size > 0,
    ensures
        ({
            let r = i * layer.in_size + layer.in_size - 1;
            &&& r < dense_height(layer)
            &&& dense_row(layer, r)[8] == 1
            &&& dense_row(layer, r)[10] == neuron(
                layer.weights@,
                layer.bias@,
                layer.input@,
                layer.in_size as nat,
                i,
            )
        }),
{
    let n = layer.in_size as nat;
    lemma_row_inside(i, n - 1, n, layer.out_size as nat);
    let ops = (layer.out_size * layer.in_size) as nat;
    lemma_log_size_exists(ops);
}

/// Every number of rows has a log2 size.
proof fn lemma_log_size_exists(n: nat)
    ensures
        stwo_air::is_log_size(n, stwo_air::log_size(n)),
{
    lemma2_to64();
    lemma_log_size_search(n, 4);
}

proof fn lemma_log_size_search(n: nat, log: nat)
    requires
        log >= 4,
        log > 4 ==> pow2((log - 1) as nat) < n,
    ensures
        exists|a: nat| stwo_air::is_log_size(n, a),
    decreases
            (if n > pow2(log) {
                n - pow2(log)
            } else {
                0int
            }),
{
    if n <= pow2(log) {
        assert(stwo_air::is_log_size(n, log));
    } else {
        lemma_pow2_unfold(log + 1);
        lemma_pow2_pos(log);
        lemma_log_size_search(n, log + 1);
    }
}

// ---------------------------------------------------------------------------
// Layer proofs
// ---------------------------------------------------------------------------

/// The first `n` integers of a list as 64-bit little-endian integers, one after the other.
pub open spec fn packed_integers(s: Seq<int>, n: nat) -> Seq<u8>
    decreases n,
{
    if n == 0 {
        Seq::empty()
    } else {
        packed_integers(s, (n - 1) as nat) + encoding::le_bytes(
            encoding::twos_complement(s[n - 1]),
            8,
        )
    }
}

/// A column of the trace of a layer.
pub open spec fn dense_column(layer: DenseLayerInput, c: int) -> Seq<int> {
    Seq::new(dense_height(layer), |r: int| dense_row(layer, r)[c])
}

/// The first `n` columns of the trace of a layer, one after the other.
pub open spec fn packed_columns(layer: DenseLayerInput, n: nat) -> Seq<u8>
    decreases n,
{
    if n == 0 {
        Seq::empty()
    } else {
        packed_columns(layer, (n - 1) as nat) + packed_integers(
            dense_column(layer, n - 1),
            dense_height(layer),
        )
    }
}

/// The digest of a vector.
pub open spec fn vector_digest(s: Seq<i64>) -> Seq<u8> {
    hash::blake3_digest(packed_integers(integers(s), s.len()))
}

/// Whether a proof is the proof of a layer.
pub open spec fn is_layer_proof(p: DenseLayerProof, layer: DenseLayerInput) -> bool {
    &&& p.binding_hash@ == hash::blake3_digest(packed_columns(layer, 11))
    &&& p.input_hash@ == vector_digest(layer.input@)
    &&& p.output_hash@ == vector_digest(layer.output@)
    &&& p.trace_rows == dense_height(layer)
    &&& p.proof_data@ == encoding::le_bytes(dense_height(layer), 8) + encoding::le_bytes(11, 8)
        + p.binding_hash@ + p.input_hash@ + p.output_hash@
}

/// Appends 64-bit integers in little-endian form.
fn push_integers(out: &mut Vec<u8>, values: &[i64])
    ensures
        final(out)@ == old(out)@ + packed_integers(integers(values@), values@.len()),
{
    let ghost before = out@;
    let mut i: usize = 0;
    assert(out@ =~= before + packed_integers(integers(values@), 0));
    while i < values.len()
        invariant
            i <= values.len(),
            out@ == before + packed_integers(integers(values@), i as nat),
        decreases values.len() - i,
    {
        push_i64(out, values[i]);
        i = i + 1;
        assert(out@ =~= before + packed_integers(integers(values@), i as nat));
    }
}

/// The output of neuron `i` of a layer.
pub open spec fn layer_neuron(layer: DenseLayerInput, i: int) -> int {
    neuron(layer.weights@, layer.bias@, layer.input@, layer.in_size as nat, i)
}

/// Whether a layer claims the outputs that it has.
pub open spec fn outputs_hold(layer: DenseLayerInput) -> bool {
    &&& layer.out_size <= layer.bias@.len()
    &&& layer.output@.len() == layer.out_size
    &&& forall|i: int|
        0 <= i < layer.out_size ==> #[trigger] layer.output@[i] == layer_neuron(layer, i)
}

/// The report of the first wrong output from the `i`th on.
pub open spec fn wrong_output(layer: DenseLayerInput, i: nat) -> Option<Seq<char>>
    decreases layer.output@.len() - i,
{
    if i >= layer.output@.len() {
        None
    } else if layer.output@[i as int] != layer_neuron(layer, i as int) {
        Some(
            "Output "@ + encoding::decimal(i) + " mismatch: "@ + encoding::signed_decimal(
                layer.output@[i as int] as int,
            ) + " != "@ + encoding::signed_decimal(layer_neuron(layer, i as int)),
        )
    } else {
        wrong_output(layer, i + 1)
    }
}

/// What is wrong with the outputs that a layer claims.
pub open spec fn output_fault(layer: DenseLayerInput) -> Option<Seq<char>> {
    if layer.bias@.len() < layer.out_size {
        Some(
            "Expected "@ + encoding::decimal(layer.out_size as nat) + " biases, got "@
                + encoding::decimal(layer.bias@.len()),
        )
    } else if layer.output@.len() != layer.out_size {
        Some(
            "Expected "@ + encoding::decimal(layer.out_size as nat) + " outputs, got "@
                + encoding::decimal(layer.output@.len()),
        )
    } else {
        wrong_output(layer, 0)
    }
}

proof fn lemma_wrong_output(layer: DenseLayerInput, i: nat)
    ensures
        wrong_output(layer, i) is None <==> forall|k: int|
            i <= k < layer.output@.len() ==> #[trigger] layer.output@[k] == layer_neuron(layer, k),
    decreases layer.output@.len() - i,
{
    if i < layer.output@.len() {
        lemma_wrong_output(layer, i + 1);
        if layer.output@[i as int] == layer_neuron(layer, i as int) {
            assert forall|k: int| i <= k < layer.output@.len() && (forall|m: int|
                i + 1 <= m < layer.output@.len() ==> #[trigger] layer.output@[m] == layer_neuron(
                    layer,
                    m,
                )) implies #[trigger] layer.output@[k] == layer_neuron(layer, k) by {
                if k != i {
                    assert(i + 1 <= k);
                }
            }
        }
    }
}

/// Compares the outputs that a layer claims with those that it has.
fn check_outputs(layer: &DenseLayerInput) -> (r: Option<String>)
    requires
        layer_fits(*layer),
    ensures
        r is Some == output_fault(*layer) is Some,
        r matches Some(e) ==> e@ == output_fault(*layer)->0,
        r is None == outputs_hold(*layer),
{
    proof {
        lemma_wrong_output(*layer, 0);
    }
    if layer.bias.len() < layer.out_size {
        let want: String = decimal_text(layer.out_size as u64);
        let got: String = decimal_text(layer.bias.len() as u64);
        return Some(
            "Expected ".to_owned().concat(want.as_str()).concat(" biases, got ").concat(
                got.as_str(),
            ),
        );
    }
    if layer.output.len() != layer.out_size {
        let want: String = decimal_text(layer.out_size as u64);
        let got: String = decimal_text(layer.output.len() as u64);
        return Some(
            "Expected ".to_owned().concat(want.as_str()).concat(" outputs, got ").concat(
                got.as_str(),
            ),
        );
    }
    let outputs: Vec<i64> = dense_forward_i64(
        layer.weights.as_slice(),
        layer.bias.as_slice(),
        layer.input.as_slice(),
        layer.in_size,
        layer.out_size,
    );
    let mut i: usize = 0;
    while i < outputs.len()
        invariant
            i <= outputs@.len(),
            outputs@.len() == layer.out_size,
            layer.output@.len() == layer.out_size,
            layer.out_size <= layer.bias@.len(),
            forall|k: int|
                0 <= k < layer.out_size ==> #[trigger] outputs@[k] == layer_neuron(*layer, k),
            wrong_output(*layer, 0) == wrong_output(*layer, i as nat),
            wrong_output(*layer, 0) is None == outputs_hold(*layer),
        decreases outputs@.len() - i,
    {
        assert(outputs@[i as int] == layer_neuron(*layer, i as int));
        if layer.output[i] != outputs[i] {
            let n: String = decimal_text(i as u64);
            let claimed: String = signed_decimal_text(layer.output[i]);
            let computed: String = signed_decimal_text(outputs[i]);
            return Some(
                "Output ".to_owned().concat(n.as_str()).concat(" mismatch: ").concat(
                    claimed.as_str(),
                ).concat(" != ").concat(computed.as_str()),
            );
        }
        i = i + 1;
    }
    None
}

/// Proves a dense layer forward pass: the outputs that the layer claims are its own, and the proof
/// binds the trace and the two vectors.
pub fn prove_dense_layer(layer: &DenseLayerInput) -> (r: Result<DenseLayerProof, String>)
    requires
        layer_fits(*layer),
    ensures
        r is Ok == outputs_hold(*layer),
        match r {
            Ok(p) => is_layer_proof(p, *layer) && output_fault(*layer) is None,
            Err(e) => output_fault(*layer) == Some(e@),
        },
{
    let start: std::time::Instant = clock::now();
    if let Some(e) = check_outputs(layer) {
        return Err(e);
    }
    let trace: Vec<Vec<i64>> = generate_dense_trace(layer);
    let rows: usize = trace[0].len();
    proof {
        law_generated_traces_verify(*layer, trace@);
    }
    match verify_dense_trace(trace.as_slice()) {
        Ok(()) => {},
        Err(e) => {
            return Err(e);
        },
    }
    let mut binding_input: Vec<u8> = Vec::new();
    let mut c: usize = 0;
    while c < trace.len()
        invariant
            c <= trace@.len(),
            holds_rows(trace@, 11, dense_height(*layer), |r: int| dense_row(*layer, r)),
            binding_input@ == packed_columns(*layer, c as nat),
        decreases trace@.len() - c,
    {
        assert(trace@[c as int]@.len() == dense_height(*layer));
        assert forall|r: int| 0 <= r < dense_height(*layer) implies integers(trace@[c as int]@)[r]
            == dense_column(*layer, c as int)[r] by {
            assert(entry(trace@, c as int, r) == dense_row(*layer, r)[c as int]);
        }
        assert(integers(trace@[c as int]@) =~= dense_column(*layer, c as int));
        push_integers(&mut binding_input, trace[c].as_slice());
        c = c + 1;
    }
    let binding_hash: Hash256 = hash_bytes(binding_input.as_slice());
    let mut input_bytes: Vec<u8> = Vec::new();
    push_integers(&mut input_bytes, layer.input.as_slice());
    assert(input_bytes@ =~= packed_integers(integers(layer.input@), layer.input@.len()));
    let input_hash: Hash256 = hash_bytes(input_bytes.as_slice());
    let mut output_bytes: Vec<u8> = Vec::new();
    push_integers(&mut output_bytes, layer.output.as_slice());
    assert(output_bytes@ =~= packed_integers(integers(layer.output@), layer.output@.len()));
    let output_hash: Hash256 = hash_bytes(output_bytes.as_slice());
    let mut proof_data: Vec<u8> = Vec::new();
    push_u64(&mut proof_data, rows as u64);
    push_u64(&mut proof_data, DENSE_TRACE_COLS as u64);
    push_bytes(&mut proof_data, &binding_hash.0);
    push_bytes(&mut proof_data, &input_hash.0);
    push_bytes(&mut proof_data, &output_hash.0);
    assert(proof_data@ =~= encoding::le_bytes(dense_height(*layer), 8) + encoding::le_bytes(11, 8)
        + binding_hash@ + input_hash@ + output_hash@);
    let spent: std::time::Duration = clock::elapsed(&start);
    let proving_time_ms: u64 = clock::as_millis(&spent) as u64;
    Ok(
        DenseLayerProof {
            proof_data,
            binding_hash,
            input_hash,
            output_hash,
            proving_time_ms,
            trace_rows: rows,
        },
    )
}

// ---------------------------------------------------------------------------
// Folded proofs
// ---------------------------------------------------------------------------

/// Whether the output of layer `k` is not the input of the next layer.
pub open spec fn breaks_at(layers: Seq<DenseLayerInput>, k: int) -> bool {
    vector_digest(layers[k].output@) != vector_digest(layers[k + 1].input@)
}

/// Whether `k` is the first layer whose output is not the input of the next layer.
pub open spec fn first_break(layers: Seq<DenseLayerInput>, k: int) -> bool {
    &&& 0 <= k < layers.len() - 1
    &&& breaks_at(layers, k)
    &&& forall|i: int| 0 <= i < k ==> !#[trigger] breaks_at(layers, i)
}

/// Whether every layer's output is the next layer's input.
pub open spec fn chained(layers: Seq<DenseLayerInput>) -> bool {
    forall|i: int| 0 <= i < layers.len() - 1 ==> !#[trigger] breaks_at(layers, i)
}

/// The report of a break after layer `k`.
pub open spec fn break_report(layers: Seq<DenseLayerInput>, k: int) -> Seq<char> {
    "Chain break between layer "@ + encoding::decimal(k as nat) + " and "@ + encoding::decimal(
        (k + 1) as nat,
    ) + ": output "@ + hash::hex_text(vector_digest(layers[k].output@).subrange(0, 8))
        + " != input "@ + hash::hex_text(vector_digest(layers[k + 1].input@).subrange(0, 8))
}

/// The hashes of the first `n` layer proofs, one after the other.
pub open spec fn composition_input(proofs: Seq<DenseLayerProof>, n: nat) -> Seq<u8>
    decreases n,
{
    if n == 0 {
        Seq::empty()
    } else {
        composition_input(proofs, (n - 1) as nat) + proofs[n - 1].binding_hash@
            + proofs[n - 1].input_hash@ + proofs[n - 1].output_hash@
    }
}

/// Whether a proof is the folded proof of a chain of layers.
pub open spec fn is_folded_proof(p: FoldedInferenceProof, layers: Seq<DenseLayerInput>) -> bool {
    &&& p.layer_proofs@.len() == layers.len()
    &&& forall|i: int|
        0 <= i < layers.len() ==> is_layer_proof(#[trigger] p.layer_proofs@[i], layers[i])
    &&& p.composition_proof@ == hash::blake3_digest(
        composition_input(p.layer_proofs@, p.layer_proofs@.len()),
    )
    &&& p.model_input_hash@ == vector_digest(layers[0].input@)
    &&& p.final_output_hash@ == vector_digest(layers.last().output@)
    &&& p.total_proof_size == 112 * layers.len() + 32
    &&& p.num_layers == layers.len()
}

/// Whether `k` is the first layer that claims a wrong output.
pub open spec fn first_wrong_layer(layers: Seq<DenseLayerInput>, k: int) -> bool {
    &&& 0 <= k < layers.len()
    &&& !outputs_hold(layers[k])
    &&& forall|i: int| 0 <= i < k ==> outputs_hold(#[trigger] layers[i])
}

/// The report of a wrong output of layer `k`.
pub open spec fn layer_report(layers: Seq<DenseLayerInput>, k: int) -> Seq<char> {
    "Layer "@ + encoding::decimal(k as nat) + " proof failed: "@ + output_fault(layers[k])->0
}

/// Whether every layer claims the outputs that it has.
pub open spec fn all_outputs_hold(layers: Seq<DenseLayerInput>) -> bool {
    forall|i: int| 0 <= i < layers.len() ==> outputs_hold(#[trigger] layers[i])
}

/// Proves every layer.
fn prove_layers(layers: &[DenseLayerInput]) -> (r: Result<Vec<DenseLayerProof>, String>)
    requires
        forall|i: int| 0 <= i < layers@.len() ==> layer_fits(#[trigger] layers@[i]),
    ensures
        match r {
            Ok(proofs) => {
                &&& all_outputs_hold(layers@)
                &&& proofs@.len() == layers@.len()
                &&& forall|i: int|
                    0 <= i < layers@.len() ==> is_layer_proof(#[trigger] proofs@[i], layers@[i])
            },
            Err(e) => exists|k: int| #[trigger]
                first_wrong_layer(layers@, k) && e@ == layer_report(layers@, k),
        },
{
    let mut proofs: Vec<DenseLayerProof> = Vec::new();
    let mut i: usize = 0;
    while i < layers.len()
        invariant
            i <= layers@.len(),
            proofs@.len() == i,
            forall|k: int| 0 <= k < layers@.len() ==> layer_fits(#[trigger] layers@[k]),
            forall|k: int| 0 <= k < i ==> is_layer_proof(#[trigger] proofs@[k], layers@[k]),
            forall|k: int| 0 <= k < i ==> outputs_hold(#[trigger] layers@[k]),
        decreases layers@.len() - i,
    {
        match prove_dense_layer(&layers[i]) {
            Ok(p) => {
                proofs.push(p);
            },
            Err(e) => {
                let n: String = decimal_text(i as u64);
                assert(first_wrong_layer(layers@, i as int));
                return Err(
                    "Layer ".to_owned().concat(n.as_str()).concat(" proof failed: ").concat(
                        e.as_str(),
                    ),
                );
            },
        }
        i = i + 1;
    }
    Ok(proofs)
}

/// The text of `break_report`.
fn break_text(k: usize, output: &Hash256, input: &Hash256) -> (s: String)
    requires
        k < usize::MAX,
    ensures
        s@ == "Chain break between layer "@ + encoding::decimal(k as nat) + " and "@
            + encoding::decimal((k + 1) as nat) + ": output "@ + hash::hex_text(
            output@.subrange(0, 8),
        ) + " != input "@ + hash::hex_text(input@.subrange(0, 8)),
{
    let a: String = decimal_text(k as u64);
    let b: String = decimal_text((k + 1) as u64);
    let x: String = hex_encode(vstd::slice::slice_subrange(&output.0, 0, 8));
    let y: String = hex_encode(vstd::slice::slice_subrange(&input.0, 0, 8));
    "Chain break between layer ".to_owned().concat(a.as_str()).concat(" and ").concat(
        b.as_str(),
    ).concat(": output ").concat(x.as_str()).concat(" != input ").concat(y.as_str())
}

/// Proves a multi-layer network: each layer is proved independently, with the outputs that it
/// claims, and the output hash of each layer must be the input hash of the next.
pub fn prove_folded_inference(layers: &[DenseLayerInput]) -> (r: Result<
    FoldedInferenceProof,
    String,
>)
    requires
        forall|i: int| 0 <= i < layers@.len() ==> layer_fits(#[trigger] layers@[i]),
        112 * layers@.len() + 32 <= usize::MAX,
    ensures
        match r {
            Ok(p) => {
                &&& layers@.len() > 0
                &&& all_outputs_hold(layers@)
                &&& chained(layers@)
                &&& is_folded_proof(p, layers@)
            },
            Err(e) => if layers@.len() == 0 {
                e@ == "No layers to prove"@
            } else if !all_outputs_hold(layers@) {
                exists|k: int| #[trigger]
                    first_wrong_layer(layers@, k) && e@ == layer_report(layers@, k)
            } else {
                exists|k: int| #[trigger]
                    first_break(layers@, k) && e@ == break_report(layers@, k)
            },
        },
{
    let start: std::time::Instant = clock::now();
    if layers.len() == 0 {
        return Err("No layers to prove".to_owned());
    }
    let layer_proofs: Vec<DenseLayerProof> = match prove_layers(layers) {
        Ok(p) => p,
        Err(e) => {
            return Err(e);
        },
    };
    let mut i: usize = 0;
    while i < layer_proofs.len() - 1
        invariant
            layer_proofs@.len() == layers@.len(),
            0 < layers@.len(),
            i <= layers@.len() - 1,
            all_outputs_hold(layers@),
            forall|k: int|
                0 <= k < layers@.len() ==> is_layer_proof(
                    #[trigger] layer_proofs@[k],
                    layers@[k],
                ),
            forall|k: int| 0 <= k < i ==> !#[trigger] breaks_at(layers@, k),
        decreases layers@.len() - i,
    {
        let out_hash: &Hash256 = &layer_proofs[i].output_hash;
        let in_hash: &Hash256 = &layer_proofs[i + 1].input_hash;
        assert(is_layer_proof(layer_proofs@[i as int], layers@[i as int]));
        assert(is_layer_proof(layer_proofs@[i as int + 1], layers@[i as int + 1]));
        if !bytes_eq(&out_hash.0, &in_hash.0) {
            assert(breaks_at(layers@, i as int));
            assert(first_break(layers@, i as int));
            return Err(break_text(i, out_hash, in_hash));
        }
        assert(!breaks_at(layers@, i as int));
        i = i + 1;
    }
    let mut comp_input: Vec<u8> = Vec::new();
    let mut total: usize = 0;
    let mut j: usize = 0;
    while j < layer_proofs.len()
        invariant
            layer_proofs@.len() == layers@.len(),
            j <= layers@.len(),
            112 * layers@.len() + 32 <= usize::MAX,
            total == 112 * j,
            comp_input@ == composition_input(layer_proofs@, j as nat),
            forall|k: int|
                0 <= k < layers@.len() ==> is_layer_proof(
                    #[trigger] layer_proofs@[k],
                    layers@[k],
                ),
        decreases layers@.len() - j,
    {
        let p: &DenseLayerProof = &layer_proofs[j];
        push_bytes(&mut comp_input, &p.binding_hash.0);
        push_bytes(&mut comp_input, &p.input_hash.0);
        push_bytes(&mut comp_input, &p.output_hash.0);
        proof {
            assert(is_layer_proof(layer_proofs@[j as int], layers@[j as int]));
            encoding::lemma_le_bytes_len(dense_height(layers@[j as int]), 8);
            encoding::lemma_le_bytes_len(11, 8);
            assert(p.proof_data@.len() == 112);
        }
        total = total + p.proof_data.len();
        j = j + 1;
        assert(comp_input@ =~= composition_input(layer_proofs@, j as nat));
    }
    let digest: Hash256 = hash_bytes(comp_input.as_slice());
    let mut composition_proof: Vec<u8> = Vec::new();
    push_bytes(&mut composition_proof, &digest.0);
    assert(composition_proof@ =~= digest@);
    let total_proof_size: usize = total + composition_proof.len();
    let spent: std::time::Duration = clock::elapsed(&start);
    let total_proving_time_ms: u64 = clock::as_millis(&spent) as u64;
    let model_input_hash: Hash256 = layer_proofs[0].input_hash;
    let final_output_hash: Hash256 = layer_proofs[layer_proofs.len() - 1].output_hash;
    Ok(
        FoldedInferenceProof {
            layer_proofs,
            composition_proof,
            model_input_hash,
            final_output_hash,
            total_proving_time_ms,
            total_proof_size,
            num_layers: layers.len(),
        },
    )
}

// ---------------------------------------------------------------------------
// What a layer computes
// ---------------------------------------------------------------------------

/// A dot product is additive in the input: that of a sum is the sum of those.
pub proof fn law_dot_is_additive(
    weights: Seq<i64>,
    x: Seq<i64>,
    y: Seq<i64>,
    z: Seq<i64>,
    base: int,
    n: nat,
)
    requires
        forall|k: int| 0 <= k < n ==> #[trigger] z[k] == x[k] + y[k],
    ensures
        dot(weights, z, base, n) == dot(weights, x, base, n) + dot(weights, y, base, n),
    decreases n,
{
    if n > 0 {
        law_dot_is_additive(weights, x, y, z, base, (n - 1) as nat);
        let w = weights[base + n - 1] as int;
        let a = x[n - 1] as int;
        let b = y[n - 1] as int;
        assert(z[n - 1] == a + b);
        assert(w * (a + b) == w * a + w * b) by (nonlinear_arith);
    }
}

/// The dot product with an input that is one at one place and zero elsewhere is the weight at that
/// place: so every weight meets its own input.
pub proof fn law_dot_of_a_unit_is_a_weight(
    weights: Seq<i64>,
    x: Seq<i64>,
    base: int,
    n: nat,
    j: int,
)
    requires
        forall|k: int|
            0 <= k < n ==> #[trigger] x[k] == if k == j {
                1i64
            } else {
                0i64
            },
    ensures
        dot(weights, x, base, n) == if 0 <= j < n {
            weights[base + j] as int
        } else {
            0
        },
    decreases n,
{
    if n > 0 {
        law_dot_of_a_unit_is_a_weight(weights, x, base, (n - 1) as nat, j);
        let w = weights[base + n - 1] as int;
        assert(x[n - 1] == 1 || x[n - 1] == 0);
        assert(w * 1 == w && w * 0 == 0);
    }
}

/// The neurons of a layer for an input that is one at one place and zero elsewhere are the weights
/// of that place plus the biases: weight `j` of neuron `i` stands at `i * in_size + j`.
pub proof fn law_neurons_read_their_own_row(
    weights: Seq<i64>,
    bias: Seq<i64>,
    input: Seq<i64>,
    in_size: nat,
    i: int,
    j: int,
)
    requires
        0 <= j < in_size,
        forall|k: int|
            0 <= k < in_size ==> #[trigger] input[k] == if k == j {
                1i64
            } else {
                0i64
            },
    ensures
        neuron(weights, bias, input, in_size, i) == weights[i * in_size + j] + bias[i],
{
    law_dot_of_a_unit_is_a_weight(weights, input, i * in_size, in_size, j);
}

/// The rows of a layer hold the place, the weight, the input and their product, the sum before and
/// after, and at the end of a neuron its bias and its output; the sum starts at zero and is carried
/// from row to row.
pub proof fn law_dense_rows_carry_the_sum(layer: DenseLayerInput, i: int, j: int)
    requires
        0 <= i < layer.out_size,
        0 <= j < layer.in_size,
    ensures
        ({
            let n = layer.in_size as int;
            let r = i * n + j;
            let row = dense_row(layer, r);
            let last = j == n - 1;
            &&& row.len() == 11
            &&& row[0] == 1 && row[1] == i && row[2] == j
            &&& row[3] == layer.weights@[r]
            &&& row[4] == layer.input@[j]
            &&& row[5] == row[3] * row[4]
            &&& j == 0 ==> row[6] == 0
            &&& j > 0 ==> row[6] == dense_row(layer, r - 1)[7]
            &&& row[7] == row[6] + row[5]
            &&& row[8] == if last { 1int } else { 0 }
            &&& row[9] == if last { layer.bias@[i] as int } else { 0 }
            &&& row[10] == if last { row[7] + row[9] } else { 0 }
        }),
{
    let n = layer.in_size as int;
    let r = i * n + j;
    assert(i * n + n <= layer.out_size * n) by (nonlinear_arith)
        requires
            0 <= i < layer.out_size,
            0 <= j < n,
    ;
    assert(i * n >= 0) by (nonlinear_arith)
        requires
            0 <= i,
            0 <= n,
    ;
    vstd::arithmetic::div_mod::lemma_fundamental_div_mod_converse(r, n, i, j);
    if j > 0 {
        vstd::arithmetic::div_mod::lemma_fundamental_div_mod_converse(r - 1, n, i, j - 1);
        assert(dot(layer.weights@, layer.input@, i * n, j as nat) == dot(
            layer.weights@,
            layer.input@,
            i * n,
            (j - 1) as nat,
        ) + layer.weights@[i * n + j - 1] * layer.input@[j - 1]);
    }
}

/// A row of a trace has no fault exactly where its flags are zero or one and, if it is active, the
/// product, the sum and, at the end of a neuron, the output are right.
pub proof fn law_faultless_rows(trace: Seq<Vec<i64>>, r: nat)
    ensures
        row_fault(trace, r) is None <==> {
            let k = r as int;
            &&& entry(trace, 0, k) == 0 || entry(trace, 0, k) == 1
            &&& entry(trace, 8, k) == 0 || entry(trace, 8, k) == 1
            &&& entry(trace, 0, k) == 1 ==> {
                &&& entry(trace, 5, k) == entry(trace, 3, k) * entry(trace, 4, k)
                &&& entry(trace, 7, k) == entry(trace, 6, k) + entry(trace, 5, k)
                &&& entry(trace, 8, k) == 1 ==> entry(trace, 10, k) == entry(trace, 7, k) + entry(
                    trace,
                    9,
                    k,
                )
            }
        },
{
    let a = entry(trace, 0, r as int);
    let b = entry(trace, 8, r as int);
    assert(a * (a - 1) == 0 <==> a == 0 || a == 1) by (nonlinear_arith);
    assert(b * (b - 1) == 0 <==> b == 0 || b == 1) by (nonlinear_arith);
}

/// A trace has no fault exactly where it has eleven columns and no row has one.
pub proof fn law_faultless_traces(trace: Seq<Vec<i64>>)
    ensures
        trace_fault(trace) is None <==> trace.len() == 11 && forall|r: nat|
            r < trace[0]@.len() ==> #[trigger] row_fault(trace, r) is None,
{
    if trace.len() == 11 {
        lemma_faultless_from(trace, 0, trace[0]@.len());
    }
}

proof fn lemma_faultless_from(trace: Seq<Vec<i64>>, r: nat, n: nat)
    ensures
        rows_fault(trace, r, n) is None <==> forall|k: nat|
            r <= k < n ==> #[trigger] row_fault(trace, k) is None,
    decreases n - r,
{
    if r < n {
        lemma_faultless_from(trace, r + 1, n);
    }
}

// ---------------------------------------------------------------------------
// What digests of a layer bind
// ---------------------------------------------------------------------------

/// Packed integers take eight bytes each and hold every integer in its place, in two's complement.
pub proof fn law_packed_integers_hold_every_integer(s: Seq<int>, n: nat)
    requires
        n <= s.len(),
    ensures
        packed_integers(s, n).len() == 8 * n,
        forall|i: int|
            0 <= i < n ==> packed_integers(s, n).subrange(8 * i, 8 * i + 8) == encoding::le_bytes(
                encoding::twos_complement(#[trigger] s[i]),
                8,
            ),
    decreases n,
{
    if n > 0 {
        let before = packed_integers(s, (n - 1) as nat);
        let all = packed_integers(s, n);
        let last = encoding::le_bytes(encoding::twos_complement(s[n - 1]), 8);
        law_packed_integers_hold_every_integer(s, (n - 1) as nat);
        encoding::lemma_le_bytes_len(encoding::twos_complement(s[n - 1]), 8);
        assert forall|i: int| 0 <= i < n implies all.subrange(8 * i, 8 * i + 8)
            == encoding::le_bytes(encoding::twos_complement(#[trigger] s[i]), 8) by {
            if i < n - 1 {
                assert(all.subrange(8 * i, 8 * i + 8) =~= before.subrange(8 * i, 8 * i + 8));
            } else {
                assert(all.subrange(8 * i, 8 * i + 8) =~= last);
            }
        }
    }
}

/// Lists of 64-bit integers with the same packed form are the same.
pub proof fn law_packed_integers_are_injective(a: Seq<int>, b: Seq<int>)
    requires
        forall|i: int| 0 <= i < a.len() ==> is_i64(#[trigger] a[i]),
        forall|i: int| 0 <= i < b.len() ==> is_i64(#[trigger] b[i]),
    ensures
        packed_integers(a, a.len()) == packed_integers(b, b.len()) <==> a == b,
{
    law_packed_integers_hold_every_integer(a, a.len());
    law_packed_integers_hold_every_integer(b, b.len());
    if packed_integers(a, a.len()) == packed_integers(b, b.len()) {
        assert forall|i: int| 0 <= i < a.len() implies a[i] == b[i] by {
            let part = packed_integers(a, a.len()).subrange(8 * i, 8 * i + 8);
            assert(part == encoding::le_bytes(encoding::twos_complement(a[i]), 8));
            assert(part == encoding::le_bytes(encoding::twos_complement(b[i]), 8));
            assert(is_i64(a[i]) && is_i64(b[i]));
            encoding::law_le_u64_injective(
                encoding::twos_complement(a[i]) as u64,
                encoding::twos_complement(b[i]) as u64,
            );
        }
        assert(a =~= b);
    }
}

/// The digest of a vector belongs to that vector alone, unless the digests of what is hashed
/// collide. So layers chain only where the output of one is the input of the next.
pub proof fn law_vector_digests_bind_vectors(a: Seq<i64>, b: Seq<i64>)
    requires
        vector_digest(a) == vector_digest(b),
    ensures
        a == b || hash::collides(
            packed_integers(integers(a), a.len()),
            packed_integers(integers(b), b.len()),
        ),
{
    law_packed_integers_are_injective(integers(a), integers(b));
    if integers(a) == integers(b) {
        assert forall|i: int| 0 <= i < a.len() implies a[i] == b[i] by {
            assert(integers(a)[i] == a[i]);
            assert(integers(b)[i] == b[i]);
        }
        assert(a =~= b);
    }
}

/// Whether all cells of a layer's trace are 64-bit integers.
pub open spec fn cells_fit(layer: DenseLayerInput) -> bool {
    forall|c: int, r: int|
        0 <= c < 11 && 0 <= r < dense_height(layer) ==> is_i64(
            #[trigger] dense_column(layer, c)[r],
        )
}

proof fn lemma_packed_columns_split(
    a: DenseLayerInput,
    b: DenseLayerInput,
    n: nat,
)
    requires
        n <= 11,
        cells_fit(a),
        cells_fit(b),
        dense_height(a) == dense_height(b),
        packed_columns(a, n) == packed_columns(b, n),
    ensures
        forall|c: int| 0 <= c < n ==> #[trigger] dense_column(a, c) == dense_column(b, c),
    decreases n,
{
    if n > 0 {
        let m = (n - 1) as nat;
        let x = packed_integers(dense_column(a, n - 1), dense_height(a));
        let y = packed_integers(dense_column(b, n - 1), dense_height(b));
        law_packed_integers_hold_every_integer(dense_column(a, n - 1), dense_height(a));
        law_packed_integers_hold_every_integer(dense_column(b, n - 1), dense_height(b));
        assert(packed_columns(a, n).len() == packed_columns(a, m).len() + x.len());
        assert(packed_columns(b, n).len() == packed_columns(b, m).len() + y.len());
        encoding::lemma_split(packed_columns(a, m), x, packed_columns(b, m), y);
        lemma_packed_columns_split(a, b, m);
        law_packed_integers_are_injective(dense_column(a, n - 1), dense_column(b, n - 1));
    }
}

/// The binding hash of a layer covers its whole trace: two layers with traces of one height have the
/// same hash only where they have the same cells in all eleven columns, and so the same weights,
/// inputs and biases, unless the digests of what is hashed collide.
pub proof fn law_binding_hashes_bind_traces(a: DenseLayerInput, b: DenseLayerInput)
    requires
        cells_fit(a),
        cells_fit(b),
        dense_height(a) == dense_height(b),
        hash::blake3_digest(packed_columns(a, 11)) == hash::blake3_digest(packed_columns(b, 11)),
    ensures
        (forall|c: int, r: int|
            0 <= c < 11 && 0 <= r < dense_height(a) ==> #[trigger] dense_row(a, r)[c] == dense_row(
                b,
                r,
            )[c]) || hash::collides(packed_columns(a, 11), packed_columns(b, 11)),
{
    if packed_columns(a, 11) == packed_columns(b, 11) {
        lemma_packed_columns_split(a, b, 11);
        assert forall|c: int, r: int|
            0 <= c < 11 && 0 <= r < dense_height(a) implies #[trigger] dense_row(a, r)[c]
            == dense_row(b, r)[c] by {
            assert(dense_column(a, c) == dense_column(b, c));
            assert(dense_column(a, c)[r] == dense_row(a, r)[c]);
            assert(dense_column(b, c)[r] == dense_row(b, r)[c]);
        }
    }
}

/// The data of a layer proof reads back as the height of the trace, its width, and the three hashes.
pub proof fn law_layer_proofs_read_back(p: DenseLayerProof, layer: DenseLayerInput)
    requires
        is_layer_proof(p, layer),
        dense_height(layer) <= u64::MAX,
    ensures
        p.proof_data@.len() == 112,
        encoding::le_value(p.proof_data@.subrange(0, 8)) == p.trace_rows,
        encoding::le_value(p.proof_data@.subrange(8, 16)) == 11,
        p.proof_data@.subrange(16, 48) == p.binding_hash@,
        p.proof_data@.subrange(48, 80) == p.input_hash@,
        p.proof_data@.subrange(80, 112) == p.output_hash@,
        p.binding_hash@ == hash::blake3_digest(packed_columns(layer, 11)),
        p.input_hash@ == vector_digest(layer.input@),
        p.output_hash@ == vector_digest(layer.output@),
{
    let h = dense_height(layer);
    encoding::lemma_le_u64_roundtrip(h as u64);
    encoding::lemma_le_u64_roundtrip(11);
    let d = p.proof_data@;
    assert(d.subrange(0, 8) =~= encoding::le_bytes(h, 8));
    assert(d.subrange(8, 16) =~= encoding::le_bytes(11, 8));
    assert(d.subrange(16, 48) =~= p.binding_hash@);
    assert(d.subrange(48, 80) =~= p.input_hash@);
    assert(d.subrange(80, 112) =~= p.output_hash@);
}

/// The composition covers the three hashes of every layer, 96 bytes to a layer.
pub proof fn law_compositions_hold_every_layer(proofs: Seq<DenseLayerProof>, n: nat)
    requires
        n <= proofs.len(),
    ensures
        composition_input(proofs, n).len() == 96 * n,
        forall|i: int|
            0 <= i < n ==> composition_input(proofs, n).subrange(96 * i, 96 * i + 96) == (
            #[trigger] proofs[i]).binding_hash@ + proofs[i].input_hash@ + proofs[i].output_hash@,
    decreases n,
{
    if n > 0 {
        let before = composition_input(proofs, (n - 1) as nat);
        let all = composition_input(proofs, n);
        law_compositions_hold_every_layer(proofs, (n - 1) as nat);
        let p = proofs[n - 1];
        let last = p.binding_hash@ + p.input_hash@ + p.output_hash@;
        assert(all =~= before + last);
        assert forall|i: int| 0 <= i < n implies all.subrange(96 * i, 96 * i + 96) == (
        #[trigger] proofs[i]).binding_hash@ + proofs[i].input_hash@ + proofs[i].output_hash@ by {
            if i < n - 1 {
                assert(all.subrange(96 * i, 96 * i + 96) =~= before.subrange(96 * i, 96 * i + 96));
            } else {
                assert(all.subrange(96 * i, 96 * i + 96) =~= last);
            }
        }
    }
}

/// The composition of layer proofs belongs to the three hashes of each of them, unless the digests
/// of what is hashed collide.
pub proof fn law_compositions_bind_layers(a: Seq<DenseLayerProof>, b: Seq<DenseLayerProof>)
    requires
        hash::blake3_digest(composition_input(a, a.len())) == hash::blake3_digest(
            composition_input(b, b.len()),
        ),
    ensures
        ({
            &&& a.len() == b.len()
            &&& forall|i: int|
                0 <= i < a.len() ==> {
                    &&& (#[trigger] a[i]).binding_hash@ == b[i].binding_hash@
                    &&& a[i].input_hash@ == b[i].input_hash@
                    &&& a[i].output_hash@ == b[i].output_hash@
                }
        }) || hash::collides(composition_input(a, a.len()), composition_input(b, b.len())),
{
    let x = composition_input(a, a.len());
    let y = composition_input(b, b.len());
    law_compositions_hold_every_layer(a, a.len());
    law_compositions_hold_every_layer(b, b.len());
    if x == y {
        assert forall|i: int| 0 <= i < a.len() implies {
            &&& (#[trigger] a[i]).binding_hash@ == b[i].binding_hash@
            &&& a[i].input_hash@ == b[i].input_hash@
            &&& a[i].output_hash@ == b[i].output_hash@
        } by {
            let p = a[i];
            let q = b[i];
            assert(x.subrange(96 * i, 96 * i + 96) == p.binding_hash@ + p.input_hash@
                + p.output_hash@);
            assert(y.subrange(96 * i, 96 * i + 96) == q.binding_hash@ + q.input_hash@
                + q.output_hash@);
            encoding::lemma_split(
                p.binding_hash@ + p.input_hash@,
                p.output_hash@,
                q.binding_hash@ + q.input_hash@,
                q.output_hash@,
            );
            encoding::lemma_split(p.binding_hash@, p.input_hash@, q.binding_hash@, q.input_hash@);
        }
    }
}

/// The layers of a folded proof hand on their outputs: where the proof exists, each layer's input is
/// the output of the layer before it, unless the digests of two vectors collide.
pub proof fn law_chained_layers_hand_on(layers: Seq<DenseLayerInput>, k: int)
    requires
        chained(layers),
        0 <= k < layers.len() - 1,
    ensures
        layers[k].output@ == layers[k + 1].input@ || hash::collides(
            packed_integers(integers(layers[k].output@), layers[k].output@.len()),
            packed_integers(integers(layers[k + 1].input@), layers[k + 1].input@.len()),
        ),
{
    assert(!breaks_at(layers, k));
    law_vector_digests_bind_vectors(layers[k].output@, layers[k + 1].input@);
}

/// A layer whose outputs hold has one output for every neuron, and each is the sum of the products
/// of the neuron's weights and the inputs plus its bias.
pub proof fn law_right_outputs_are_the_forward_pass(layer: DenseLayerInput, i: int)
    requires
        outputs_hold(layer),
        0 <= i < layer.out_size,
    ensures
        layer.output@.len() == layer.out_size,
        layer.output@[i] == dot(
            layer.weights@,
            layer.input@,
            i * layer.in_size,
            layer.in_size as nat,
        ) + layer.bias@[i],
        output_fault(layer) is None,
{
    lemma_wrong_output(layer, 0);
    assert(layer.output@[i] == layer_neuron(layer, i));
}

/// A folded proof has a proof for every layer, runs from the input of the first to the output of the
/// last, composes all of them, and counts 112 bytes for each and 32 for the composition.
pub proof fn law_folded_proofs_span_their_layers(
    p: FoldedInferenceProof,
    layers: Seq<DenseLayerInput>,
    i: int,
)
    requires
        is_folded_proof(p, layers),
        0 <= i < layers.len(),
    ensures
        p.layer_proofs@.len() == layers.len(),
        is_layer_proof(p.layer_proofs@[i], layers[i]),
        p.model_input_hash@ == p.layer_proofs@[0].input_hash@,
        p.final_output_hash@ == p.layer_proofs@[layers.len() - 1].output_hash@,
        p.composition_proof@ == hash::blake3_digest(
            composition_input(p.layer_proofs@, layers.len()),
        ),
        p.total_proof_size == 112 * layers.len() + 32,
        p.num_layers == layers.len(),
{
    assert(is_layer_proof(p.layer_proofs@[0], layers[0]));
    assert(is_layer_proof(p.layer_proofs@[layers.len() - 1], layers[layers.len() - 1]));
}

/// The first wrong output is reported, with its place, what was claimed and what it should be.
pub proof fn law_the_first_wrong_output_is_reported(layer: DenseLayerInput, from: nat, i: nat)
    requires
        from <= i < layer.output@.len(),
        forall|k: int|
            from <= k < i ==> #[trigger] layer.output@[k] == layer_neuron(layer, k),
        layer.output@[i as int] != layer_neuron(layer, i as int),
    ensures
        wrong_output(layer, from) == Some(
            "Output "@ + encoding::decimal(i) + " mismatch: "@ + encoding::signed_decimal(
                layer.output@[i as int] as int,
            ) + " != "@ + encoding::signed_decimal(layer_neuron(layer, i as int)),
        ),
    decreases i - from,
{
    if from < i {
        assert(layer.output@[from as int] == layer_neuron(layer, from as int));
        law_the_first_wrong_output_is_reported(layer, from + 1, i);
    }
}

/// The reports on layers name them: a wrong layer by its place, followed by what is wrong with its outputs,
/// a break by the places of both its neighbours, followed by the start of both hashes.
pub proof fn law_reports_name_the_layers(layers: Seq<DenseLayerInput>, k: int)
    requires
        0 <= k < layers.len() - 1,
        output_fault(layers[k]) is Some,
    ensures
        layer_report(layers, k) == "Layer "@ + encoding::decimal(k as nat) + " proof failed: "@
            + output_fault(layers[k])->0,
        break_report(layers, k) == "Chain break between layer "@ + encoding::decimal(k as nat)
            + " and "@ + encoding::decimal((k + 1) as nat) + ": output "@ + hash::hex_text(
            hash::blake3_digest(
                packed_integers(integers(layers[k].output@), layers[k].output@.len()),
            ).subrange(0, 8),
        ) + " != input "@ + hash::hex_text(
            hash::blake3_digest(
                packed_integers(integers(layers[k + 1].input@), layers[k + 1].input@.len()),
            ).subrange(0, 8),
        ),
{
}

/// A layer with too few biases, or another number of outputs than it has neurons, is reported with both
/// numbers.
pub proof fn law_wrong_counts_are_reported(layer: DenseLayerInput)
    ensures
        layer.bias@.len() < layer.out_size ==> output_fault(layer) == Some(
            "Expected "@ + encoding::decimal(layer.out_size as nat) + " biases, got "@
                + encoding::decimal(layer.bias@.len()),
        ),
        layer.bias@.len() >= layer.out_size && layer.output@.len() != layer.out_size
            ==> output_fault(layer) == Some(
            "Expected "@ + encoding::decimal(layer.out_size as nat) + " outputs, got "@
                + encoding::decimal(layer.output@.len()),
        ),
        layer.bias@.len() >= layer.out_size && layer.output@.len() == layer.out_size ==> (
        output_fault(layer) is None <==> forall|i: int|
            0 <= i < layer.output@.len() ==> #[trigger] layer.output@[i] == layer_neuron(layer, i)),
{
    lemma_wrong_output(layer, 0);
}

} // verus!
