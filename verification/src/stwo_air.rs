//! Traces, constraints and receipts of the circle STARKs that prove blocks.
//!
//! A block trace has one row per state diff and per transfer; a recursive trace has one row
//! per child proof; a dense-layer trace has one row per multiplication. Rows that hold no data
//! are zero. All cells are elements of the Mersenne-31 field (p = 2^31 - 1); a 32-byte hash
//! takes 16 cells of 16 bits each, a balance takes two.

use vstd::arithmetic::div_mod::*;
use vstd::arithmetic::power2::*;
use vstd::prelude::*;

use crate::encoding;
use crate::encoding::{
    bytes_eq, first_32, push_bytes, push_joined, push_u32, push_u64, read_u32,
};
use crate::hash;
use crate::hash::{blake3_derive, blake3_hash};
use crate::inference_proof;
use crate::stark::{BlockProofInput, TransferWitness};

verus! {

// ---------------------------------------------------------------------------
// Constants
// ---------------------------------------------------------------------------

/// The modulus of the Mersenne-31 field.
pub const M31_MODULUS: u32 = 2147483647;

/// Number of field elements that represent a 32-byte hash, 16 bits to each.
pub const HASH_LIMBS: usize = 16;

/// Base of the two-limb form of a balance: value = lo + hi * LIMB_BASE.
pub const LIMB_BASE: u32 = 65536;

/// Maximum value for the low limb (16 bits).
pub const LIMB_LO_MAX: u32 = 65535;

/// Number of transfer-related columns.
pub const TRANSFER_COLS: usize = 15;

/// Number of trace columns per row: the active flag, the hash limbs and the transfer data.
pub const TRACE_COLS: usize = 32;

/// Minimum log2 of trace rows.
pub const MIN_LOG_SIZE: u32 = 4;

/// Number of columns in a dense-layer trace.
pub const DENSE_STARK_COLS: usize = 6;

/// Number of columns in a recursive-verifier trace.
pub const RECURSIVE_VERIFIER_COLS: usize = 82;

/// Version of the receipt format.
pub const PROOF_VERSION: u32 = 1;

// ---------------------------------------------------------------------------
// The Mersenne-31 field
// ---------------------------------------------------------------------------

/// An element of the Mersenne-31 field, by its residue.
#[derive(Debug, Clone, Copy, PartialEq, Eq, Structural)]
pub struct M31(pub u32);

/// The residue of an integer in the Mersenne-31 field.
pub open spec fn residue(x: int) -> int {
    x % 2147483647
}

/// The sum of two field elements.
pub open spec fn plus(a: int, b: int) -> int {
    residue(a + b)
}

/// The difference of two field elements.
pub open spec fn minus(a: int, b: int) -> int {
    residue(a - b)
}

/// The product of two field elements.
pub open spec fn times(a: int, b: int) -> int {
    residue(a * b)
}

/// The residues that a list of elements holds.
pub open spec fn elems(s: Seq<M31>) -> Seq<int> {
    s.map_values(|x: M31| x.0 as int)
}

/// Whether every element of a list is a residue.
pub open spec fn reduced(s: Seq<M31>) -> bool {
    forall|i: int| 0 <= i < s.len() ==> (#[trigger] s[i]).0 < M31_MODULUS
}

/// The field element of an integer.
pub fn m31(v: u32) -> (r: M31)
    ensures
        r.0 == residue(v as int),
        r.0 < M31_MODULUS,
{
    M31(v % M31_MODULUS)
}

/// The field element of a signed integer.
pub fn m31_signed(v: i64) -> (r: M31)
    ensures
        r.0 == residue(v as int),
        r.0 < M31_MODULUS,
{
    if v >= 0 {
        M31((v as u64 % M31_MODULUS as u64) as u32)
    } else {
        // The magnitude of a negative integer is one more than that of its complement.
        let below: u64 = (-(v + 1)) as u64 % M31_MODULUS as u64;
        let r: u32 = M31_MODULUS - 1 - below as u32;
        proof {
            let n = -(v + 1) as int;
            lemma_fundamental_div_mod(n, 2147483647);
            let q = n / 2147483647;
            assert(v as int == -1 - (2147483647 * q + below));
            assert(v as int == 2147483647 * (-q - 1) + r) by (nonlinear_arith)
                requires
                    v as int == -1 - (2147483647 * q + below),
                    r == 2147483647 - 1 - below,
            ;
            lemma_fundamental_div_mod_converse(v as int, 2147483647, -q - 1, r as int);
        }
        M31(r)
    }
}

/// The sum of two field elements.
pub fn m31_add(a: M31, b: M31) -> (r: M31)
    requires
        a.0 < M31_MODULUS,
        b.0 < M31_MODULUS,
    ensures
        r.0 == plus(a.0 as int, b.0 as int),
        r.0 < M31_MODULUS,
{
    M31((a.0 + b.0) % M31_MODULUS)
}

/// The difference of two field elements.
pub fn m31_sub(a: M31, b: M31) -> (r: M31)
    requires
        a.0 < M31_MODULUS,
        b.0 < M31_MODULUS,
    ensures
        r.0 == minus(a.0 as int, b.0 as int),
        r.0 < M31_MODULUS,
{
    M31((a.0 + (M31_MODULUS - b.0)) % M31_MODULUS)
}

/// The product of two field elements.
pub fn m31_mul(a: M31, b: M31) -> (r: M31)
    requires
        a.0 < M31_MODULUS,
        b.0 < M31_MODULUS,
    ensures
        r.0 == times(a.0 as int, b.0 as int),
        r.0 < M31_MODULUS,
{
    assert(a.0 * b.0 <= 2147483646 * 2147483646) by (nonlinear_arith)
        requires
            a.0 <= 2147483646,
            b.0 <= 2147483646,
    ;
    M31(((a.0 as u64 * b.0 as u64) % M31_MODULUS as u64) as u32)
}

// ---------------------------------------------------------------------------
// Limbs
// ---------------------------------------------------------------------------

/// The 16-bit limbs of a 32-byte hash, little-endian.
pub open spec fn limbs(bytes: Seq<u8>) -> Seq<int> {
    Seq::new(16, |k: int| bytes[2 * k] + 256 * bytes[2 * k + 1])
}

/// The bytes that limbs spell; a limb counts by its low 16 bits.
pub open spec fn limb_bytes(s: Seq<int>) -> Seq<u8> {
    Seq::new(
        32,
        |i: int|
            if i % 2 == 0 {
                (s[i / 2] % 256) as u8
            } else {
                (s[i / 2] / 256 % 256) as u8
            },
    )
}

/// Converts a 32-byte hash into 16 field elements of 16 bits each.
pub fn bytes32_to_m31_limbs(bytes: &[u8; 32]) -> (r: [M31; 16])
    ensures
        elems(r@) == limbs(bytes@),
        reduced(r@),
{
    let mut r: [M31; 16] = [M31(0);16];
    let mut i: usize = 0;
    while i < 16
        invariant
            i <= 16,
            forall|k: int| 0 <= k < i ==> (#[trigger] r@[k]).0 == bytes@[2 * k] + 256 * bytes@[2 * k + 1],
            forall|k: int| 0 <= k < 16 ==> (#[trigger] r@[k]).0 < M31_MODULUS,
        decreases 16 - i,
    {
        let v: u32 = bytes[2 * i] as u32 + 256 * (bytes[2 * i + 1] as u32);
        r[i] = M31(v);
        i = i + 1;
    }
    assert(elems(r@) =~= limbs(bytes@));
    r
}

/// Converts 16 limbs back to a 32-byte hash.
pub fn m31_limbs_to_bytes32(limbs: &[M31; 16]) -> (r: [u8; 32])
    ensures
        r@ == limb_bytes(elems(limbs@)),
{
    let mut r: [u8; 32] = [0u8;32];
    let mut i: usize = 0;
    let ghost target = limb_bytes(elems(limbs@));
    while i < 16
        invariant
            i <= 16,
            target == limb_bytes(elems(limbs@)),
            forall|k: int| 0 <= k < 2 * i ==> r@[k] == target[k],
        decreases 16 - i,
    {
        let v: u32 = limbs[i].0;
        assert(elems(limbs@)[i as int] == v);
        r[2 * i] = (v % 256) as u8;
        r[2 * i + 1] = (v / 256 % 256) as u8;
        assert(target[2 * i as int] == (v % 256) as u8);
        assert(target[2 * i as int + 1] == (v / 256 % 256) as u8);
        i = i + 1;
    }
    assert(r@ =~= target);
    r
}

/// A hash is the hash that its limbs spell.
pub proof fn law_hash_limbs_roundtrip(bytes: Seq<u8>)
    requires
        bytes.len() == 32,
    ensures
        limb_bytes(limbs(bytes)) == bytes,
{
    let l = limbs(bytes);
    assert forall|i: int| 0 <= i < 32 implies limb_bytes(l)[i] == bytes[i] by {
        assert(l[i / 2] == bytes[2 * (i / 2)] + 256 * bytes[2 * (i / 2) + 1]);
    }
    assert(limb_bytes(l) =~= bytes);
}

/// Limbs of 16 bits are the limbs of the hash that they spell.
pub proof fn law_limb_bytes_roundtrip(s: Seq<int>)
    requires
        s.len() == 16,
        forall|k: int| 0 <= k < 16 ==> 0 <= #[trigger] s[k] < 65536,
    ensures
        limbs(limb_bytes(s)) == s,
{
    let b = limb_bytes(s);
    assert forall|k: int| 0 <= k < 16 implies limbs(b)[k] == s[k] by {
        assert(b[2 * k] == (s[k] % 256) as u8);
        assert(b[2 * k + 1] == (s[k] / 256 % 256) as u8);
    }
    assert(limbs(b) =~= s);
}

/// Decomposes a balance into its low 16 bits and the rest: `(lo, hi)`.
pub fn u64_to_m31_limbs(value: u64) -> (r: (M31, M31))
    requires
        value < 140737488289792,
    ensures
        r.0.0 == value % 65536,
        r.1.0 == value / 65536,
        r.0.0 < M31_MODULUS,
        r.1.0 < M31_MODULUS,
{
    (M31((value % 65536) as u32), M31((value / 65536) as u32))
}

/// Reconstructs a balance from its two limbs.
pub fn m31_limbs_to_u64(lo: M31, hi: M31) -> (r: u64)
    ensures
        r == lo.0 + 65536 * hi.0,
{
    lo.0 as u64 + 65536 * (hi.0 as u64)
}

/// A balance is the number that its two limbs spell.
pub proof fn law_balance_limbs_roundtrip(value: nat)
    ensures
        value % 65536 + 65536 * (value / 65536) == value,
{
    lemma_fundamental_div_mod(value as int, 65536);
}

// ---------------------------------------------------------------------------
// Trace shape
// ---------------------------------------------------------------------------

/// Whether `log` is the smallest admissible log2 of a trace with at least `n` rows.
pub open spec fn is_log_size(n: nat, log: nat) -> bool {
    &&& log >= 4
    &&& n <= pow2(log)
    &&& log > 4 ==> pow2((log - 1) as nat) < n
}

/// The smallest admissible log2 of a trace with at least `n` rows.
pub open spec fn log_size(n: nat) -> nat {
    choose|log: nat| is_log_size(n, log)
}

/// A number of rows has one log2 size.
pub proof fn lemma_log_size_is_single(n: nat, a: nat)
    requires
        is_log_size(n, a),
    ensures
        log_size(n) == a,
{
    let b = log_size(n);
    assert(is_log_size(n, b));
    if a < b {
        if a < b - 1 {
            lemma_pow2_strictly_increases(a, (b - 1) as nat);
        }
    } else if b < a {
        if b < a - 1 {
            lemma_pow2_strictly_increases(b, (a - 1) as nat);
        }
    }
}

/// A trace for at most half as many rows as `usize` counts has a size in `usize`.
pub proof fn lemma_log_size_fits(n: nat, log: nat)
    requires
        is_log_size(n, log),
        n <= usize::MAX / 2 + 1,
    ensures
        pow2(log) <= usize::MAX,
{
    lemma2_to64();
    if log > 4 {
        lemma_pow2_unfold(log);
    }
}

/// Computes the minimum log2 trace size for a given number of rows of data.
pub fn compute_log_size(n_diffs: usize) -> (log: u32)
    ensures
        is_log_size(n_diffs as nat, log as nat),
        log == log_size(n_diffs as nat),
        log <= 64,
{
    let mut log: u32 = MIN_LOG_SIZE;
    let mut size: u128 = 16;
    proof {
        lemma2_to64();
    }
    while size < n_diffs as u128
        invariant
            4 <= log <= 64,
            size == pow2(log as nat),
            log > 4 ==> pow2((log - 1) as nat) < n_diffs,
        decreases 64 - log,
    {
        proof {
            lemma2_to64();
            lemma2_to64_rest();
            if log >= 64 {
                assert(false);
            }
            if log < 63 {
                lemma_pow2_strictly_increases(log as nat, 63);
            }
            lemma_pow2_unfold((log + 1) as nat);
        }
        size = size * 2;
        log = log + 1;
    }
    proof {
        lemma_log_size_is_single(n_diffs as nat, log as nat);
    }
    log
}

/// The number of rows of a trace of the given log2 size.
pub(crate) fn trace_rows(log_size: u32) -> (n: usize)
    requires
        pow2(log_size as nat) <= usize::MAX,
    ensures
        n == pow2(log_size as nat),
{
    let mut n: usize = 1;
    let mut k: u32 = 0;
    proof {
        lemma2_to64();
    }
    while k < log_size
        invariant
            k <= log_size,
            n == pow2(k as nat),
            pow2(log_size as nat) <= usize::MAX,
        decreases log_size - k,
    {
        proof {
            lemma_pow2_unfold((k + 1) as nat);
            if k + 1 < log_size {
                lemma_pow2_strictly_increases((k + 1) as nat, log_size as nat);
            }
        }
        n = n * 2;
        k = k + 1;
    }
    n
}

/// The cell of a trace at a column and a row.
pub open spec fn cell(cols: Seq<Vec<M31>>, c: int, r: int) -> int {
    cols[c]@[r].0 as int
}

/// Whether a trace has the given rows, each as long as the trace is wide.
pub open spec fn has_rows(cols: Seq<Vec<M31>>, width: nat, height: nat, row: spec_fn(int) -> Seq<int>) -> bool {
    &&& cols.len() == width
    &&& forall|c: int| 0 <= c < width ==> (#[trigger] cols[c])@.len() == height
    &&& forall|c: int, r: int|
        0 <= c < width && 0 <= r < height ==> #[trigger] cell(cols, c, r) == row(r)[c]
}

/// Columns without rows.
fn empty_columns(width: usize) -> (cols: Vec<Vec<M31>>)
    ensures
        cols@.len() == width,
        forall|c: int| 0 <= c < width ==> (#[trigger] cols@[c])@.len() == 0,
{
    let mut cols: Vec<Vec<M31>> = Vec::new();
    let mut c: usize = 0;
    while c < width
        invariant
            c <= width,
            cols@.len() == c,
            forall|k: int| 0 <= k < c ==> (#[trigger] cols@[k])@.len() == 0,
        decreases width - c,
    {
        cols.push(Vec::new());
        c = c + 1;
    }
    cols
}

/// Appends a row to columns of equal length.
fn append_row(cols: &mut Vec<Vec<M31>>, row: &[M31], Ghost(rows): Ghost<spec_fn(int) -> Seq<int>>, Ghost(height): Ghost<nat>)
    requires
        has_rows(old(cols)@, row@.len(), height, rows),
        elems(row@) == rows(height as int),
    ensures
        has_rows(final(cols)@, row@.len(), height + 1, rows),
{
    let ghost before = cols@;
    let mut c: usize = 0;
    while c < row.len()
        invariant
            c <= row.len(),
            before.len() == row.len(),
            cols@.len() == row.len(),
            has_rows(before, row@.len(), height, rows),
            forall|k: int| 0 <= k < c ==> (#[trigger] cols@[k])@ == before[k]@.push(row@[k]),
            forall|k: int| c <= k < row.len() ==> #[trigger] cols@[k] == before[k],
        decreases row.len() - c,
    {
        let col: &mut Vec<M31> = &mut cols[c];
        col.push(row[c]);
        c = c + 1;
    }
    assert forall|k: int| 0 <= k < row.len() implies (#[trigger] cols@[k])@.len() == height + 1 by {
        assert(before[k]@.len() == height);
    }
    assert forall|k: int, r: int| 0 <= k < row.len() && 0 <= r < height + 1 implies #[trigger] cell(
        cols@,
        k,
        r,
    ) == rows(r)[k] by {
        assert(cols@[k]@ == before[k]@.push(row@[k]));
        assert(before[k]@.len() == height);
        if r < height {
            assert(cell(before, k, r) == rows(r)[k]);
        } else {
            assert(elems(row@)[k] == row@[k].0);
        }
    }
}

// ---------------------------------------------------------------------------
// Block trace
// ---------------------------------------------------------------------------

/// The digest of a state diff.
pub open spec fn diff_digest(diff: ([u8; 32], [u8; 32], [u8; 32])) -> Seq<u8> {
    hash::blake3_derived("ARC-stwo-state-diff-v1"@, diff.0@ + diff.1@ + diff.2@)
}

/// Hashes a state diff into 32 bytes.
fn hash_state_diff(diff: &([u8; 32], [u8; 32], [u8; 32])) -> (r: [u8; 32])
    ensures
        r@ == diff_digest(*diff),
{
    let mut data: Vec<u8> = Vec::new();
    push_bytes(&mut data, &diff.0);
    push_bytes(&mut data, &diff.1);
    push_bytes(&mut data, &diff.2);
    assert(data@ =~= diff.0@ + diff.1@ + diff.2@);
    blake3_derive("ARC-stwo-state-diff-v1", &data)
}

/// Zeros.
pub open spec fn zeros(n: nat) -> Seq<int> {
    Seq::new(n, |i: int| 0int)
}

/// The low limb of a balance.
pub open spec fn lo(value: u64) -> int {
    (value % 65536) as int
}

/// The high limb of a balance.
pub open spec fn hi(value: u64) -> int {
    (value / 65536) as int
}

/// The cells of a transfer: the flag, the limbs of the four balances and of the amount, the
/// two nonces, the fee and the sender balance afterwards as one element.
pub open spec fn transfer_cells(t: TransferWitness) -> Seq<int> {
    seq![
        1int,
        lo(t.sender_bal_before),
        hi(t.sender_bal_before),
        lo(t.sender_bal_after),
        hi(t.sender_bal_after),
        lo(t.receiver_bal_before),
        hi(t.receiver_bal_before),
        lo(t.receiver_bal_after),
        hi(t.receiver_bal_after),
        lo(t.amount),
        hi(t.amount),
        residue(t.sender_nonce_before as int),
        residue(t.sender_nonce_after as int),
        residue(t.fee as int),
        plus(lo(t.sender_bal_after), times(hi(t.sender_bal_after), 65536)),
    ]
}

/// A row of the block trace: the active flag, the limbs of the state diff of that row and the
/// cells of its transfer, with zeros where there is no diff or no transfer.
pub open spec fn block_row(input: BlockProofInput, r: int) -> Seq<int> {
    let has_diff = r < input.state_diffs@.len();
    let has_transfer = r < input.transfers@.len();
    seq![if has_diff || has_transfer { 1int } else { 0int }]
        + (if has_diff { limbs(diff_digest(input.state_diffs@[r])) } else { zeros(16) })
        + (if has_transfer { transfer_cells(input.transfers@[r]) } else { zeros(15) })
}

/// Whether the values of a transfer fit in the cells of the trace.
pub open spec fn transfer_fits(t: TransferWitness) -> bool {
    &&& t.sender_bal_before < 140737488289792
    &&& t.sender_bal_after < 140737488289792
    &&& t.receiver_bal_before < 140737488289792
    &&& t.receiver_bal_after < 140737488289792
    &&& t.amount < 140737488289792
    &&& t.fee < 2147483648
}

/// Appends zeros to a row.
fn push_zeros(row: &mut Vec<M31>, n: usize)
    requires
        reduced(old(row)@),
    ensures
        elems(final(row)@) == elems(old(row)@) + zeros(n as nat),
        reduced(final(row)@),
{
    let ghost before = row@;
    let mut i: usize = 0;
    assert(elems(row@) =~= elems(before) + zeros(0));
    while i < n
        invariant
            i <= n,
            elems(row@) == elems(before) + zeros(i as nat),
            reduced(row@),
        decreases n - i,
    {
        let ghost prior = row@;
        row.push(M31(0));
        assert(elems(row@) =~= elems(prior).push(0));
        assert(zeros(i as nat + 1) =~= zeros(i as nat).push(0));
        i = i + 1;
        assert(elems(row@) =~= elems(before) + zeros(i as nat));
    }
}

/// Appends the limbs of a hash to a row.
fn push_limbs(row: &mut Vec<M31>, bytes: &[u8; 32])
    requires
        reduced(old(row)@),
    ensures
        elems(final(row)@) == elems(old(row)@) + limbs(bytes@),
        reduced(final(row)@),
{
    let l: [M31; 16] = bytes32_to_m31_limbs(bytes);
    let ghost before = row@;
    let mut i: usize = 0;
    while i < 16
        invariant
            i <= 16,
            row@.len() == before.len() + i,
            reduced(row@),
            reduced(l@),
            forall|k: int| 0 <= k < before.len() ==> row@[k] == before[k],
            forall|k: int| 0 <= k < i ==> #[trigger] row@[before.len() + k] == l@[k],
        decreases 16 - i,
    {
        row.push(l[i]);
        i = i + 1;
    }
    assert forall|k: int| 0 <= k < row@.len() implies elems(row@)[k] == (elems(before)
        + elems(l@))[k] by {
        if k >= before.len() {
            assert(row@[before.len() + (k - before.len())] == l@[k - before.len()]);
        }
    }
    assert(elems(row@) =~= elems(before) + elems(l@));
}

/// Appends the cells of a transfer to a row.
fn push_transfer(row: &mut Vec<M31>, t: &TransferWitness)
    requires
        reduced(old(row)@),
        transfer_fits(*t),
    ensures
        elems(final(row)@) == elems(old(row)@) + transfer_cells(*t),
        reduced(final(row)@),
{
    let ghost before = row@;
    let (sbb_lo, sbb_hi) = u64_to_m31_limbs(t.sender_bal_before);
    let (sba_lo, sba_hi) = u64_to_m31_limbs(t.sender_bal_after);
    let (rbb_lo, rbb_hi) = u64_to_m31_limbs(t.receiver_bal_before);
    let (rba_lo, rba_hi) = u64_to_m31_limbs(t.receiver_bal_after);
    let (amt_lo, amt_hi) = u64_to_m31_limbs(t.amount);
    let nonce_before: M31 = m31(t.sender_nonce_before);
    let nonce_after: M31 = m31(t.sender_nonce_after);
    let fee: M31 = m31(t.fee as u32);
    let suf_bal_aux: M31 = m31_add(sba_lo, m31_mul(sba_hi, M31(LIMB_BASE)));
    row.push(M31(1));
    row.push(sbb_lo);
    row.push(sbb_hi);
    row.push(sba_lo);
    row.push(sba_hi);
    row.push(rbb_lo);
    row.push(rbb_hi);
    row.push(rba_lo);
    row.push(rba_hi);
    row.push(amt_lo);
    row.push(amt_hi);
    row.push(nonce_before);
    row.push(nonce_after);
    row.push(fee);
    row.push(suf_bal_aux);
    assert(elems(row@) =~= elems(before) + transfer_cells(*t));
}

/// Builds a row of the block trace.
fn build_block_row(input: &BlockProofInput, r: usize) -> (row: Vec<M31>)
    requires
        r < input.transfers@.len() ==> transfer_fits(input.transfers@[r as int]),
    ensures
        elems(row@) == block_row(*input, r as int),
        row@.len() == 32,
        reduced(row@),
{
    let has_diff: bool = r < input.state_diffs.len();
    let has_transfer: bool = r < input.transfers.len();
    let mut row: Vec<M31> = Vec::new();
    row.push(M31(if has_diff || has_transfer { 1 } else { 0 }));
    assert(elems(row@) =~= seq![if has_diff || has_transfer { 1int } else { 0int }]);
    if has_diff {
        let digest: [u8; 32] = hash_state_diff(&input.state_diffs[r]);
        push_limbs(&mut row, &digest);
    } else {
        push_zeros(&mut row, HASH_LIMBS);
    }
    if has_transfer {
        push_transfer(&mut row, &input.transfers[r]);
    } else {
        push_zeros(&mut row, TRANSFER_COLS);
    }
    assert(elems(row@).len() == row@.len());
    row
}

/// Generates the execution trace for a block's state transitions: `TRACE_COLS` columns of
/// `2^log_size` cells each. Rows beyond that size are dropped.
pub fn generate_block_witness_trace(input: &BlockProofInput, log_size: u32) -> (cols: Vec<
    Vec<M31>,
>)
    requires
        pow2(log_size as nat) <= usize::MAX,
        forall|i: int|
            0 <= i < input.transfers@.len() && i < pow2(log_size as nat) ==> transfer_fits(
                #[trigger] input.transfers@[i],
            ),
    ensures
        has_rows(
            cols@,
            TRACE_COLS as nat,
            pow2(log_size as nat),
            |r: int| block_row(*input, r),
        ),
{
    let size: usize = trace_rows(log_size);
    let mut cols: Vec<Vec<M31>> = empty_columns(TRACE_COLS);
    let ghost rows = |r: int| block_row(*input, r);
    let mut r: usize = 0;
    while r < size
        invariant
            r <= size,
            size == pow2(log_size as nat),
            has_rows(cols@, TRACE_COLS as nat, r as nat, rows),
            rows == (|r: int| block_row(*input, r)),
            forall|i: int|
                0 <= i < input.transfers@.len() && i < pow2(log_size as nat) ==> transfer_fits(
                    #[trigger] input.transfers@[i],
                ),
        decreases size - r,
    {
        let row: Vec<M31> = build_block_row(input, r);
        append_row(&mut cols, row.as_slice(), Ghost(rows), Ghost(r as nat));
        r = r + 1;
    }
    cols
}

// ---------------------------------------------------------------------------
// Block constraints
// ---------------------------------------------------------------------------

/// The field element that two limbs stand for.
pub open spec fn combined(lo: int, hi: int) -> int {
    plus(lo, times(hi, 65536))
}

/// That a cell is zero or one.
pub open spec fn boolean(x: int) -> int {
    minus(times(x, x), x)
}

/// That a cell is zero where a flag is zero.
pub open spec fn masked(flag: int, x: int) -> int {
    minus(x, times(flag, x))
}

/// What the sender of a row's transfer has paid too little.
pub open spec fn debit_error(row: Seq<int>) -> int {
    plus(
        plus(
            minus(combined(row[20], row[21]), combined(row[18], row[19])),
            combined(row[26], row[27]),
        ),
        row[30],
    )
}

/// What the receiver of a row's transfer has got too much.
pub open spec fn credit_error(row: Seq<int>) -> int {
    minus(
        minus(combined(row[24], row[25]), combined(row[22], row[23])),
        combined(row[26], row[27]),
    )
}

/// How far the nonce of a row's transfer is from its successor.
pub open spec fn nonce_error(row: Seq<int>) -> int {
    minus(minus(row[29], row[28]), 1)
}

/// How far the auxiliary cell of a row is from the sender balance afterwards.
pub open spec fn aux_error(row: Seq<int>) -> int {
    minus(row[31], combined(row[20], row[21]))
}

/// The values of the constraints on a row of the block trace; all of them are zero on a row
/// that meets the constraints. In order: the two flags are boolean, a transfer is active, the
/// hash limbs of inactive rows are zero, the sender is debited by amount and fee, the receiver
/// is credited with the amount, the nonce goes up by one, the auxiliary cell is the sender
/// balance afterwards, and rows without a transfer have no transfer data.
pub open spec fn block_constraints(row: Seq<int>) -> Seq<int> {
    let active = row[0];
    let has_transfer = row[17];
    seq![boolean(active), boolean(has_transfer), masked(active, has_transfer)]
        + Seq::new(16, |k: int| masked(active, row[1 + k]))
        + seq![
            times(has_transfer, debit_error(row)),
            times(has_transfer, credit_error(row)),
            times(has_transfer, nonce_error(row)),
            times(has_transfer, aux_error(row)),
        ] + Seq::new(14, |k: int| masked(has_transfer, row[18 + k]))
}

/// Whether all constraints are met.
pub open spec fn all_zero(s: Seq<int>) -> bool {
    forall|k: int| 0 <= k < s.len() ==> #[trigger] s[k] == 0
}

/// The value of `combined`.
fn m31_combined(lo: M31, hi: M31) -> (r: M31)
    requires
        lo.0 < M31_MODULUS,
        hi.0 < M31_MODULUS,
    ensures
        r.0 == combined(lo.0 as int, hi.0 as int),
        r.0 < M31_MODULUS,
{
    m31_add(lo, m31_mul(hi, M31(LIMB_BASE)))
}

/// The value of `boolean`.
fn m31_boolean(x: M31) -> (r: M31)
    requires
        x.0 < M31_MODULUS,
    ensures
        r.0 == boolean(x.0 as int),
        r.0 < M31_MODULUS,
{
    m31_sub(m31_mul(x, x), x)
}

/// The value of `masked`.
fn m31_masked(flag: M31, x: M31) -> (r: M31)
    requires
        flag.0 < M31_MODULUS,
        x.0 < M31_MODULUS,
    ensures
        r.0 == masked(flag.0 as int, x.0 as int),
        r.0 < M31_MODULUS,
{
    m31_sub(x, m31_mul(flag, x))
}

/// Appends the values of `masked` for `n` cells of a row from `from` on.
fn push_masked(out: &mut Vec<M31>, flag: M31, row: &[M31], from: usize, n: usize)
    requires
        flag.0 < M31_MODULUS,
        reduced(row@),
        from + n <= row@.len(),
    ensures
        elems(final(out)@) == elems(old(out)@) + Seq::new(
            n as nat,
            |k: int| masked(flag.0 as int, elems(row@)[from + k]),
        ),
{
    let ghost before = out@;
    let ghost want = |m: nat| Seq::new(m, |k: int| masked(flag.0 as int, elems(row@)[from + k]));
    let mut i: usize = 0;
    assert(elems(out@) =~= elems(before) + want(0));
    while i < n
        invariant
            i <= n,
            flag.0 < M31_MODULUS,
            reduced(row@),
            from + n <= row.len(),
            want == |m: nat| Seq::new(m, |k: int| masked(flag.0 as int, elems(row@)[from + k])),
            elems(out@) == elems(before) + want(i as nat),
        decreases n - i,
    {
        let ghost prior = out@;
        let v: M31 = m31_masked(flag, row[from + i]);
        assert(elems(row@)[from + i] == row@[from + i].0);
        out.push(v);
        assert(elems(out@) =~= elems(prior).push(v.0 as int));
        assert(want(i as nat + 1) =~= want(i as nat).push(v.0 as int));
        i = i + 1;
        assert(elems(out@) =~= elems(before) + want(i as nat));
    }
    assert(want(n as nat) == Seq::new(
        n as nat,
        |k: int| masked(flag.0 as int, elems(row@)[from + k]),
    ));
}

/// Constraints of the block trace.
#[derive(Debug, Clone, Copy)]
pub struct ArcBlockWitnessEval {
    /// log2 of the number of rows.
    pub log_size: u32,
}

impl ArcBlockWitnessEval {
    /// log2 of the number of rows.
    pub fn log_size(&self) -> (r: u32)
        ensures
            r == self.log_size,
    {
        self.log_size
    }

    /// log2 of the degree bound of the constraints: all of them are quadratic.
    pub fn max_constraint_log_degree_bound(&self) -> (r: u32)
        requires
            self.log_size < u32::MAX,
        ensures
            r == self.log_size + 1,
    {
        self.log_size + 1
    }

    /// The values of the constraints on a row.
    pub fn evaluate(&self, row: &[M31]) -> (r: Vec<M31>)
        requires
            row@.len() == TRACE_COLS,
            reduced(row@),
        ensures
            elems(r@) == block_constraints(elems(row@)),
    {
        let active: M31 = row[0];
        let has_transfer: M31 = row[17];
        let sender_before: M31 = m31_combined(row[18], row[19]);
        let sender_after: M31 = m31_combined(row[20], row[21]);
        let recv_before: M31 = m31_combined(row[22], row[23]);
        let recv_after: M31 = m31_combined(row[24], row[25]);
        let amount: M31 = m31_combined(row[26], row[27]);
        let debit: M31 = m31_add(m31_add(m31_sub(sender_after, sender_before), amount), row[30]);
        let credit: M31 = m31_sub(m31_sub(recv_after, recv_before), amount);
        let nonce: M31 = m31_sub(m31_sub(row[29], row[28]), M31(1));
        let aux: M31 = m31_sub(row[31], sender_after);
        let mut out: Vec<M31> = Vec::new();
        out.push(m31_boolean(active));
        out.push(m31_boolean(has_transfer));
        out.push(m31_masked(active, has_transfer));
        let ghost e = elems(row@);
        assert(elems(out@) =~= seq![boolean(e[0]), boolean(e[17]), masked(e[0], e[17])]);
        push_masked(&mut out, active, row, 1, HASH_LIMBS);
        let ghost middle = out@;
        out.push(m31_mul(has_transfer, debit));
        out.push(m31_mul(has_transfer, credit));
        out.push(m31_mul(has_transfer, nonce));
        out.push(m31_mul(has_transfer, aux));
        assert(elems(out@) =~= elems(middle) + seq![
            times(e[17], debit_error(e)),
            times(e[17], credit_error(e)),
            times(e[17], nonce_error(e)),
            times(e[17], aux_error(e)),
        ]);
        push_masked(&mut out, has_transfer, row, 18, 14);
        assert(elems(out@) =~= block_constraints(e));
        out
    }
}

/// Whether a transfer moves its amount from the sender to the receiver, charges the fee to the
/// sender and counts the sender's nonce up.
pub open spec fn transfer_balanced(t: TransferWitness) -> bool {
    &&& t.sender_bal_after + t.amount + t.fee == t.sender_bal_before
    &&& t.receiver_bal_after == t.receiver_bal_before + t.amount
    &&& t.sender_nonce_after == t.sender_nonce_before + 1
}

/// Two limbs stand for the residue of the balance that they spell.
proof fn lemma_combined(value: u64)
    ensures
        combined(lo(value), hi(value)) == residue(value as int),
{
    lemma_fundamental_div_mod(value as int, 65536);
    lemma_add_mod_noop_right(lo(value), hi(value) * 65536, 2147483647);
}

/// The residue of a sum whose terms were reduced, up to the sign of one term.
proof fn lemma_residue_sum(a: int, b: int)
    ensures
        plus(residue(a), residue(b)) == residue(a + b),
        minus(residue(a), residue(b)) == residue(a - b),
{
    lemma_add_mod_noop(a, b, 2147483647);
    lemma_sub_mod_noop(a, b, 2147483647);
}

/// What a flag of zero or one does to a cell.
proof fn lemma_flags(x: int)
    requires
        0 <= x < 2147483647,
    ensures
        boolean(0) == 0,
        boolean(1) == 0,
        masked(1, x) == 0,
        masked(0, 0) == 0,
        times(0, x) == 0,
        times(1, x) == x,
{
    assert(0 * 0 == 0);
    assert(1 * x == x);
}

/// The cells of a balanced transfer leave no error.
proof fn lemma_balanced_cells(t: TransferWitness, row: Seq<int>)
    requires
        transfer_balanced(t),
        row.len() == 32,
        row.subrange(17, 32) == transfer_cells(t),
    ensures
        debit_error(row) == 0,
        credit_error(row) == 0,
        nonce_error(row) == 0,
        aux_error(row) == 0,
{
    let cells = transfer_cells(t);
    let part = row.subrange(17, 32);
    assert(row[18] == part[1] && row[19] == part[2] && row[20] == part[3] && row[21] == part[4]);
    assert(row[22] == part[5] && row[23] == part[6] && row[24] == part[7] && row[25] == part[8]);
    assert(row[26] == part[9] && row[27] == part[10] && row[28] == part[11]);
    assert(row[29] == part[12] && row[30] == part[13] && row[31] == part[14]);
    let sb = t.sender_bal_before as int;
    let sa = t.sender_bal_after as int;
    let rb = t.receiver_bal_before as int;
    let ra = t.receiver_bal_after as int;
    let am = t.amount as int;
    let fee = t.fee as int;
    lemma_combined(t.sender_bal_before);
    lemma_combined(t.sender_bal_after);
    lemma_combined(t.receiver_bal_before);
    lemma_combined(t.receiver_bal_after);
    lemma_combined(t.amount);
    assert(debit_error(row) == 0) by {
        lemma_residue_sum(sa, sb);
        lemma_residue_sum(sa - sb, am);
        lemma_residue_sum(sa - sb + am, fee);
    }
    assert(credit_error(row) == 0) by {
        lemma_residue_sum(ra, rb);
        lemma_residue_sum(ra - rb, am);
    }
    assert(nonce_error(row) == 0) by {
        lemma_residue_sum(t.sender_nonce_after as int, t.sender_nonce_before as int);
    }
}

/// Every row of the trace of a block whose transfers are balanced meets the block constraints.
#[verifier::spinoff_prover]
#[verifier::rlimit(60)]
pub proof fn law_block_trace_meets_constraints(input: BlockProofInput, r: int)
    requires
        0 <= r,
        r < input.transfers@.len() ==> transfer_fits(input.transfers@[r]) && transfer_balanced(
            input.transfers@[r],
        ),
    ensures
        all_zero(block_constraints(block_row(input, r))),
{
    let row = block_row(input, r);
    let has_transfer = r < input.transfers@.len();
    let has_diff = r < input.state_diffs@.len();
    assert(row.len() == 32);
    assert(row[0] == if has_diff || has_transfer { 1int } else { 0int });
    assert(row[17] == if has_transfer { 1int } else { 0int });
    let out = block_constraints(row);
    if has_transfer {
        assert(row.subrange(17, 32) =~= transfer_cells(input.transfers@[r]));
        lemma_balanced_cells(input.transfers@[r], row);
    }
    assert forall|k: int| 0 <= k < out.len() implies #[trigger] out[k] == 0 by {
        if k < 3 {
            lemma_flags(row[17]);
        } else if k < 19 {
            let x = row[1 + (k - 3)];
            assert(out[k] == masked(row[0], x));
            if has_diff {
                assert(x == limbs(diff_digest(input.state_diffs@[r]))[k - 3]);
            } else {
                assert(x == 0);
            }
            lemma_flags(x);
        } else if k < 23 {
            let x = if k == 19 {
                debit_error(row)
            } else if k == 20 {
                credit_error(row)
            } else if k == 21 {
                nonce_error(row)
            } else {
                aux_error(row)
            };
            assert(out[k] == times(row[17], x));
            lemma_flags(x);
        } else {
            let x = row[18 + (k - 23)];
            assert(out[k] == masked(row[17], x));
            if has_transfer {
                assert(x == transfer_cells(input.transfers@[r])[1 + (k - 23)]);
            } else {
                assert(x == 0);
            }
            lemma_flags(x);
        }
    }
}

/// A row that meets the block constraints and carries a transfer is active, and in the field
/// its sender pays amount and fee, its receiver gets the amount, its nonce goes up by one, and
/// the auxiliary cell is the sender balance afterwards.
pub proof fn law_block_constraints_bind_transfers(row: Seq<int>)
    requires
        row.len() == 32,
        forall|i: int| 0 <= i < 32 ==> 0 <= #[trigger] row[i] < 2147483647,
        all_zero(block_constraints(row)),
        row[17] == 1,
    ensures
        row[0] == 1,
        combined(row[18], row[19]) == residue(
            combined(row[20], row[21]) + combined(row[26], row[27]) + row[30],
        ),
        combined(row[24], row[25]) == residue(
            combined(row[22], row[23]) + combined(row[26], row[27]),
        ),
        row[29] == residue(row[28] + 1),
        row[31] == combined(row[20], row[21]),
{
    let out = block_constraints(row);
    let sb = combined(row[18], row[19]);
    let sa = combined(row[20], row[21]);
    let rb = combined(row[22], row[23]);
    let ra = combined(row[24], row[25]);
    let am = combined(row[26], row[27]);
    assert(out[2] == masked(row[0], row[17]));
    assert(out[19] == times(row[17], debit_error(row)));
    assert(out[20] == times(row[17], credit_error(row)));
    assert(out[21] == times(row[17], nonce_error(row)));
    assert(out[22] == times(row[17], aux_error(row)));
    assert(row[0] == 1) by {
        assert(row[0] * 1 == row[0]);
        lemma_zero_difference(1, row[0]);
    }
    assert(sb == residue(sa + am + row[30])) by {
        lemma_flags(debit_error(row));
        lemma_regrouped(sa - sb, am);
        lemma_regrouped(sa - sb + am, row[30]);
        lemma_mod_negates(sa - sb + am + row[30]);
        lemma_zero_difference(sb, sa + am + row[30]);
    }
    assert(ra == residue(rb + am)) by {
        lemma_flags(credit_error(row));
        lemma_regrouped(ra - rb, -am);
        lemma_zero_difference(ra, rb + am);
    }
    assert(row[29] == residue(row[28] + 1)) by {
        lemma_flags(nonce_error(row));
        lemma_regrouped(row[29] - row[28], -1);
        lemma_zero_difference(row[29], row[28] + 1);
    }
    assert(row[31] == sa) by {
        lemma_flags(aux_error(row));
        lemma_zero_difference(row[31], sa);
    }
}

/// A residue that differs from an integer by a multiple of the modulus is its residue.
proof fn lemma_zero_difference(a: int, b: int)
    requires
        0 <= a < 2147483647,
        residue(a - b) == 0,
    ensures
        a == residue(b),
{
    lemma_fundamental_div_mod(a - b, 2147483647);
    let q = (a - b) / 2147483647;
    assert(b == 2147483647 * (-q) + a) by (nonlinear_arith)
        requires
            a - b == 2147483647 * q,
    ;
    lemma_fundamental_div_mod_converse(b, 2147483647, -q, a);
}

/// Reducing a term of a sum first makes no difference.
proof fn lemma_regrouped(a: int, b: int)
    ensures
        residue(residue(a) + b) == residue(a + b),
{
    lemma_add_mod_noop_right(b, a, 2147483647);
}

/// The negative of a multiple of the modulus is one.
proof fn lemma_mod_negates(a: int)
    requires
        residue(a) == 0,
    ensures
        residue(-a) == 0,
{
    lemma_fundamental_div_mod(a, 2147483647);
    let q = a / 2147483647;
    assert(-a == 2147483647 * (-q) + 0) by (nonlinear_arith)
        requires
            a == 2147483647 * q,
    ;
    lemma_fundamental_div_mod_converse(-a, 2147483647, -q, 0);
}

// ---------------------------------------------------------------------------
// Dense layer trace
// ---------------------------------------------------------------------------

/// A row of a dense layer trace: the active flag, the weight, the input, their product, the sum
/// up to it, and the output on the last input of a neuron. Rows beyond the multiplications are
/// zero.
pub open spec fn dense_stark_row(
    weights: Seq<i64>,
    input: Seq<i64>,
    output: Seq<i64>,
    in_size: int,
    out_size: int,
    r: int,
) -> Seq<int> {
    if r < out_size * in_size {
        let i = r / in_size;
        let j = r % in_size;
        seq![
            1,
            residue(weights[r] as int),
            residue(input[j] as int),
            residue(weights[r] * input[j]),
            residue(inference_proof::dot(weights, input, i * in_size, (j + 1) as nat)),
            if j == in_size - 1 { residue(output[i] as int) } else { 0 },
        ]
    } else {
        zeros(6)
    }
}

/// Generates the trace for a dense layer, with all values reduced into the field.
pub fn generate_dense_stark_trace(
    weights: &[i64],
    input: &[i64],
    output: &[i64],
    in_size: usize,
    out_size: usize,
) -> (cols: Vec<Vec<M31>>)
    requires
        inference_proof::sums_fit(weights@, input@, in_size as nat, out_size as nat),
        out_size * in_size <= usize::MAX / 2 + 1,
        in_size > 0 ==> out_size <= output@.len(),
    ensures
        has_rows(
            cols@,
            DENSE_STARK_COLS as nat,
            pow2(log_size((out_size * in_size) as nat)),
            |r: int|
                dense_stark_row(weights@, input@, output@, in_size as int, out_size as int, r),
        ),
{
    let n_ops: usize = out_size * in_size;
    let log: u32 = compute_log_size(n_ops);
    proof {
        lemma_log_size_fits(n_ops as nat, log as nat);
    }
    let size: usize = trace_rows(log);
    let mut cols: Vec<Vec<M31>> = empty_columns(DENSE_STARK_COLS);
    let ghost rows = |r: int|
        dense_stark_row(weights@, input@, output@, in_size as int, out_size as int, r);
    let mut r: usize = 0;
    let mut i: usize = 0;
    let mut j: usize = 0;
    let mut acc: i64 = 0;
    assert(n_ops > 0 ==> in_size > 0 && out_size > 0) by (nonlinear_arith)
        requires
            n_ops == out_size * in_size,
    ;
    while r < size
        invariant
            r <= size,
            n_ops <= size,
            n_ops == out_size * in_size,
            inference_proof::sums_fit(weights@, input@, in_size as nat, out_size as nat),
            in_size > 0 ==> out_size <= output@.len(),
            rows == (|r: int|
                dense_stark_row(weights@, input@, output@, in_size as int, out_size as int, r)),
            has_rows(cols@, DENSE_STARK_COLS as nat, r as nat, rows),
            r < n_ops ==> {
                &&& i < out_size
                &&& j < in_size
                &&& r == i * in_size + j
                &&& acc == inference_proof::dot(weights@, input@, i * in_size, j as nat)
            },
        decreases size - r,
    {
        if r < n_ops {
            proof {
                inference_proof::lemma_row_inside(
                    i as int,
                    j as int,
                    in_size as nat,
                    out_size as nat,
                );
                assert(inference_proof::step_fits(
                    weights@,
                    input@,
                    in_size as nat,
                    i as int,
                    j as int,
                ));
            }
            let w: i64 = weights[r];
            let x: i64 = input[j];
            let product: i64 = w * x;
            acc = acc + product;
            let out_cell: M31 = if j == in_size - 1 {
                m31_signed(output[i])
            } else {
                M31(0)
            };
            let row: [M31; 6] = [
                M31(1),
                m31_signed(w),
                m31_signed(x),
                m31_signed(product),
                m31_signed(acc),
                out_cell,
            ];
            assert(elems(row@) =~= rows(r as int));
            append_row(&mut cols, &row, Ghost(rows), Ghost(r as nat));
            proof {
                if r + 1 < n_ops && j + 1 == in_size {
                    assert(i + 1 < out_size) by (nonlinear_arith)
                        requires
                            (i + 1) * in_size < out_size * in_size,
                    ;
                }
            }
            if j + 1 == in_size {
                i = i + 1;
                j = 0;
                acc = 0;
            } else {
                j = j + 1;
            }
        } else {
            let row: [M31; 6] = [M31(0);6];
            assert(elems(row@) =~= zeros(6));
            append_row(&mut cols, &row, Ghost(rows), Ghost(r as nat));
        }
        r = r + 1;
    }
    cols
}

/// The values of the constraints on a row of a dense layer trace: the flag is boolean, the
/// product is the product of weight and input, and output and sum are zero on inactive rows.
pub open spec fn dense_constraints(row: Seq<int>) -> Seq<int> {
    seq![
        boolean(row[0]),
        times(row[0], minus(row[3], times(row[1], row[2]))),
        masked(row[0], row[5]),
        masked(row[0], row[4]),
    ]
}

/// Constraints of a dense layer trace.
#[derive(Debug, Clone, Copy)]
pub struct DenseLayerStarkEval {
    /// log2 of the number of rows.
    pub log_size: u32,
}

impl DenseLayerStarkEval {
    /// log2 of the number of rows.
    pub fn log_size(&self) -> (r: u32)
        ensures
            r == self.log_size,
    {
        self.log_size
    }

    /// log2 of the degree bound of the constraints.
    pub fn max_constraint_log_degree_bound(&self) -> (r: u32)
        requires
            self.log_size < u32::MAX,
        ensures
            r == self.log_size + 1,
    {
        self.log_size + 1
    }

    /// The values of the constraints on a row.
    pub fn evaluate(&self, row: &[M31]) -> (r: Vec<M31>)
        requires
            row@.len() == DENSE_STARK_COLS,
            reduced(row@),
        ensures
            elems(r@) == dense_constraints(elems(row@)),
    {
        let mut out: Vec<M31> = Vec::new();
        out.push(m31_boolean(row[0]));
        out.push(m31_mul(row[0], m31_sub(row[3], m31_mul(row[1], row[2]))));
        out.push(m31_masked(row[0], row[5]));
        out.push(m31_masked(row[0], row[4]));
        assert(elems(out@) =~= dense_constraints(elems(row@)));
        out
    }
}

/// Every row of a dense layer trace meets the dense layer constraints.
pub proof fn law_dense_trace_meets_constraints(
    weights: Seq<i64>,
    input: Seq<i64>,
    output: Seq<i64>,
    in_size: int,
    out_size: int,
    r: int,
)
    requires
        0 <= r,
    ensures
        all_zero(
            dense_constraints(dense_stark_row(weights, input, output, in_size, out_size, r)),
        ),
{
    let row = dense_stark_row(weights, input, output, in_size, out_size, r);
    if r < out_size * in_size {
        let w = weights[r] as int;
        let x = input[r % in_size] as int;
        lemma_mul_mod_noop(w, x, 2147483647);
        assert(times(row[1], row[2]) == row[3]);
        lemma_flags(0);
        lemma_flags(row[4]);
        lemma_flags(row[5]);
    } else {
        lemma_flags(0);
        assert(0int * 0int == 0);
        lemma_flags(minus(row[3], times(row[1], row[2])));
    }
}

// ---------------------------------------------------------------------------
// Recursive verifier trace
// ---------------------------------------------------------------------------

/// Input data for the recursive verifier.
#[derive(Debug, Clone)]
pub struct RecursiveVerifierInput {
    /// Hash of each child proof.
    pub child_hashes: Vec<[u8; 32]>,
    /// Start state root of each child proof.
    pub child_start_states: Vec<[u8; 32]>,
    /// End state root of each child proof.
    pub child_end_states: Vec<[u8; 32]>,
    /// Merkle path siblings for each child (one sibling per depth level).
    pub merkle_siblings: Vec<Vec<[u8; 32]>>,
    /// Expected Merkle root over all child hashes.
    pub expected_merkle_root: [u8; 32],
}

/// The sibling that a child's row commits to: the first of its path, or zeros.
pub open spec fn first_sibling(input: RecursiveVerifierInput, r: int) -> Seq<u8> {
    if r < input.merkle_siblings@.len() && input.merkle_siblings@[r]@.len() > 0 {
        input.merkle_siblings@[r]@[0]@
    } else {
        hash::zero_digest()
    }
}

/// Whether the end state of a child is the start state of the next child; the last child has
/// none to meet.
pub open spec fn chain_holds(input: RecursiveVerifierInput, r: int) -> bool {
    r + 1 < input.child_hashes@.len() ==> input.child_end_states@[r]@
        == input.child_start_states@[r + 1]@
}

/// A row of the recursive verifier trace: the active flag, the limbs of the child's hash, start
/// state, end state and Merkle sibling, the sums of hash and sibling limbs, and whether the
/// state chain holds. Rows beyond the children are zero.
pub open spec fn recursive_row(input: RecursiveVerifierInput, r: int) -> Seq<int> {
    if r < input.child_hashes@.len() {
        let hash = limbs(input.child_hashes@[r]@);
        let sibling = limbs(first_sibling(input, r));
        seq![1int] + hash + limbs(input.child_start_states@[r]@) + limbs(
            input.child_end_states@[r]@,
        ) + sibling + Seq::new(16, |k: int| plus(hash[k], sibling[k])) + seq![
            if chain_holds(input, r) { 1int } else { 0int },
        ]
    } else {
        zeros(82)
    }
}

/// Builds a row of the recursive verifier trace.
fn build_recursive_row(input: &RecursiveVerifierInput, r: usize) -> (row: Vec<M31>)
    requires
        input.child_hashes@.len() <= input.child_start_states@.len(),
        input.child_hashes@.len() <= input.child_end_states@.len(),
    ensures
        elems(row@) == recursive_row(*input, r as int),
        row@.len() == 82,
        reduced(row@),
{
    let mut row: Vec<M31> = Vec::new();
    let n: usize = input.child_hashes.len();
    if r >= n {
        push_zeros(&mut row, RECURSIVE_VERIFIER_COLS);
        assert(elems(row@) =~= zeros(82));
        assert(elems(row@).len() == row@.len());
        return row;
    }
    let sibling: [u8; 32] = if r < input.merkle_siblings.len() && input.merkle_siblings[r].len()
        > 0 {
        input.merkle_siblings[r][0]
    } else {
        [0u8;32]
    };
    assert(sibling@ =~= first_sibling(*input, r as int));
    row.push(M31(1));
    assert(elems(row@) =~= seq![1int]);
    push_limbs(&mut row, &input.child_hashes[r]);
    push_limbs(&mut row, &input.child_start_states[r]);
    push_limbs(&mut row, &input.child_end_states[r]);
    push_limbs(&mut row, &sibling);
    let ghost hash = limbs(input.child_hashes@[r as int]@);
    let ghost sib = limbs(sibling@);
    let hash_limbs: [M31; 16] = bytes32_to_m31_limbs(&input.child_hashes[r]);
    let sibling_limbs: [M31; 16] = bytes32_to_m31_limbs(&sibling);
    let ghost before = row@;
    let ghost sums = |m: nat| Seq::new(m, |k: int| plus(hash[k], sib[k]));
    let mut k: usize = 0;
    assert(elems(row@) =~= elems(before) + sums(0));
    while k < 16
        invariant
            k <= 16,
            reduced(row@),
            reduced(hash_limbs@),
            reduced(sibling_limbs@),
            elems(hash_limbs@) == hash,
            elems(sibling_limbs@) == sib,
            sums == (|m: nat| Seq::new(m, |k: int| plus(hash[k], sib[k]))),
            elems(row@) == elems(before) + sums(k as nat),
        decreases 16 - k,
    {
        let ghost prior = row@;
        assert(elems(hash_limbs@)[k as int] == hash_limbs@[k as int].0);
        assert(elems(sibling_limbs@)[k as int] == sibling_limbs@[k as int].0);
        let v: M31 = m31_add(hash_limbs[k], sibling_limbs[k]);
        row.push(v);
        assert(elems(row@) =~= elems(prior).push(v.0 as int));
        assert(sums(k as nat + 1) =~= sums(k as nat).push(v.0 as int));
        k = k + 1;
        assert(elems(row@) =~= elems(before) + sums(k as nat));
    }
    let chain_valid: bool = if r + 1 < n {
        bytes_eq(&input.child_end_states[r], &input.child_start_states[r + 1])
    } else {
        true
    };
    let ghost full = row@;
    row.push(
        M31(
            if chain_valid {
                1
            } else {
                0
            },
        ),
    );
    assert(elems(row@) =~= elems(full) + seq![if chain_valid { 1int } else { 0int }]);
    assert(elems(row@) =~= recursive_row(*input, r as int));
    assert(elems(row@).len() == row@.len());
    row
}

/// Generates the execution trace for the recursive verifier: `RECURSIVE_VERIFIER_COLS` columns
/// of `2^log_size` cells each. Rows beyond that size are dropped.
pub fn generate_recursive_verifier_trace(
    input: &RecursiveVerifierInput,
    log_size: u32,
) -> (cols: Vec<Vec<M31>>)
    requires
        pow2(log_size as nat) <= usize::MAX,
        input.child_hashes@.len() <= input.child_start_states@.len(),
        input.child_hashes@.len() <= input.child_end_states@.len(),
    ensures
        has_rows(
            cols@,
            RECURSIVE_VERIFIER_COLS as nat,
            pow2(log_size as nat),
            |r: int| recursive_row(*input, r),
        ),
{
    let size: usize = trace_rows(log_size);
    let mut cols: Vec<Vec<M31>> = empty_columns(RECURSIVE_VERIFIER_COLS);
    let ghost rows = |r: int| recursive_row(*input, r);
    let mut r: usize = 0;
    while r < size
        invariant
            r <= size,
            size == pow2(log_size as nat),
            has_rows(cols@, RECURSIVE_VERIFIER_COLS as nat, r as nat, rows),
            rows == (|r: int| recursive_row(*input, r)),
            input.child_hashes@.len() <= input.child_start_states@.len(),
            input.child_hashes@.len() <= input.child_end_states@.len(),
        decreases size - r,
    {
        let row: Vec<M31> = build_recursive_row(input, r);
        append_row(&mut cols, row.as_slice(), Ghost(rows), Ghost(r as nat));
        r = r + 1;
    }
    cols
}

/// The values of the constraints on a row of the recursive verifier trace: the two flags are
/// boolean, a valid chain is active, all limbs of inactive rows are zero, and the computed
/// node is the sum of child hash and sibling.
pub open spec fn recursive_constraints(row: Seq<int>) -> Seq<int> {
    let active = row[0];
    let chain_valid = row[81];
    seq![boolean(active), boolean(chain_valid), masked(active, chain_valid)]
        + Seq::new(80, |k: int| masked(active, row[1 + k]))
        + Seq::new(
        16,
        |k: int| times(active, minus(minus(row[65 + k], row[1 + k]), row[49 + k])),
    )
}

/// Constraints of the recursive verifier trace.
#[derive(Debug, Clone, Copy)]
pub struct ArcRecursiveVerifierEval {
    /// log2 of the number of rows.
    pub log_size: u32,
}

impl ArcRecursiveVerifierEval {
    /// log2 of the number of rows.
    pub fn log_size(&self) -> (r: u32)
        ensures
            r == self.log_size,
    {
        self.log_size
    }

    /// log2 of the degree bound of the constraints.
    pub fn max_constraint_log_degree_bound(&self) -> (r: u32)
        requires
            self.log_size < u32::MAX,
        ensures
            r == self.log_size + 1,
    {
        self.log_size + 1
    }

    /// The values of the constraints on a row.
    pub fn evaluate(&self, row: &[M31]) -> (r: Vec<M31>)
        requires
            row@.len() == RECURSIVE_VERIFIER_COLS,
            reduced(row@),
        ensures
            elems(r@) == recursive_constraints(elems(row@)),
    {
        let active: M31 = row[0];
        let chain_valid: M31 = row[81];
        let ghost e = elems(row@);
        let mut out: Vec<M31> = Vec::new();
        out.push(m31_boolean(active));
        out.push(m31_boolean(chain_valid));
        out.push(m31_masked(active, chain_valid));
        assert(elems(out@) =~= seq![boolean(e[0]), boolean(e[81]), masked(e[0], e[81])]);
        push_masked(&mut out, active, row, 1, 80);
        let ghost before = out@;
        let ghost nodes = |m: nat|
            Seq::new(m, |k: int| times(e[0], minus(minus(e[65 + k], e[1 + k]), e[49 + k])));
        let mut k: usize = 0;
        assert(elems(out@) =~= elems(before) + nodes(0));
        while k < 16
            invariant
                k <= 16,
                row@.len() == 82,
                reduced(row@),
                e == elems(row@),
                active == row@[0],
                nodes == (|m: nat|
                    Seq::new(
                        m,
                        |k: int| times(e[0], minus(minus(e[65 + k], e[1 + k]), e[49 + k])),
                    )),
                elems(out@) == elems(before) + nodes(k as nat),
            decreases 16 - k,
        {
            let ghost prior = out@;
            let v: M31 = m31_mul(active, m31_sub(m31_sub(row[65 + k], row[1 + k]), row[49 + k]));
            out.push(v);
            assert(elems(out@) =~= elems(prior).push(v.0 as int));
            assert(nodes(k as nat + 1) =~= nodes(k as nat).push(v.0 as int));
            k = k + 1;
            assert(elems(out@) =~= elems(before) + nodes(k as nat));
        }
        assert(elems(out@) =~= recursive_constraints(e));
        out
    }
}

/// Every row of the recursive verifier trace meets its constraints, whether or not the state
/// chain holds.
pub proof fn law_recursive_trace_meets_constraints(input: RecursiveVerifierInput, r: int)
    requires
        0 <= r,
    ensures
        all_zero(recursive_constraints(recursive_row(input, r))),
{
    let row = recursive_row(input, r);
    let is_active = r < input.child_hashes@.len();
    let hash = limbs(input.child_hashes@[r]@);
    let sibling = limbs(first_sibling(input, r));
    let start = limbs(input.child_start_states@[r]@);
    let end = limbs(input.child_end_states@[r]@);
    assert(row.len() == 82);
    assert(row[0] == if is_active { 1int } else { 0int });
    let out = recursive_constraints(row);
    assert forall|k: int| 0 <= k < out.len() implies #[trigger] out[k] == 0 by {
        if k < 3 {
            lemma_flags(row[81]);
        } else if k < 83 {
            let x = row[1 + (k - 3)];
            assert(out[k] == masked(row[0], x));
            if is_active {
                let c = 1 + (k - 3);
                if c < 17 {
                    assert(x == hash[c - 1]);
                } else if c < 33 {
                    assert(x == start[c - 17]);
                } else if c < 49 {
                    assert(x == end[c - 33]);
                } else if c < 65 {
                    assert(x == sibling[c - 49]);
                } else {
                    assert(x == plus(hash[c - 65], sibling[c - 65]));
                }
                lemma_flags(x);
            } else {
                assert(x == 0);
                lemma_flags(0);
            }
        } else {
            let m = k - 83;
            assert(out[k] == times(row[0], minus(minus(row[65 + m], row[1 + m]), row[49 + m])));
            if is_active {
                assert(row[65 + m] == plus(hash[m], sibling[m]));
                assert(row[1 + m] == hash[m]);
                assert(row[49 + m] == sibling[m]);
                lemma_flags(0);
            } else {
                lemma_flags(minus(minus(row[65 + m], row[1 + m]), row[49 + m]));
            }
        }
    }
}

/// The chain flag of a child is set exactly where its end state is the start state of the next
/// child, limb by limb; the flag of the last child is set.
pub proof fn law_chain_flag_means_continuity(input: RecursiveVerifierInput, r: int)
    requires
        0 <= r < input.child_hashes@.len(),
    ensures
        recursive_row(input, r)[81] == 1 <==> chain_holds(input, r),
        r + 1 < input.child_hashes@.len() ==> (recursive_row(input, r)[81] == 1 <==> forall|k: int|
            0 <= k < 16 ==> #[trigger] recursive_row(input, r)[33 + k] == recursive_row(
                input,
                r + 1,
            )[17 + k]),
{
    let row = recursive_row(input, r);
    assert(row[81] == if chain_holds(input, r) { 1int } else { 0int });
    if r + 1 < input.child_hashes@.len() {
        let next = recursive_row(input, r + 1);
        let end = input.child_end_states@[r]@;
        let start = input.child_start_states@[r + 1]@;
        assert forall|k: int| 0 <= k < 16 implies #[trigger] row[33 + k] == limbs(end)[k] by {}
        assert forall|k: int| 0 <= k < 16 implies #[trigger] next[17 + k] == limbs(start)[k] by {}
        if forall|k: int| 0 <= k < 16 ==> #[trigger] row[33 + k] == next[17 + k] {
            assert forall|k: int| 0 <= k < 16 implies limbs(end)[k] == limbs(start)[k] by {
                assert(row[33 + k] == next[17 + k]);
            }
            assert(limbs(end) =~= limbs(start));
            law_hash_limbs_roundtrip(end);
            law_hash_limbs_roundtrip(start);
        }
    }
}

// ---------------------------------------------------------------------------
// Receipts
// ---------------------------------------------------------------------------

/// The receipt of a STARK proof: its parameters, the roots of its commitments and a hash that
/// binds them to what was proved.
///
/// As bytes: version, log size, number of roots, proof-of-work bits, log blowup factor and
/// number of queries, four bytes each, then the roots and the binding hash, 32 bytes each.
#[derive(Debug, Clone)]
pub struct StwoproofReceipt {
    /// Version of the format.
    pub version: u32,
    /// log2 of the number of trace rows.
    pub log_size: u32,
    /// Proof-of-work bits.
    pub pow_bits: u32,
    /// log2 of the blowup factor.
    pub log_blowup_factor: u32,
    /// Number of queries.
    pub n_queries: u32,
    /// Roots of the commitment trees.
    pub commitment_roots: Vec<[u8; 32]>,
    /// Hash that binds the receipt to what was proved.
    pub binding_hash: [u8; 32],
}

/// The bytes of a receipt.
pub open spec fn receipt_frame(
    version: u32,
    log_size: u32,
    pow_bits: u32,
    log_blowup_factor: u32,
    n_queries: u32,
    n_roots: nat,
    roots: Seq<u8>,
    binding: Seq<u8>,
) -> Seq<u8> {
    encoding::le_bytes(version as nat, 4) + encoding::le_bytes(log_size as nat, 4)
        + encoding::le_bytes((n_roots as u32) as nat, 4) + encoding::le_bytes(pow_bits as nat, 4)
        + encoding::le_bytes(log_blowup_factor as nat, 4) + encoding::le_bytes(
        n_queries as nat,
        4,
    ) + roots + binding
}

/// The bytes of a receipt.
pub open spec fn receipt_bytes(r: StwoproofReceipt) -> Seq<u8> {
    receipt_frame(
        r.version,
        r.log_size,
        r.pow_bits,
        r.log_blowup_factor,
        r.n_queries,
        r.commitment_roots@.len(),
        encoding::joined(r.commitment_roots@, r.commitment_roots@.len()),
        r.binding_hash@,
    )
}

/// The four-byte number at an offset.
pub open spec fn word(data: Seq<u8>, at: int) -> int {
    encoding::le_value(data.subrange(at, at + 4)) as int
}

/// The roots inside the bytes of a receipt.
pub open spec fn root_part(data: Seq<u8>) -> Seq<u8> {
    data.subrange(24, 24 + 32 * word(data, 8))
}

/// The binding hash inside the bytes of a receipt.
pub open spec fn binding_part(data: Seq<u8>) -> Seq<u8> {
    data.subrange(24 + 32 * word(data, 8), 24 + 32 * word(data, 8) + 32)
}

/// Whether bytes hold a receipt of the current version; anything may follow it.
pub open spec fn receipt_parses(data: Seq<u8>) -> bool {
    &&& data.len() >= 24
    &&& word(data, 0) == 1
    &&& data.len() >= 24 + 32 * word(data, 8) + 32
}

/// Whether a receipt is the one that bytes hold.
pub open spec fn is_receipt_in(r: StwoproofReceipt, data: Seq<u8>) -> bool {
    &&& r.version == word(data, 0)
    &&& r.log_size == word(data, 4)
    &&& r.commitment_roots@.len() == word(data, 8)
    &&& r.pow_bits == word(data, 12)
    &&& r.log_blowup_factor == word(data, 16)
    &&& r.n_queries == word(data, 20)
    &&& encoding::joined(r.commitment_roots@, r.commitment_roots@.len()) == root_part(data)
    &&& r.binding_hash@ == binding_part(data)
}

/// What the bytes of a receipt hold.
proof fn lemma_frame(
    version: u32,
    log_size: u32,
    pow_bits: u32,
    log_blowup_factor: u32,
    n_queries: u32,
    n_roots: nat,
    roots: Seq<u8>,
    binding: Seq<u8>,
)
    requires
        n_roots <= u32::MAX,
        roots.len() == 32 * n_roots,
        binding.len() == 32,
    ensures
        ({
            let data = receipt_frame(
                version,
                log_size,
                pow_bits,
                log_blowup_factor,
                n_queries,
                n_roots,
                roots,
                binding,
            );
            &&& data.len() == 24 + 32 * n_roots + 32
            &&& word(data, 0) == version
            &&& word(data, 4) == log_size
            &&& word(data, 8) == n_roots
            &&& word(data, 12) == pow_bits
            &&& word(data, 16) == log_blowup_factor
            &&& word(data, 20) == n_queries
            &&& root_part(data) == roots
            &&& binding_part(data) == binding
        }),
{
    let data = receipt_frame(
        version,
        log_size,
        pow_bits,
        log_blowup_factor,
        n_queries,
        n_roots,
        roots,
        binding,
    );
    encoding::lemma_le_bytes_len(version as nat, 4);
    encoding::lemma_le_bytes_len(log_size as nat, 4);
    encoding::lemma_le_bytes_len((n_roots as u32) as nat, 4);
    encoding::lemma_le_bytes_len(pow_bits as nat, 4);
    encoding::lemma_le_bytes_len(log_blowup_factor as nat, 4);
    encoding::lemma_le_bytes_len(n_queries as nat, 4);
    encoding::lemma_le_u32_roundtrip(version);
    encoding::lemma_le_u32_roundtrip(log_size);
    encoding::lemma_le_u32_roundtrip(n_roots as u32);
    encoding::lemma_le_u32_roundtrip(pow_bits);
    encoding::lemma_le_u32_roundtrip(log_blowup_factor);
    encoding::lemma_le_u32_roundtrip(n_queries);
    assert(data.subrange(0, 4) =~= encoding::le_bytes(version as nat, 4));
    assert(data.subrange(4, 8) =~= encoding::le_bytes(log_size as nat, 4));
    assert(data.subrange(8, 12) =~= encoding::le_bytes((n_roots as u32) as nat, 4));
    assert(data.subrange(12, 16) =~= encoding::le_bytes(pow_bits as nat, 4));
    assert(data.subrange(16, 20) =~= encoding::le_bytes(log_blowup_factor as nat, 4));
    assert(data.subrange(20, 24) =~= encoding::le_bytes(n_queries as nat, 4));
    assert(root_part(data) =~= roots);
    assert(binding_part(data) =~= binding);
}

/// A receipt of the current version is the receipt that its bytes hold.
pub proof fn law_receipt_roundtrip(r: StwoproofReceipt)
    requires
        r.version == PROOF_VERSION,
        r.commitment_roots@.len() <= u32::MAX,
    ensures
        receipt_parses(receipt_bytes(r)),
        is_receipt_in(r, receipt_bytes(r)),
{
    encoding::lemma_joined(r.commitment_roots@, r.commitment_roots@.len());
    lemma_frame(
        r.version,
        r.log_size,
        r.pow_bits,
        r.log_blowup_factor,
        r.n_queries,
        r.commitment_roots@.len(),
        encoding::joined(r.commitment_roots@, r.commitment_roots@.len()),
        r.binding_hash@,
    );
}

/// Bytes hold at most one receipt.
pub proof fn law_receipt_is_single(a: StwoproofReceipt, b: StwoproofReceipt, data: Seq<u8>)
    requires
        is_receipt_in(a, data),
        is_receipt_in(b, data),
    ensures
        receipt_bytes(a) == receipt_bytes(b),
        forall|i: int|
            0 <= i < a.commitment_roots@.len() ==> #[trigger] a.commitment_roots@[i]@
                == b.commitment_roots@[i]@,
{
    let n = a.commitment_roots@.len();
    encoding::lemma_joined(a.commitment_roots@, n);
    encoding::lemma_joined(b.commitment_roots@, n);
    assert forall|i: int| 0 <= i < n implies #[trigger] a.commitment_roots@[i]@
        == b.commitment_roots@[i]@ by {
        assert(encoding::joined(b.commitment_roots@, n).subrange(32 * i, 32 * i + 32)
            == b.commitment_roots@[i]@);
    }
}

/// The four-byte number at an offset.
fn read_word(data: &[u8], at: usize) -> (x: u32)
    requires
        at + 4 <= data@.len(),
    ensures
        x == word(data@, at as int),
{
    assert(data.len() == data@.len());
    read_u32(vstd::slice::slice_subrange(data, at, at + 4))
}

impl StwoproofReceipt {
    /// Serializes the receipt.
    pub fn to_bytes(&self) -> (data: Vec<u8>)
        ensures
            data@ == receipt_bytes(*self),
    {
        let mut data: Vec<u8> = Vec::new();
        push_u32(&mut data, self.version);
        push_u32(&mut data, self.log_size);
        push_u32(&mut data, self.commitment_roots.len() as u32);
        push_u32(&mut data, self.pow_bits);
        push_u32(&mut data, self.log_blowup_factor);
        push_u32(&mut data, self.n_queries);
        push_joined(&mut data, self.commitment_roots.as_slice());
        push_bytes(&mut data, &self.binding_hash);
        assert(data@ =~= receipt_bytes(*self));
        data
    }

    /// Deserializes a receipt of the current version.
    pub fn from_bytes(data: &[u8]) -> (r: Option<Self>)
        ensures
            r is Some == receipt_parses(data@),
            r matches Some(receipt) ==> is_receipt_in(receipt, data@),
    {
        if data.len() < 24 {
            return None;
        }
        let version: u32 = read_word(data, 0);
        if version != PROOF_VERSION {
            return None;
        }
        let log_size: u32 = read_word(data, 4);
        let n_trees: u32 = read_word(data, 8);
        let pow_bits: u32 = read_word(data, 12);
        let log_blowup_factor: u32 = read_word(data, 16);
        let n_queries: u32 = read_word(data, 20);
        let expected_len: u64 = 24 + n_trees as u64 * 32 + 32;
        if (data.len() as u64) < expected_len {
            return None;
        }
        let n: usize = n_trees as usize;
        let mut commitment_roots: Vec<[u8; 32]> = Vec::new();
        let mut i: usize = 0;
        while i < n
            invariant
                i <= n,
                n == word(data@, 8),
                data.len() >= 24 + 32 * n + 32,
                commitment_roots@.len() == i,
                forall|k: int|
                    0 <= k < i ==> #[trigger] commitment_roots@[k]@ == data@.subrange(
                        24 + 32 * k,
                        24 + 32 * k + 32,
                    ),
            decreases n - i,
        {
            let start: usize = 24 + i * 32;
            let piece: &[u8] = vstd::slice::slice_subrange(data, start, start + 32);
            let root: [u8; 32] = first_32(piece);
            assert(root@ =~= data@.subrange(24 + 32 * i, 24 + 32 * i + 32));
            commitment_roots.push(root);
            i = i + 1;
        }
        let binding_start: usize = 24 + n * 32;
        let piece: &[u8] = vstd::slice::slice_subrange(data, binding_start, binding_start + 32);
        let binding_hash: [u8; 32] = first_32(piece);
        assert(binding_hash@ =~= binding_part(data@));
        proof {
            let roots = root_part(data@);
            assert forall|k: int| 0 <= k < n implies #[trigger] commitment_roots@[k]@
                == roots.subrange(32 * k, 32 * k + 32) by {
                assert(roots.subrange(32 * k, 32 * k + 32) =~= data@.subrange(
                    24 + 32 * k,
                    24 + 32 * k + 32,
                ));
            }
            encoding::lemma_joined_pieces(commitment_roots@, n as nat, roots);
        }
        Some(
            StwoproofReceipt {
                version,
                log_size,
                pow_bits,
                log_blowup_factor,
                n_queries,
                commitment_roots,
                binding_hash,
            },
        )
    }
}

// ---------------------------------------------------------------------------
// Proofs
// ---------------------------------------------------------------------------

/// What a STARK prover hands back: the parameters that it ran with and its commitments, each
/// by its printed form.
#[derive(Debug, Clone)]
pub struct StarkCommitments {
    /// Proof-of-work bits.
    pub pow_bits: u32,
    /// log2 of the blowup factor.
    pub log_blowup_factor: u32,
    /// Number of queries.
    pub n_queries: usize,
    /// The commitments, printed.
    pub commitments: Vec<String>,
}

/// The digests of the first `n` printed commitments, one after the other.
pub open spec fn commitment_digests(commitments: Seq<String>, n: nat) -> Seq<u8>
    decreases n,
{
    if n == 0 {
        Seq::empty()
    } else {
        commitment_digests(commitments, (n - 1) as nat) + hash::blake3_digest(
            encoding::text_bytes(commitments[n - 1]@),
        )
    }
}

/// The roots of a receipt.
pub open spec fn root_bytes(c: StarkCommitments) -> Seq<u8> {
    commitment_digests(c.commitments@, c.commitments@.len())
}

/// Hashes the printed commitments.
fn commitment_roots(commitments: &Vec<String>) -> (roots: Vec<[u8; 32]>)
    ensures
        roots@.len() == commitments@.len(),
        encoding::joined(roots@, roots@.len()) == commitment_digests(
            commitments@,
            commitments@.len(),
        ),
{
    let mut roots: Vec<[u8; 32]> = Vec::new();
    let mut i: usize = 0;
    while i < commitments.len()
        invariant
            i <= commitments@.len(),
            roots@.len() == i,
            encoding::joined(roots@, i as nat) == commitment_digests(commitments@, i as nat),
        decreases commitments@.len() - i,
    {
        let ghost before = roots@;
        roots.push(blake3_hash(commitments[i].as_str().as_bytes()));
        proof {
            lemma_joined_prefix(before, roots@, i as nat);
        }
        i = i + 1;
    }
    roots
}

/// What is joined depends on the digests that are joined alone.
proof fn lemma_joined_prefix(a: Seq<[u8; 32]>, b: Seq<[u8; 32]>, n: nat)
    requires
        n <= a.len(),
        n <= b.len(),
        forall|i: int| 0 <= i < n ==> a[i] == b[i],
    ensures
        encoding::joined(a, n) == encoding::joined(b, n),
    decreases n,
{
    if n > 0 {
        lemma_joined_prefix(a, b, (n - 1) as nat);
    }
}

/// The hash that binds the roots of a receipt to a block.
pub open spec fn block_binding(input: BlockProofInput, roots: Seq<u8>) -> Seq<u8> {
    hash::blake3_derived("ARC-stwo-binding-v1"@, block_preimage(input, roots))
}

/// The bytes that bind a receipt to a block: its hash, its state roots and its height, and the
/// commitment roots.
pub open spec fn block_preimage(input: BlockProofInput, roots: Seq<u8>) -> Seq<u8> {
    input.block_hash@ + input.prev_state_root@ + input.post_state_root@ + encoding::le_bytes(
        input.height as nat,
        8,
    ) + roots
}

/// Whether two blocks have the same hash, state roots and height.
pub open spec fn same_block(a: BlockProofInput, b: BlockProofInput) -> bool {
    &&& a.block_hash@ == b.block_hash@
    &&& a.prev_state_root@ == b.prev_state_root@
    &&& a.post_state_root@ == b.post_state_root@
    &&& a.height == b.height
}

/// What is hashed for a block determines its hash, its state roots and its height, and the
/// commitment roots.
pub proof fn law_block_preimage_is_injective(
    a: BlockProofInput,
    b: BlockProofInput,
    roots_a: Seq<u8>,
    roots_b: Seq<u8>,
)
    ensures
        block_preimage(a, roots_a) == block_preimage(b, roots_b) <==> same_block(a, b) && roots_a
            == roots_b,
{
    encoding::law_le_u64_injective(a.height, b.height);
    if block_preimage(a, roots_a) == block_preimage(b, roots_b) {
        let la = encoding::le_bytes(a.height as nat, 8);
        let lb = encoding::le_bytes(b.height as nat, 8);
        let pa = a.block_hash@ + a.prev_state_root@;
        let pb = b.block_hash@ + b.prev_state_root@;
        encoding::lemma_split(
            pa + a.post_state_root@ + la,
            roots_a,
            pb + b.post_state_root@ + lb,
            roots_b,
        );
        encoding::lemma_split(pa + a.post_state_root@, la, pb + b.post_state_root@, lb);
        encoding::lemma_split(pa, a.post_state_root@, pb, b.post_state_root@);
        encoding::lemma_split(a.block_hash@, a.prev_state_root@, b.block_hash@, b.prev_state_root@);
    }
}

/// A receipt binds the whole block: where it verifies for two blocks, they have the same hash,
/// state roots and height, unless the digests of what is hashed for them collide.
pub proof fn law_receipts_bind_their_block(a: BlockProofInput, b: BlockProofInput, data: Seq<u8>)
    requires
        block_proof_valid(a, data),
        block_proof_valid(b, data),
    ensures
        same_block(a, b) || hash::derived_collides(
            "ARC-stwo-binding-v1"@,
            block_preimage(a, root_part(data)),
            block_preimage(b, root_part(data)),
        ),
{
    law_block_preimage_is_injective(a, b, root_part(data), root_part(data));
}

/// The binding of a block to commitment roots belongs to that block and those roots alone, unless
/// the digests of what is hashed for them collide.
pub proof fn law_bindings_bind_block_and_roots(
    a: BlockProofInput,
    b: BlockProofInput,
    roots_a: Seq<u8>,
    roots_b: Seq<u8>,
)
    requires
        block_binding(a, roots_a) == block_binding(b, roots_b),
    ensures
        (same_block(a, b) && roots_a == roots_b) || hash::derived_collides(
            "ARC-stwo-binding-v1"@,
            block_preimage(a, roots_a),
            block_preimage(b, roots_b),
        ),
{
    law_block_preimage_is_injective(a, b, roots_a, roots_b);
}

/// The hash that binds the roots of a receipt to child proofs, given the Merkle root over the
/// child hashes, the hashes, and the state roots before and after each child.
pub open spec fn children_binding(
    merkle_root: Seq<u8>,
    hashes: Seq<[u8; 32]>,
    starts: Seq<[u8; 32]>,
    ends: Seq<[u8; 32]>,
    roots: Seq<u8>,
) -> Seq<u8> {
    hash::blake3_derived(
        "ARC-stwo-recursive-binding-v1"@,
        children_preimage(merkle_root, hashes, starts, ends, roots),
    )
}

/// The bytes that bind children: their Merkle root, their number, their hashes and states, and
/// the commitment roots.
pub open spec fn children_preimage(
    merkle_root: Seq<u8>,
    hashes: Seq<[u8; 32]>,
    starts: Seq<[u8; 32]>,
    ends: Seq<[u8; 32]>,
    roots: Seq<u8>,
) -> Seq<u8> {
    merkle_root + encoding::le_bytes((hashes.len() as u32) as nat, 4) + encoding::joined(
        hashes,
        hashes.len(),
    ) + encoding::joined(starts, starts.len()) + encoding::joined(ends, ends.len()) + roots
}

/// The hash that binds the roots of a receipt to the input of the recursive verifier.
pub open spec fn recursive_binding(input: RecursiveVerifierInput, roots: Seq<u8>) -> Seq<u8> {
    children_binding(
        input.expected_merkle_root@,
        input.child_hashes@,
        input.child_start_states@,
        input.child_end_states@,
        roots,
    )
}

/// The hash that binds the roots of a receipt to the shape of a dense layer.
pub open spec fn dense_binding(
    roots: Seq<u8>,
    log_size: u32,
    in_size: usize,
    out_size: usize,
) -> Seq<u8> {
    hash::blake3_derived("ARC-dense-stark-v1"@, dense_preimage(roots, log_size, in_size, out_size))
}

/// The bytes that bind a dense layer: the commitment roots, the size of the trace and the
/// dimensions.
pub open spec fn dense_preimage(
    roots: Seq<u8>,
    log_size: u32,
    in_size: usize,
    out_size: usize,
) -> Seq<u8> {
    roots + encoding::le_bytes(log_size as nat, 4) + encoding::le_bytes(
        (out_size as u32) as nat,
        4,
    ) + encoding::le_bytes((in_size as u32) as nat, 4)
}

/// Whether bytes hold a receipt that is bound to a block.
pub open spec fn block_proof_valid(input: BlockProofInput, data: Seq<u8>) -> bool {
    receipt_parses(data) && binding_part(data) == block_binding(input, root_part(data))
}

/// Whether bytes hold a receipt that is bound to child proofs.
pub open spec fn recursive_proof_valid(input: RecursiveVerifierInput, data: Seq<u8>) -> bool {
    receipt_parses(data) && binding_part(data) == recursive_binding(input, root_part(data))
}

/// The number of rows that a block fills.
pub open spec fn block_height_rows(input: BlockProofInput) -> nat {
    if input.state_diffs@.len() >= input.transfers@.len() {
        input.state_diffs@.len()
    } else {
        input.transfers@.len()
    }
}

/// The receipt of a proof with the given commitments, as bytes.
pub open spec fn proof_bytes(c: StarkCommitments, log: u32, binding: Seq<u8>) -> Seq<u8> {
    receipt_frame(
        1,
        log,
        c.pow_bits,
        c.log_blowup_factor,
        c.n_queries as u32,
        c.commitments@.len(),
        root_bytes(c),
        binding,
    )
}

/// Computes `block_binding`.
fn bind_block(input: &BlockProofInput, roots: &[[u8; 32]]) -> (r: [u8; 32])
    ensures
        r@ == block_binding(*input, encoding::joined(roots@, roots@.len())),
{
    let mut data: Vec<u8> = Vec::new();
    push_bytes(&mut data, &input.block_hash);
    push_bytes(&mut data, &input.prev_state_root);
    push_bytes(&mut data, &input.post_state_root);
    push_u64(&mut data, input.height);
    push_joined(&mut data, roots);
    assert(data@ =~= input.block_hash@ + input.prev_state_root@ + input.post_state_root@
        + encoding::le_bytes(input.height as nat, 8) + encoding::joined(roots@, roots@.len()));
    blake3_derive("ARC-stwo-binding-v1", data.as_slice())
}

/// Computes `recursive_binding`.
fn bind_recursive(input: &RecursiveVerifierInput, roots: &[[u8; 32]]) -> (r: [u8; 32])
    ensures
        r@ == recursive_binding(*input, encoding::joined(roots@, roots@.len())),
{
    let mut data: Vec<u8> = Vec::new();
    push_bytes(&mut data, &input.expected_merkle_root);
    push_u32(&mut data, input.child_hashes.len() as u32);
    push_joined(&mut data, input.child_hashes.as_slice());
    push_joined(&mut data, input.child_start_states.as_slice());
    push_joined(&mut data, input.child_end_states.as_slice());
    push_joined(&mut data, roots);
    assert(data@ =~= input.expected_merkle_root@ + encoding::le_bytes(
        (input.child_hashes@.len() as u32) as nat,
        4,
    ) + encoding::joined(input.child_hashes@, input.child_hashes@.len()) + encoding::joined(
        input.child_start_states@,
        input.child_start_states@.len(),
    ) + encoding::joined(input.child_end_states@, input.child_end_states@.len())
        + encoding::joined(roots@, roots@.len()));
    blake3_derive("ARC-stwo-recursive-binding-v1", data.as_slice())
}

/// The receipt of a block proof whose commitments the prover has handed back:
/// `(proof_data, proof_size_bytes, proving_time_ms)`.
pub fn prove_block(input: &BlockProofInput, proved: &StarkCommitments, proving_time_ms: u64) -> (r:
    (Vec<u8>, usize, u64))
    ensures
        r.0@ == proof_bytes(
            *proved,
            log_size(block_height_rows(*input)) as u32,
            block_binding(*input, root_bytes(*proved)),
        ),
        r.1 == r.0@.len(),
        r.2 == proving_time_ms,
        proved.commitments@.len() <= u32::MAX ==> block_proof_valid(*input, r.0@),
{
    let n_rows: usize = if input.state_diffs.len() >= input.transfers.len() {
        input.state_diffs.len()
    } else {
        input.transfers.len()
    };
    let log: u32 = compute_log_size(n_rows);
    let roots: Vec<[u8; 32]> = commitment_roots(&proved.commitments);
    let binding_hash: [u8; 32] = bind_block(input, roots.as_slice());
    proof {
        encoding::lemma_joined(roots@, roots@.len());
        if proved.commitments@.len() <= u32::MAX {
            lemma_frame(
                1,
                log,
                proved.pow_bits,
                proved.log_blowup_factor,
                proved.n_queries as u32,
                proved.commitments@.len(),
                root_bytes(*proved),
                binding_hash@,
            );
        }
    }
    let receipt: StwoproofReceipt = StwoproofReceipt {
        version: PROOF_VERSION,
        log_size: log,
        pow_bits: proved.pow_bits,
        log_blowup_factor: proved.log_blowup_factor,
        n_queries: proved.n_queries as u32,
        commitment_roots: roots,
        binding_hash,
    };
    let data: Vec<u8> = receipt.to_bytes();
    let size: usize = data.len();
    (data, size, proving_time_ms)
}

/// Verifies the receipt of a block proof: it must be well-formed and bound to the block.
pub fn verify_block_proof(input: &BlockProofInput, proof_data: &[u8]) -> (r: bool)
    ensures
        r == block_proof_valid(*input, proof_data@),
{
    match StwoproofReceipt::from_bytes(proof_data) {
        Some(receipt) => {
            let expected: [u8; 32] = bind_block(input, receipt.commitment_roots.as_slice());
            bytes_eq(&receipt.binding_hash, &expected)
        },
        None => false,
    }
}

/// The receipt of a recursive proof whose commitments the prover has handed back:
/// `(proof_data, proof_size_bytes, proving_time_ms)`.
pub fn prove_recursive(
    input: &RecursiveVerifierInput,
    proved: &StarkCommitments,
    proving_time_ms: u64,
) -> (r: (Vec<u8>, usize, u64))
    ensures
        r.0@ == proof_bytes(
            *proved,
            log_size(input.child_hashes@.len()) as u32,
            recursive_binding(*input, root_bytes(*proved)),
        ),
        r.1 == r.0@.len(),
        r.2 == proving_time_ms,
        proved.commitments@.len() <= u32::MAX ==> recursive_proof_valid(*input, r.0@),
{
    let log: u32 = compute_log_size(input.child_hashes.len());
    let roots: Vec<[u8; 32]> = commitment_roots(&proved.commitments);
    let binding_hash: [u8; 32] = bind_recursive(input, roots.as_slice());
    proof {
        encoding::lemma_joined(roots@, roots@.len());
        if proved.commitments@.len() <= u32::MAX {
            lemma_frame(
                1,
                log,
                proved.pow_bits,
                proved.log_blowup_factor,
                proved.n_queries as u32,
                proved.commitments@.len(),
                root_bytes(*proved),
                binding_hash@,
            );
        }
    }
    let receipt: StwoproofReceipt = StwoproofReceipt {
        version: PROOF_VERSION,
        log_size: log,
        pow_bits: proved.pow_bits,
        log_blowup_factor: proved.log_blowup_factor,
        n_queries: proved.n_queries as u32,
        commitment_roots: roots,
        binding_hash,
    };
    let data: Vec<u8> = receipt.to_bytes();
    let size: usize = data.len();
    (data, size, proving_time_ms)
}

/// Verifies the receipt of a recursive proof: it must be well-formed and bound to the children.
pub fn verify_recursive_proof(input: &RecursiveVerifierInput, proof_data: &[u8]) -> (r: bool)
    ensures
        r == recursive_proof_valid(*input, proof_data@),
{
    match StwoproofReceipt::from_bytes(proof_data) {
        Some(receipt) => {
            let expected: [u8; 32] = bind_recursive(input, receipt.commitment_roots.as_slice());
            bytes_eq(&receipt.binding_hash, &expected)
        },
        None => false,
    }
}

/// The receipt of a dense layer proof whose commitments the prover has handed back:
/// `(proof_data, proof_size_bytes, proving_time_ms)`.
pub fn prove_dense_stark(
    in_size: usize,
    out_size: usize,
    proved: &StarkCommitments,
    proving_time_ms: u64,
) -> (r: (Vec<u8>, usize, u64))
    requires
        out_size * in_size <= usize::MAX,
    ensures
        r.0@ == proof_bytes(
            *proved,
            log_size((out_size * in_size) as nat) as u32,
            dense_binding(
                root_bytes(*proved),
                log_size((out_size * in_size) as nat) as u32,
                in_size,
                out_size,
            ),
        ),
        r.1 == r.0@.len(),
        r.2 == proving_time_ms,
        proved.commitments@.len() <= u32::MAX ==> receipt_parses(r.0@),
{
    let log: u32 = compute_log_size(out_size * in_size);
    let roots: Vec<[u8; 32]> = commitment_roots(&proved.commitments);
    let mut bound: Vec<u8> = Vec::new();
    push_joined(&mut bound, roots.as_slice());
    push_u32(&mut bound, log);
    push_u32(&mut bound, out_size as u32);
    push_u32(&mut bound, in_size as u32);
    assert(bound@ =~= root_bytes(*proved) + encoding::le_bytes(log as nat, 4)
        + encoding::le_bytes((out_size as u32) as nat, 4) + encoding::le_bytes(
        (in_size as u32) as nat,
        4,
    ));
    let binding_hash: [u8; 32] = blake3_derive("ARC-dense-stark-v1", bound.as_slice());
    proof {
        encoding::lemma_joined(roots@, roots@.len());
        if proved.commitments@.len() <= u32::MAX {
            lemma_frame(
                1,
                log,
                proved.pow_bits,
                proved.log_blowup_factor,
                proved.n_queries as u32,
                proved.commitments@.len(),
                root_bytes(*proved),
                binding_hash@,
            );
        }
    }
    let receipt: StwoproofReceipt = StwoproofReceipt {
        version: PROOF_VERSION,
        log_size: log,
        pow_bits: proved.pow_bits,
        log_blowup_factor: proved.log_blowup_factor,
        n_queries: proved.n_queries as u32,
        commitment_roots: roots,
        binding_hash,
    };
    let data: Vec<u8> = receipt.to_bytes();
    let size: usize = data.len();
    (data, size, proving_time_ms)
}

// ---------------------------------------------------------------------------
// What traces and bindings hold
// ---------------------------------------------------------------------------

/// The row of a block holds the whole transfer: each balance and the amount in two limbs, the
/// nonces and the fee modulo the field, and the sender's new balance modulo the field.
pub proof fn law_block_rows_spell_transfers(input: BlockProofInput, r: int)
    requires
        0 <= r < input.transfers@.len(),
    ensures
        ({
            let row = block_row(input, r);
            let t = input.transfers@[r];
            &&& row.len() == 32
            &&& row[0] == 1
            &&& row[17] == 1
            &&& row[18] + 65536 * row[19] == t.sender_bal_before
            &&& row[20] + 65536 * row[21] == t.sender_bal_after
            &&& row[22] + 65536 * row[23] == t.receiver_bal_before
            &&& row[24] + 65536 * row[25] == t.receiver_bal_after
            &&& row[26] + 65536 * row[27] == t.amount
            &&& 0 <= row[18] < 65536 && 0 <= row[20] < 65536 && 0 <= row[22] < 65536
            &&& 0 <= row[24] < 65536 && 0 <= row[26] < 65536
            &&& row[28] == t.sender_nonce_before as int % 2147483647
            &&& row[29] == t.sender_nonce_after as int % 2147483647
            &&& row[30] == t.fee as int % 2147483647
            &&& row[31] == t.sender_bal_after as int % 2147483647
        }),
{
    let t = input.transfers@[r];
    let row = block_row(input, r);
    let head = seq![1int];
    let diff = if r < input.state_diffs@.len() {
        limbs(diff_digest(input.state_diffs@[r]))
    } else {
        zeros(16)
    };
    assert(row =~= head + diff + transfer_cells(t));
    lemma_combined(t.sender_bal_after);
    assert(row.subrange(17, 32) =~= transfer_cells(t));
    let cells = row.subrange(17, 32);
    assert(row[17] == cells[0]);
    assert(row[18] == cells[1]);
    assert(row[19] == cells[2]);
    assert(row[20] == cells[3]);
    assert(row[21] == cells[4]);
    assert(row[22] == cells[5]);
    assert(row[23] == cells[6]);
    assert(row[24] == cells[7]);
    assert(row[25] == cells[8]);
    assert(row[26] == cells[9]);
    assert(row[27] == cells[10]);
    assert(row[28] == cells[11]);
    assert(row[29] == cells[12]);
    assert(row[30] == cells[13]);
    assert(row[31] == cells[14]);
}

/// The row of a block holds the digest of its state diff in 16-bit limbs, and nothing where there
/// is no diff; it is active where there is a diff or a transfer.
pub proof fn law_block_rows_spell_diffs(input: BlockProofInput, r: int)
    requires
        0 <= r,
        r < input.state_diffs@.len() ==> diff_digest(input.state_diffs@[r]).len() == 32,
    ensures
        ({
            let row = block_row(input, r);
            let has_diff = r < input.state_diffs@.len();
            let has_transfer = r < input.transfers@.len();
            &&& row.len() == 32
            &&& row[0] == if has_diff || has_transfer { 1int } else { 0 }
            &&& row[17] == if has_transfer { 1int } else { 0 }
            &&& has_diff ==> limb_bytes(row.subrange(1, 17)) == diff_digest(input.state_diffs@[r])
            &&& !has_diff ==> forall|k: int| 1 <= k < 17 ==> #[trigger] row[k] == 0
            &&& !has_transfer ==> forall|k: int| 17 <= k < 32 ==> #[trigger] row[k] == 0
        }),
{
    let row = block_row(input, r);
    if r < input.state_diffs@.len() {
        assert(row.subrange(1, 17) =~= limbs(diff_digest(input.state_diffs@[r])));
        law_hash_limbs_roundtrip(diff_digest(input.state_diffs@[r]));
    }
}

/// The digest of a state diff belongs to its address, its old and its new value alone, unless the
/// digests of what is hashed collide.
pub proof fn law_diff_digests_bind_diffs(
    a: ([u8; 32], [u8; 32], [u8; 32]),
    b: ([u8; 32], [u8; 32], [u8; 32]),
)
    requires
        diff_digest(a) == diff_digest(b),
    ensures
        (a.0@ == b.0@ && a.1@ == b.1@ && a.2@ == b.2@) || hash::derived_collides(
            "ARC-stwo-state-diff-v1"@,
            a.0@ + a.1@ + a.2@,
            b.0@ + b.1@ + b.2@,
        ),
{
    if a.0@ + a.1@ + a.2@ == b.0@ + b.1@ + b.2@ {
        encoding::lemma_split(a.0@ + a.1@, a.2@, b.0@ + b.1@, b.2@);
        encoding::lemma_split(a.0@, a.1@, b.0@, b.1@);
    }
}

/// The row of a child holds its hash, its states and its sibling in 16-bit limbs.
pub proof fn law_recursive_rows_spell_children(input: RecursiveVerifierInput, r: int)
    requires
        0 <= r < input.child_hashes@.len(),
        first_sibling(input, r).len() == 32,
    ensures
        ({
            let row = recursive_row(input, r);
            &&& row.len() == 82
            &&& row[0] == 1
            &&& limb_bytes(row.subrange(1, 17)) == input.child_hashes@[r]@
            &&& limb_bytes(row.subrange(17, 33)) == input.child_start_states@[r]@
            &&& limb_bytes(row.subrange(33, 49)) == input.child_end_states@[r]@
            &&& limb_bytes(row.subrange(49, 65)) == first_sibling(input, r)
            &&& forall|k: int|
                0 <= k < 16 ==> #[trigger] row[65 + k] == (row[1 + k] + row[49 + k]) % 2147483647
        }),
{
    let row = recursive_row(input, r);
    assert(row.subrange(1, 17) =~= limbs(input.child_hashes@[r]@));
    assert(row.subrange(17, 33) =~= limbs(input.child_start_states@[r]@));
    assert(row.subrange(33, 49) =~= limbs(input.child_end_states@[r]@));
    assert(row.subrange(49, 65) =~= limbs(first_sibling(input, r)));
    law_hash_limbs_roundtrip(input.child_hashes@[r]@);
    law_hash_limbs_roundtrip(input.child_start_states@[r]@);
    law_hash_limbs_roundtrip(input.child_end_states@[r]@);
    law_hash_limbs_roundtrip(first_sibling(input, r));
    assert forall|k: int| 0 <= k < 16 implies #[trigger] row[65 + k] == (row[1 + k] + row[49 + k])
        % 2147483647 by {
        assert(row[1 + k] == limbs(input.child_hashes@[r]@)[k]);
        assert(row[49 + k] == limbs(first_sibling(input, r))[k]);
    }
}

/// The sibling of a child is the first one that was given for it, or all zeros.
pub proof fn law_first_sibling(input: RecursiveVerifierInput, r: int)
    requires
        0 <= r,
    ensures
        first_sibling(input, r).len() == 32,
        r < input.merkle_siblings@.len() && input.merkle_siblings@[r]@.len() > 0 ==> first_sibling(
            input,
            r,
        ) == input.merkle_siblings@[r]@[0]@,
        r >= input.merkle_siblings@.len() || input.merkle_siblings@[r]@.len() == 0 ==> forall|i: int|
            0 <= i < 32 ==> #[trigger] first_sibling(input, r)[i] == 0,
{
}

/// The rows of a dense layer hold each weight with its input, their product, the running sum of
/// the products of its neuron, and at the end of a neuron its output, all modulo the field.
pub proof fn law_dense_rows_accumulate(
    weights: Seq<i64>,
    input: Seq<i64>,
    output: Seq<i64>,
    in_size: int,
    out_size: int,
    i: int,
    j: int,
)
    requires
        0 <= i < out_size,
        0 <= j < in_size,
    ensures
        ({
            let r = i * in_size + j;
            let row = dense_stark_row(weights, input, output, in_size, out_size, r);
            &&& row.len() == 6
            &&& row[0] == 1
            &&& row[1] == weights[r] as int % 2147483647
            &&& row[2] == input[j] as int % 2147483647
            &&& row[3] == (weights[r] * input[j]) % 2147483647
            &&& j == 0 ==> row[4] == row[3]
            &&& j > 0 ==> row[4] == (dense_stark_row(
                weights,
                input,
                output,
                in_size,
                out_size,
                r - 1,
            )[4] + row[3]) % 2147483647
            &&& row[5] == if j == in_size - 1 { output[i] as int % 2147483647 } else { 0 }
        }),
{
    let r = i * in_size + j;
    assert(i * in_size + in_size <= out_size * in_size) by (nonlinear_arith)
        requires
            0 <= i < out_size,
            0 <= j < in_size,
    ;
    assert(i * in_size >= 0) by (nonlinear_arith)
        requires
            0 <= i,
            0 <= in_size,
    ;
    vstd::arithmetic::div_mod::lemma_fundamental_div_mod_converse(r, in_size, i, j);
    let base = i * in_size;
    if j == 0 {
        assert(inference_proof::dot(weights, input, base, 0) == 0);
        assert(inference_proof::dot(weights, input, base, 1) == weights[base] * input[0]);
    } else {
        vstd::arithmetic::div_mod::lemma_fundamental_div_mod_converse(r - 1, in_size, i, j - 1);
        let before = inference_proof::dot(weights, input, base, j as nat);
        assert(inference_proof::dot(weights, input, base, (j + 1) as nat) == before + weights[base
            + j] * input[j]);
        lemma_residue_sum(before, weights[r] * input[j]);
    }
}

/// Whether two recursive inputs are about the same children.
pub open spec fn same_children(a: RecursiveVerifierInput, b: RecursiveVerifierInput) -> bool {
    &&& a.expected_merkle_root@ == b.expected_merkle_root@
    &&& a.child_hashes@.len() == b.child_hashes@.len()
    &&& forall|i: int|
        0 <= i < a.child_hashes@.len() ==> {
            &&& (#[trigger] a.child_hashes@[i])@ == b.child_hashes@[i]@
            &&& a.child_start_states@[i]@ == b.child_start_states@[i]@
            &&& a.child_end_states@[i]@ == b.child_end_states@[i]@
        }
}

/// The binding of children belongs to their Merkle root, their hashes and states and the
/// commitment roots alone, unless the digests of what is hashed collide.
pub proof fn law_recursive_bindings_bind_children(
    a: RecursiveVerifierInput,
    b: RecursiveVerifierInput,
    roots_a: Seq<u8>,
    roots_b: Seq<u8>,
)
    requires
        a.child_hashes@.len() <= u32::MAX,
        b.child_hashes@.len() <= u32::MAX,
        a.child_start_states@.len() == a.child_hashes@.len(),
        b.child_start_states@.len() == b.child_hashes@.len(),
        a.child_end_states@.len() == a.child_hashes@.len(),
        b.child_end_states@.len() == b.child_hashes@.len(),
        recursive_binding(a, roots_a) == recursive_binding(b, roots_b),
    ensures
        (same_children(a, b) && roots_a == roots_b) || hash::derived_collides(
            "ARC-stwo-recursive-binding-v1"@,
            children_preimage(
                a.expected_merkle_root@,
                a.child_hashes@,
                a.child_start_states@,
                a.child_end_states@,
                roots_a,
            ),
            children_preimage(
                b.expected_merkle_root@,
                b.child_hashes@,
                b.child_start_states@,
                b.child_end_states@,
                roots_b,
            ),
        ),
{
    let pa = children_preimage(
        a.expected_merkle_root@,
        a.child_hashes@,
        a.child_start_states@,
        a.child_end_states@,
        roots_a,
    );
    let pb = children_preimage(
        b.expected_merkle_root@,
        b.child_hashes@,
        b.child_start_states@,
        b.child_end_states@,
        roots_b,
    );
    if pa == pb {
        let na = a.child_hashes@.len();
        let nb = b.child_hashes@.len();
        encoding::law_le_u32_injective(na as u32, nb as u32);
        let ca = encoding::le_bytes((na as u32) as nat, 4);
        let cb = encoding::le_bytes((nb as u32) as nat, 4);
        let ha = encoding::joined(a.child_hashes@, na);
        let hb = encoding::joined(b.child_hashes@, nb);
        let sa = encoding::joined(a.child_start_states@, na);
        let sb = encoding::joined(b.child_start_states@, nb);
        let ea = encoding::joined(a.child_end_states@, na);
        let eb = encoding::joined(b.child_end_states@, nb);
        let ma = a.expected_merkle_root@;
        let mb = b.expected_merkle_root@;
        assert(pa =~= (ma + ca) + (ha + sa + ea + roots_a));
        assert(pb =~= (mb + cb) + (hb + sb + eb + roots_b));
        encoding::lemma_split(ma + ca, ha + sa + ea + roots_a, mb + cb, hb + sb + eb + roots_b);
        encoding::lemma_split(ma, ca, mb, cb);
        assert(na == nb);
        encoding::lemma_joined(a.child_hashes@, na);
        encoding::lemma_joined(b.child_hashes@, nb);
        encoding::lemma_joined(a.child_start_states@, na);
        encoding::lemma_joined(b.child_start_states@, nb);
        encoding::lemma_joined(a.child_end_states@, na);
        encoding::lemma_joined(b.child_end_states@, nb);
        encoding::lemma_split(ha + sa + ea, roots_a, hb + sb + eb, roots_b);
        encoding::lemma_split(ha + sa, ea, hb + sb, eb);
        encoding::lemma_split(ha, sa, hb, sb);
        encoding::law_joined_injective(a.child_hashes@, b.child_hashes@);
        encoding::law_joined_injective(a.child_start_states@, b.child_start_states@);
        encoding::law_joined_injective(a.child_end_states@, b.child_end_states@);
        assert forall|i: int| 0 <= i < na implies {
            &&& (#[trigger] a.child_hashes@[i])@ == b.child_hashes@[i]@
            &&& a.child_start_states@[i]@ == b.child_start_states@[i]@
            &&& a.child_end_states@[i]@ == b.child_end_states@[i]@
        } by {}
    }
}

/// The binding of a dense layer belongs to the commitment roots, the size of the trace and the
/// low words of the dimensions alone, unless the digests of what is hashed collide.
pub proof fn law_dense_bindings_bind_dimensions(
    roots_a: Seq<u8>,
    log_a: u32,
    in_a: usize,
    out_a: usize,
    roots_b: Seq<u8>,
    log_b: u32,
    in_b: usize,
    out_b: usize,
)
    requires
        dense_binding(roots_a, log_a, in_a, out_a) == dense_binding(roots_b, log_b, in_b, out_b),
    ensures
        (roots_a == roots_b && log_a == log_b && in_a as u32 == in_b as u32 && out_a as u32
            == out_b as u32) || hash::derived_collides(
            "ARC-dense-stark-v1"@,
            dense_preimage(roots_a, log_a, in_a, out_a),
            dense_preimage(roots_b, log_b, in_b, out_b),
        ),
{
    if dense_preimage(roots_a, log_a, in_a, out_a) == dense_preimage(roots_b, log_b, in_b, out_b) {
        encoding::law_le_u32_injective(log_a, log_b);
        encoding::law_le_u32_injective(in_a as u32, in_b as u32);
        encoding::law_le_u32_injective(out_a as u32, out_b as u32);
        let la = encoding::le_bytes(log_a as nat, 4);
        let lb = encoding::le_bytes(log_b as nat, 4);
        let oa = encoding::le_bytes((out_a as u32) as nat, 4);
        let ob = encoding::le_bytes((out_b as u32) as nat, 4);
        let ia = encoding::le_bytes((in_a as u32) as nat, 4);
        let ib = encoding::le_bytes((in_b as u32) as nat, 4);
        assert((roots_a + la + oa + ia).len() == roots_a.len() + 12);
        assert((roots_b + lb + ob + ib).len() == roots_b.len() + 12);
        encoding::lemma_split(roots_a + la + oa, ia, roots_b + lb + ob, ib);
        encoding::lemma_split(roots_a + la, oa, roots_b + lb, ob);
        encoding::lemma_split(roots_a, la, roots_b, lb);
    }
}

/// The commitment roots are the digests of the printed commitments, one after the other.
pub proof fn law_roots_are_commitment_digests(commitments: Seq<String>, n: nat)
    requires
        n <= commitments.len(),
        forall|i: int|
            0 <= i < n ==> hash::blake3_digest(
                encoding::text_bytes((#[trigger] commitments[i])@),
            ).len() == 32,
    ensures
        commitment_digests(commitments, n).len() == 32 * n,
        forall|i: int|
            0 <= i < n ==> commitment_digests(commitments, n).subrange(32 * i, 32 * i + 32)
                == hash::blake3_digest(encoding::text_bytes((#[trigger] commitments[i])@)),
    decreases n,
{
    if n > 0 {
        let before = commitment_digests(commitments, (n - 1) as nat);
        let all = commitment_digests(commitments, n);
        law_roots_are_commitment_digests(commitments, (n - 1) as nat);
        assert(hash::blake3_digest(encoding::text_bytes(commitments[n - 1]@)).len() == 32);
        assert forall|i: int| 0 <= i < n implies all.subrange(32 * i, 32 * i + 32)
            == hash::blake3_digest(encoding::text_bytes((#[trigger] commitments[i])@)) by {
            if i < n - 1 {
                assert(all.subrange(32 * i, 32 * i + 32) =~= before.subrange(32 * i, 32 * i + 32));
            } else {
                assert(all.subrange(32 * i, 32 * i + 32) =~= hash::blake3_digest(
                    encoding::text_bytes(commitments[n - 1]@),
                ));
            }
        }
    }
}

/// A proof reads back as what the prover handed over: its parameters, the size of its trace, the
/// commitment roots and the binding.
pub proof fn law_proofs_read_back(c: StarkCommitments, log: u32, binding: Seq<u8>)
    requires
        c.commitments@.len() <= u32::MAX,
        root_bytes(c).len() == 32 * c.commitments@.len(),
        binding.len() == 32,
    ensures
        ({
            let data = proof_bytes(c, log, binding);
            &&& receipt_parses(data)
            &&& data.len() == 56 + 32 * c.commitments@.len()
            &&& encoding::le_value(data.subrange(4, 8)) == log
            &&& encoding::le_value(data.subrange(8, 12)) == c.commitments@.len()
            &&& encoding::le_value(data.subrange(12, 16)) == c.pow_bits
            &&& encoding::le_value(data.subrange(16, 20)) == c.log_blowup_factor
            &&& encoding::le_value(data.subrange(20, 24)) == c.n_queries as u32
            &&& root_part(data) == root_bytes(c)
            &&& binding_part(data) == binding
        }),
{
    lemma_frame(
        1,
        log,
        c.pow_bits,
        c.log_blowup_factor,
        c.n_queries as u32,
        c.commitments@.len(),
        root_bytes(c),
        binding,
    );
    let data = proof_bytes(c, log, binding);
    assert(word(data, 4) == log && word(data, 8) == c.commitments@.len() && word(data, 12)
        == c.pow_bits && word(data, 16) == c.log_blowup_factor && word(data, 20)
        == c.n_queries as u32);
}

/// The trace of a block has a row for every state diff and every transfer.
pub proof fn law_block_traces_hold_every_row(input: BlockProofInput)
    ensures
        block_height_rows(input) >= input.state_diffs@.len(),
        block_height_rows(input) >= input.transfers@.len(),
        block_height_rows(input) == input.state_diffs@.len() || block_height_rows(input)
            == input.transfers@.len(),
{
}

/// A row that meets the constraints of a block has flags that are zero or one, holds nothing where it
/// is not active, and holds no transfer where its transfer flag is zero.
pub proof fn law_block_constraints_clear_unused_cells(row: Seq<int>, k: int)
    requires
        row.len() == 32,
        forall|i: int| 0 <= i < 32 ==> 0 <= #[trigger] row[i] < 2147483647,
        all_zero(block_constraints(row)),
    ensures
        block_constraints(row).len() == 37,
        (row[0] * row[0] - row[0]) % 2147483647 == 0,
        (row[17] * row[17] - row[17]) % 2147483647 == 0,
        row[0] == 0 && 1 <= k <= 17 ==> row[k] == 0,
        row[17] == 0 && 18 <= k < 32 ==> row[k] == 0,
{
    let c = block_constraints(row);
    assert(c[0] == boolean(row[0]));
    assert(c[1] == boolean(row[17]));
    assert(c[2] == masked(row[0], row[17]));
    lemma_boolean(row[0]);
    lemma_boolean(row[17]);
    if 1 <= k <= 16 {
        assert(c[2 + k] == masked(row[0], row[k]));
        lemma_unmasked(row[k]);
    } else if k == 17 {
        lemma_unmasked(row[17]);
    } else if 18 <= k < 32 {
        assert(c[5 + k] == masked(row[17], row[k]));
        lemma_unmasked(row[k]);
    }
}

proof fn lemma_boolean(x: int)
    ensures
        boolean(x) == (x * x - x) % 2147483647,
{
    let q = x * x;
    assert((q % 2147483647 - x) % 2147483647 == (q - x) % 2147483647);
}

proof fn lemma_unmasked(x: int)
    requires
        0 <= x < 2147483647,
    ensures
        masked(0, x) == x,
{
    assert(0 * x == 0);
}

/// A row that meets the constraints of a dense layer has a flag that is zero or one, the product of
/// its weight and input where the flag is one, and no sum and no output where it is zero.
pub proof fn law_dense_constraints_bind_products(row: Seq<int>)
    requires
        row.len() == 6,
        forall|i: int| 0 <= i < 6 ==> 0 <= #[trigger] row[i] < 2147483647,
        all_zero(dense_constraints(row)),
    ensures
        (row[0] * row[0] - row[0]) % 2147483647 == 0,
        row[0] == 1 ==> row[3] == (row[1] * row[2]) % 2147483647,
        row[0] == 0 ==> row[4] == 0 && row[5] == 0,
{
    let c = dense_constraints(row);
    assert(c[0] == 0 && c[1] == 0 && c[2] == 0 && c[3] == 0);
    lemma_boolean(row[0]);
    lemma_unmasked(row[4]);
    lemma_unmasked(row[5]);
    if row[0] == 1 {
        let d = minus(row[3], times(row[1], row[2]));
        assert(1 * d == d);
        lemma_zero_difference(row[3], times(row[1], row[2]));
    }
}

/// A row that meets the constraints of recursive verification has flags that are zero or one, holds
/// the sums of hash and sibling where it is active, and nothing where it is not.
pub proof fn law_recursive_constraints_bind_siblings(row: Seq<int>, k: int)
    requires
        row.len() == 82,
        forall|i: int| 0 <= i < 82 ==> 0 <= #[trigger] row[i] < 2147483647,
        all_zero(recursive_constraints(row)),
        0 <= k,
    ensures
        recursive_constraints(row).len() == 99,
        (row[0] * row[0] - row[0]) % 2147483647 == 0,
        (row[81] * row[81] - row[81]) % 2147483647 == 0,
        row[0] == 1 && k < 16 ==> row[65 + k] == (row[1 + k] + row[49 + k]) % 2147483647,
        row[0] == 0 && k < 82 ==> row[k] == 0,
{
    let c = recursive_constraints(row);
    assert(c[0] == boolean(row[0]));
    assert(c[1] == boolean(row[81]));
    assert(c[2] == masked(row[0], row[81]));
    lemma_boolean(row[0]);
    lemma_boolean(row[81]);
    lemma_unmasked(row[81]);
    if 1 <= k <= 80 {
        assert(c[2 + k] == masked(row[0], row[k]));
        lemma_unmasked(row[k]);
    }
    if row[0] == 1 && k < 16 {
        let d = minus(minus(row[65 + k], row[1 + k]), row[49 + k]);
        assert(c[83 + k] == times(row[0], d));
        assert(1 * d == d);
        let x = row[65 + k];
        let y = row[1 + k];
        let z = row[49 + k];
        assert(residue(residue(x - y) - z) == residue(x - (y + z)));
        lemma_zero_difference(x, y + z);
    }
}

/// A receipt binds all children: where it verifies for two recursive inputs, they are about the same
/// children, unless the digests of what is hashed for them collide.
pub proof fn law_receipts_bind_their_children(
    a: RecursiveVerifierInput,
    b: RecursiveVerifierInput,
    data: Seq<u8>,
)
    requires
        a.child_hashes@.len() <= u32::MAX,
        b.child_hashes@.len() <= u32::MAX,
        a.child_start_states@.len() == a.child_hashes@.len(),
        b.child_start_states@.len() == b.child_hashes@.len(),
        a.child_end_states@.len() == a.child_hashes@.len(),
        b.child_end_states@.len() == b.child_hashes@.len(),
        recursive_proof_valid(a, data),
        recursive_proof_valid(b, data),
    ensures
        same_children(a, b) || hash::derived_collides(
            "ARC-stwo-recursive-binding-v1"@,
            children_preimage(
                a.expected_merkle_root@,
                a.child_hashes@,
                a.child_start_states@,
                a.child_end_states@,
                root_part(data),
            ),
            children_preimage(
                b.expected_merkle_root@,
                b.child_hashes@,
                b.child_start_states@,
                b.child_end_states@,
                root_part(data),
            ),
        ),
{
    law_recursive_bindings_bind_children(a, b, root_part(data), root_part(data));
}

/// The receipt that data parses as stands at its beginning, byte for byte; data parses exactly where
/// it has the version and is long enough for its header, its roots and its binding.
pub proof fn law_parsed_receipts_stand_in_the_data(r: StwoproofReceipt, data: Seq<u8>)
    requires
        receipt_parses(data),
        is_receipt_in(r, data),
    ensures
        receipt_bytes(r).len() <= data.len(),
        data.take(receipt_bytes(r).len() as int) == receipt_bytes(r),
        r.version == 1,
        data.len() >= 56 + 32 * r.commitment_roots@.len(),
{
    let n = r.commitment_roots@.len();
    let joined = encoding::joined(r.commitment_roots@, n);
    encoding::lemma_joined(r.commitment_roots@, n);
    lemma_word_bytes(data, 0, r.version as nat);
    lemma_word_bytes(data, 4, r.log_size as nat);
    lemma_word_bytes(data, 8, n);
    encoding::lemma_le_value(data.subrange(8, 12));
    encoding::lemma_pow_256_values();
    lemma_word_bytes(data, 12, r.pow_bits as nat);
    lemma_word_bytes(data, 16, r.log_blowup_factor as nat);
    lemma_word_bytes(data, 20, r.n_queries as nat);
    assert(data.take(56 + 32 * (n as int)) =~= data.subrange(0, 4) + data.subrange(4, 8)
        + data.subrange(8, 12) + data.subrange(12, 16) + data.subrange(16, 20) + data.subrange(
        20,
        24,
    ) + data.subrange(24, 24 + 32 * (n as int)) + data.subrange(
        24 + 32 * (n as int),
        56 + 32 * (n as int),
    ));
    assert(receipt_bytes(r) == data.take(56 + 32 * (n as int)));
}

proof fn lemma_word_bytes(data: Seq<u8>, at: int, x: nat)
    requires
        0 <= at <= data.len() - 4,
        word(data, at) == x,
    ensures
        encoding::le_bytes(x, 4) == data.subrange(at, at + 4),
{
    encoding::lemma_le_value(data.subrange(at, at + 4));
}

} // verus!
