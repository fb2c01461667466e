//! Threshold signature scheme for ARC Chain.
//!
//! A (t, n) threshold scheme splits a secret into n shares such that any t shares can reconstruct
//! the secret. Shares are values of a polynomial of degree t - 1 over the field of residues modulo
//! the Mersenne prime 2^61 - 1 whose value at zero is the secret; recovery is Lagrange
//! interpolation at zero. Secrets are mapped to field elements by their first 8 bytes. Partial
//! signatures are combined by a Lagrange-weighted exclusive or, which is hashed.
//!
//! The module also holds the authenticated encryption whose per-slot key the committee derives
//! from its aggregated BLS signatures.

use vstd::prelude::*;
use vstd::arithmetic::power::*;

use crate::bls;
use crate::bls::{aggregate_signatures, BlsError, BlsSignature};
use crate::encoding;
use crate::encoding::{
    bytes_eq, copy_bytes, first_32, push_bytes, push_u32, push_u64, read_u64, text_vec,
};
use crate::field;
use crate::hash;
use crate::hash::{blake3_derive, blake3_hash, blake3_keyed_hash};
use crate::lagrange;

pub use crate::field::{
    field_add, field_inv, field_mul, field_pow, field_sub, mod_mersenne, MERSENNE_P,
};

verus! {

// ---------------------------------------------------------------------------
// Types
// ---------------------------------------------------------------------------

/// Why a threshold operation fails.
#[derive(Clone, Debug, PartialEq, Eq)]
pub enum ThresholdError {
    InsufficientShares { needed: u32, got: u32 },
    InvalidShare(u32),
    DuplicateIndex(u32),
    InterpolationError(String),
}

/// Configuration for a (threshold, total_shares) scheme.
#[derive(Clone, Debug)]
pub struct ThresholdScheme {
    /// Minimum number of shares required to reconstruct (t).
    pub threshold: u32,
    /// Total number of shares distributed (n).
    pub total_shares: u32,
    /// Optional dealer identity (32-byte public key or identifier).
    pub dealer: Option<[u8; 32]>,
}

/// A single secret share produced by Shamir splitting.
#[derive(Clone, Debug)]
pub struct SecretShare {
    /// Share index (1-based, never 0 since f(0) = secret).
    pub index: u32,
    /// 32-byte share value. The first 8 bytes encode the field element f(index).
    /// Remaining bytes are a BLAKE3 expansion for full 32-byte width.
    pub value: [u8; 32],
    /// BLAKE3 commitment to the share value.
    pub commitment: [u8; 32],
}

/// Proof that a share is valid relative to dealer commitments.
#[derive(Clone, Debug)]
pub struct ShareVerification {
    pub index: u32,
    pub commitment: [u8; 32],
    pub proof_data: Vec<u8>,
}

/// A partial signature produced by one threshold signer.
#[derive(Clone, Debug)]
pub struct PartialSignature {
    pub signer_index: u32,
    pub signature: Vec<u8>,
    pub proof_data: Vec<u8>,
}

/// A threshold signature assembled from partial signatures.
#[derive(Clone, Debug)]
pub struct ThresholdSignature {
    pub signers: Vec<u32>,
    pub partial_sigs: Vec<PartialSignature>,
    pub combined: Option<[u8; 32]>,
}

impl ThresholdError {
    /// The error as a sentence.
    pub fn message(&self) -> (s: String)
        ensures
            s@ == match *self {
                ThresholdError::InsufficientShares { needed, got } => {
                    "insufficient shares: need "@ + encoding::decimal(needed as nat) + ", got "@
                        + encoding::decimal(got as nat)
                },
                ThresholdError::InvalidShare(i) => {
                    "invalid share at index "@ + encoding::decimal(i as nat)
                },
                ThresholdError::DuplicateIndex(i) => {
                    "duplicate share index "@ + encoding::decimal(i as nat)
                },
                ThresholdError::InterpolationError(text) => { "interpolation error: "@ + text@ },
            },
    {
        match self {
            ThresholdError::InsufficientShares { needed, got } => {
                let a: String = encoding::decimal_text(*needed as u64);
                let b: String = encoding::decimal_text(*got as u64);
                let s: String = "insufficient shares: need ".to_owned();
                s.concat(a.as_str()).concat(", got ").concat(b.as_str())
            },
            ThresholdError::InvalidShare(i) => {
                let a: String = encoding::decimal_text(*i as u64);
                "invalid share at index ".to_owned().concat(a.as_str())
            },
            ThresholdError::DuplicateIndex(i) => {
                let a: String = encoding::decimal_text(*i as u64);
                "duplicate share index ".to_owned().concat(a.as_str())
            },
            ThresholdError::InterpolationError(text) => {
                "interpolation error: ".to_owned().concat(text.as_str())
            },
        }
    }
}

// ---------------------------------------------------------------------------
// Field elements as bytes
// ---------------------------------------------------------------------------

/// The field element that the first 8 bytes of a string encode.
pub open spec fn field_of(b: Seq<u8>) -> int {
    encoding::le_value(b.subrange(0, 8)) as int % field::p()
}

/// The 32 bytes that stand for a field element: its little-endian form and the first 24 bytes of
/// that form's hash.
pub open spec fn field_bytes(v: int) -> Seq<u8> {
    encoding::le_bytes(v as nat, 8) + hash::blake3_digest(
        encoding::le_bytes(v as nat, 8),
    ).subrange(0, 24)
}

/// Convert first 8 bytes of a 32-byte array to a field element.
pub fn bytes_to_field(b: &[u8; 32]) -> (r: u64)
    ensures
        r == field_of(b@),
{
    let bytes: &[u8] = b;
    let raw: u64 = read_u64(vstd::slice::slice_subrange(bytes, 0, 8));
    mod_mersenne(raw as u128)
}

/// Convert a field element to a 32-byte array (first 8 bytes = LE encoding,
/// remaining 24 bytes = BLAKE3 expansion for uniqueness).
pub fn field_to_bytes(val: u64) -> (out: [u8; 32])
    ensures
        out@ == field_bytes(val as int),
{
    let mut buf: Vec<u8> = Vec::new();
    push_u64(&mut buf, val);
    proof {
        encoding::lemma_le_bytes_len(val as nat, 8);
        assert(buf@ =~= encoding::le_bytes(val as nat, 8));
    }
    let expansion: [u8; 32] = blake3_hash(&buf);
    let expansion_bytes: &[u8] = &expansion;
    push_bytes(&mut buf, vstd::slice::slice_subrange(expansion_bytes, 0, 24));
    assert(buf@ =~= buf@.subrange(0, 32));
    first_32(&buf)
}

/// A field element survives the way to bytes and back.
pub proof fn lemma_field_bytes_roundtrip(v: int)
    requires
        0 <= v < field::p(),
    ensures
        field_of(field_bytes(v)) == v,
{
    encoding::lemma_le_u64_roundtrip(v as u64);
    assert(field_bytes(v).subrange(0, 8) =~= encoding::le_bytes(v as nat, 8));
}

/// The commitment to a share value.
pub open spec fn share_commitment(value: Seq<u8>) -> Seq<u8> {
    hash::blake3_digest(encoding::text_bytes("arc-threshold-commitment"@) + value)
}

/// Derive a commitment for a share value.
pub fn commit_share(value: &[u8; 32]) -> (out: [u8; 32])
    ensures
        out@ == share_commitment(value@),
{
    let mut input: Vec<u8> = text_vec("arc-threshold-commitment");
    push_bytes(&mut input, value);
    blake3_hash(&input)
}

// ---------------------------------------------------------------------------
// Polynomials
// ---------------------------------------------------------------------------

/// Machine integers as mathematical ones.
pub open spec fn ints(s: Seq<u64>) -> Seq<int> {
    s.map_values(|x: u64| x as int)
}

/// Evaluate a polynomial with the given coefficients at point x.
/// coeffs[0] + coeffs[1]*x + coeffs[2]*x^2 + ...
pub fn eval_polynomial(coeffs: &[u64], x: u64) -> (r: u64)
    ensures
        r == lagrange::poly(ints(coeffs@), x as int) % field::p(),
{
    let ghost c = ints(coeffs@);
    let mut result: u64 = 0;
    let mut i: usize = coeffs.len();
    assert(c.skip(i as int) =~= Seq::<int>::empty());
    while i > 0
        invariant
            i <= coeffs.len(),
            c == ints(coeffs@),
            c.len() == coeffs.len(),
            result == lagrange::poly(c.skip(i as int), x as int) % field::p(),
        decreases i,
    {
        let ghost tail = c.skip(i as int);
        let ghost before = result as int;
        i = i - 1;
        let product: u64 = field_mul(result, x);
        result = field_add(product, coeffs[i]);
        proof {
            let whole = c.skip(i as int);
            assert(whole.drop_first() =~= tail);
            let v = lagrange::poly(tail, x as int);
            field::lemma_congruent_mul(before, v, x as int, x as int);
            assert(v * x == x * v) by (nonlinear_arith);
            field::lemma_congruent_add(
                product as int,
                x * v,
                coeffs@[i as int] as int,
                coeffs@[i as int] as int,
            );
        }
    }
    assert(c.skip(0) =~= c);
    result
}

/// The numerator and the denominator of a Lagrange basis value at zero.
fn basis_parts(xs: &[u64], i: usize) -> (r: (u64, u64))
    requires
        i < xs.len(),
        forall|k: int| 0 <= k < xs.len() ==> xs@[k] < field::p(),
    ensures
        r.0 == lagrange::vanish(0, ints(xs@).remove(i as int)) % field::p(),
        r.1 == lagrange::vanish(xs@[i as int] as int, ints(xs@).remove(i as int)) % field::p(),
{
    let ghost all = ints(xs@);
    let ghost rest = all.remove(i as int);
    let x_i: u64 = xs[i];
    let mut numerator: u64 = 1;
    let mut denominator: u64 = 1;
    let mut j: usize = 0;
    let ghost mut seen: int = 0;
    assert(rest.take(0) =~= Seq::<int>::empty());
    while j < xs.len()
        invariant
            i < xs.len(),
            j <= xs.len(),
            all == ints(xs@),
            rest == all.remove(i as int),
            rest.len() == xs.len() - 1,
            x_i == xs@[i as int],
            seen == if j <= i {
                j as int
            } else {
                j - 1
            },
            forall|k: int| 0 <= k < xs.len() ==> xs@[k] < field::p(),
            numerator == lagrange::vanish(0, rest.take(seen)) % field::p(),
            denominator == lagrange::vanish(x_i as int, rest.take(seen)) % field::p(),
        decreases xs.len() - j,
    {
        if j != i {
            let x_j: u64 = xs[j];
            let ghost n0 = numerator as int;
            let ghost d0 = denominator as int;
            let minus: u64 = field_sub(0, x_j);
            let apart: u64 = field_sub(x_i, x_j);
            numerator = field_mul(numerator, minus);
            denominator = field_mul(denominator, apart);
            proof {
                let part = rest.take(seen + 1);
                assert(rest[seen] == x_j);
                assert(part.drop_last() =~= rest.take(seen));
                assert(part.last() == x_j);
                field::lemma_congruent_mod(0 - x_j);
                field::lemma_congruent_mod(x_i - x_j);
                field::lemma_congruent_mul(
                    n0,
                    lagrange::vanish(0, rest.take(seen)),
                    minus as int,
                    0 - x_j,
                );
                field::lemma_congruent_mul(
                    d0,
                    lagrange::vanish(x_i as int, rest.take(seen)),
                    apart as int,
                    x_i - x_j,
                );
                seen = seen + 1;
            }
        }
        j = j + 1;
    }
    assert(rest.take(seen) =~= rest);
    (numerator, denominator)
}

/// The first coordinates of points.
pub open spec fn abscissae(points: Seq<(u64, u64)>) -> Seq<int> {
    Seq::new(points.len(), |i: int| points[i].0 as int)
}

/// The second coordinates of points.
pub open spec fn ordinates(points: Seq<(u64, u64)>) -> Seq<int> {
    Seq::new(points.len(), |i: int| points[i].1 as int)
}

/// A basis value, from its parts.
proof fn lemma_basis_value(xs: Seq<int>, i: int, numerator: int, denominator: int, inv: int)
    requires
        0 <= i < xs.len(),
        numerator == lagrange::vanish(0, xs.remove(i)) % field::p(),
        denominator == lagrange::vanish(xs[i], xs.remove(i)) % field::p(),
        inv == field::inverse(denominator) % field::p(),
    ensures
        field::congruent(numerator * inv, lagrange::basis(xs, i)),
{
    let v = lagrange::vanish(xs[i], xs.remove(i));
    field::lemma_congruent_pow(denominator, v, 2305843009213693949);
    field::lemma_congruent_mul(
        numerator,
        lagrange::vanish(0, xs.remove(i)),
        inv,
        field::inverse(v),
    );
}

/// Whether two members at different places are congruent.
pub open spec fn has_repeat(xs: Seq<int>) -> bool {
    !lagrange::distinct(xs)
}

proof fn lemma_zero_denominator(xs: Seq<int>, i: int)
    requires
        0 <= i < xs.len(),
        lagrange::vanish(xs[i], xs.remove(i)) % field::p() == 0,
    ensures
        has_repeat(xs),
{
    let rest = xs.remove(i);
    lagrange::lemma_vanish_zero(xs[i], rest);
    let j = choose|j: int| 0 <= j < rest.len() && field::congruent(xs[i], #[trigger] rest[j]);
    let k = if j < i {
        j
    } else {
        j + 1
    };
    assert(xs[k] == rest[j]);
}

proof fn lemma_repeat_denominator(xs: Seq<int>)
    requires
        forall|i: int|
            0 <= i < xs.len() ==> lagrange::vanish(#[trigger] xs[i], xs.remove(i)) % field::p()
                != 0,
    ensures
        !has_repeat(xs),
{
    assert forall|i: int, j: int|
        0 <= i < xs.len() && 0 <= j < xs.len() && i != j implies !field::congruent(
        #[trigger] xs[i],
        #[trigger] xs[j],
    ) by {
        if field::congruent(xs[i], xs[j]) {
            let rest = xs.remove(i);
            let k = if j < i {
                j
            } else {
                j - 1
            };
            assert(rest[k] == xs[j]);
            lagrange::lemma_vanish_zero(xs[i], rest);
        }
    }
}

/// Lagrange interpolation to recover f(0) from a set of (x_i, y_i) points with reduced x_i.
pub fn lagrange_interpolate_at_zero(points: &[(u64, u64)]) -> (r: Result<u64, ThresholdError>)
    requires
        forall|k: int| 0 <= k < points.len() ==> (#[trigger] points@[k]).0 < field::p(),
    ensures
        match r {
            Ok(v) => {
                &&& !has_repeat(abscissae(points@))
                &&& v == lagrange::interpolated(abscissae(points@), ordinates(points@))
                    % field::p()
            },
            Err(e) => {
                &&& has_repeat(abscissae(points@))
                &&& e matches ThresholdError::InterpolationError(text)
                &&& text@ == "zero denominator in Lagrange basis"@
            },
        },
{
    let ghost ax = abscissae(points@);
    let ghost ay = ordinates(points@);
    let mut xs: Vec<u64> = Vec::new();
    let mut k: usize = 0;
    while k < points.len()
        invariant
            k <= points.len(),
            xs.len() == k,
            forall|m: int| 0 <= m < k ==> xs@[m] == (#[trigger] points@[m]).0,
        decreases points.len() - k,
    {
        xs.push(points[k].0);
        k = k + 1;
    }
    assert(ints(xs@) =~= ax);
    assert forall|m: int| 0 <= m < xs.len() implies xs@[m] < field::p() by {
        assert(xs@[m] == points@[m].0);
    }
    let mut result: u64 = 0;
    let mut i: usize = 0;
    let ghost t = lagrange::terms(ax, ay);
    assert(t.take(0) =~= Seq::<int>::empty());
    while i < points.len()
        invariant
            i <= points.len(),
            xs.len() == points.len(),
            ax == abscissae(points@),
            ay == ordinates(points@),
            ints(xs@) == ax,
            t == lagrange::terms(ax, ay),
            forall|m: int| 0 <= m < xs.len() ==> xs@[m] < field::p(),
            result == lagrange::total(t.take(i as int)) % field::p(),
            forall|m: int|
                0 <= m < i ==> lagrange::vanish(#[trigger] ax[m], ax.remove(m)) % field::p() != 0,
        decreases points.len() - i,
    {
        let y_i: u64 = points[i].1;
        let (numerator, denominator) = basis_parts(&xs, i);
        assert(ax[i as int] == xs@[i as int]);
        if denominator == 0 {
            proof {
                lemma_zero_denominator(ax, i as int);
            }
            return Err(
                ThresholdError::InterpolationError("zero denominator in Lagrange basis".to_owned()),
            );
        }
        let inv: u64 = field_inv(denominator);
        let basis: u64 = field_mul(numerator, inv);
        let term: u64 = field_mul(y_i, basis);
        let ghost before = result as int;
        result = field_add(result, term);
        proof {
            lemma_basis_value(
                ax,
                i as int,
                numerator as int,
                denominator as int,
                inv as int,
            );
            let b = lagrange::basis(ax, i as int);
            field::lemma_congruent_mul(y_i as int, y_i as int, basis as int, b);
            assert(t[i as int] == y_i * b);
            let part = t.take(i + 1);
            assert(part.drop_last() =~= t.take(i as int));
            assert(part.last() == t[i as int]);
            field::lemma_congruent_add(
                before,
                lagrange::total(t.take(i as int)),
                term as int,
                t[i as int],
            );
        }
        i = i + 1;
    }
    proof {
        assert(t.take(i as int) =~= t);
        lemma_repeat_denominator(ax);
    }
    Ok(result)
}

// ---------------------------------------------------------------------------
// Key generation (Shamir Secret Sharing)
// ---------------------------------------------------------------------------

/// The state from which the coefficient of degree `i` is taken: the secret itself, then a chain
/// of hashes.
pub open spec fn coefficient_state(secret: Seq<u8>, i: nat) -> Seq<u8>
    decreases i,
{
    if i == 0 {
        secret
    } else {
        hash::blake3_digest(link_input(coefficient_state(secret, (i - 1) as nat), i))
    }
}

/// What the `i`th link of the chain of coefficients hashes: the link before it and its number.
pub open spec fn link_input(before: Seq<u8>, i: nat) -> Seq<u8> {
    encoding::text_bytes("arc-threshold-poly-coeff"@) + before + encoding::le_bytes(i, 4)
}

/// The coefficients of the sharing polynomial, the secret first.
pub open spec fn coefficients(secret: Seq<u8>, threshold: nat) -> Seq<int> {
    Seq::new(threshold, |i: int| field_of(coefficient_state(secret, i as nat)))
}

/// Whether `share` is the share of `secret` with the index it bears.
pub open spec fn is_share_of(share: SecretShare, secret: Seq<u8>, threshold: nat) -> bool {
    &&& share.value@ == field_bytes(
        lagrange::poly(coefficients(secret, threshold), share.index as int) % field::p(),
    )
    &&& share.commitment@ == share_commitment(share.value@)
}

/// The indices of shares.
pub open spec fn share_indices(shares: Seq<SecretShare>) -> Seq<u32> {
    Seq::new(shares.len(), |i: int| shares[i].index)
}

/// Whether the entry at `k` occurred before.
pub open spec fn repeats_at(indices: Seq<u32>, k: int) -> bool {
    exists|j: int| 0 <= j < k && #[trigger] indices[j] == indices[k]
}

/// Whether `k` is the first place whose entry occurred before.
pub open spec fn first_repeat_at(indices: Seq<u32>, k: int) -> bool {
    &&& 0 <= k < indices.len()
    &&& repeats_at(indices, k)
    &&& forall|i: int| 0 <= i < k ==> !#[trigger] repeats_at(indices, i)
}

/// Whether no entry occurs twice.
pub open spec fn no_repeat(indices: Seq<u32>) -> bool {
    forall|i: int| 0 <= i < indices.len() ==> !#[trigger] repeats_at(indices, i)
}

/// The first place whose entry occurred before.
fn find_repeat(indices: &[u32]) -> (r: Option<usize>)
    ensures
        match r {
            Some(k) => first_repeat_at(indices@, k as int),
            None => no_repeat(indices@),
        },
{
    let mut k: usize = 0;
    while k < indices.len()
        invariant
            k <= indices.len(),
            forall|i: int| 0 <= i < k ==> !#[trigger] repeats_at(indices@, i),
        decreases indices.len() - k,
    {
        let mut j: usize = 0;
        while j < k
            invariant
                j <= k < indices.len(),
                forall|i: int| 0 <= i < k ==> !#[trigger] repeats_at(indices@, i),
                forall|i: int| 0 <= i < j ==> #[trigger] indices@[i] != indices@[k as int],
            decreases k - j,
        {
            if indices[j] == indices[k] {
                assert(repeats_at(indices@, k as int));
                return Some(k);
            }
            j = j + 1;
        }
        k = k + 1;
    }
    None
}

/// The interpolation points that the first `threshold` shares give.
pub open spec fn share_abscissae(shares: Seq<SecretShare>, threshold: nat) -> Seq<int> {
    Seq::new(threshold, |i: int| shares[i].index as int)
}

pub open spec fn share_ordinates(shares: Seq<SecretShare>, threshold: nat) -> Seq<int> {
    Seq::new(threshold, |i: int| field_of(shares[i].value@))
}

/// The bytes that the first `threshold` shares recover.
pub open spec fn recovered(shares: Seq<SecretShare>, threshold: nat) -> Seq<u8> {
    field_bytes(
        lagrange::interpolated(
            share_abscissae(shares, threshold),
            share_ordinates(shares, threshold),
        ) % field::p(),
    )
}

proof fn lemma_indices_distinct(indices: Seq<u32>, xs: Seq<int>)
    requires
        no_repeat(indices),
        xs.len() <= indices.len(),
        forall|i: int| 0 <= i < xs.len() ==> #[trigger] xs[i] == indices[i],
    ensures
        lagrange::distinct(xs),
{
    assert forall|i: int, j: int|
        0 <= i < xs.len() && 0 <= j < xs.len() && i != j implies !field::congruent(
        #[trigger] xs[i],
        #[trigger] xs[j],
    ) by {
        if field::congruent(xs[i], xs[j]) {
            assert(xs[i] == indices[i] && xs[j] == indices[j]);
            assert(indices[i] == indices[j]);
            if i < j {
                assert(repeats_at(indices, j));
            } else {
                assert(repeats_at(indices, i));
            }
        }
    }
}

/// Functions for generating and recovering threshold shares.
pub struct KeyGeneration;

impl KeyGeneration {
    /// Split a 32-byte secret into `total` shares with the given `threshold`.
    ///
    /// Uses a degree-(threshold-1) polynomial f(x) where f(0) = secret.
    /// Each share i (1..=total) is (i, f(i) mod p).
    pub fn generate_shares(secret: &[u8; 32], threshold: u32, total: u32) -> (shares: Vec<
        SecretShare,
    >)
        requires
            threshold >= 1,
            total >= threshold,
        ensures
            shares.len() == total,
            forall|i: int|
                0 <= i < total ==> {
                    &&& (#[trigger] shares@[i]).index == i + 1
                    &&& is_share_of(shares@[i], secret@, threshold as nat)
                },
    {
        let mut coeffs: Vec<u64> = Vec::new();
        coeffs.push(bytes_to_field(secret));
        let mut rng_state: [u8; 32] = *secret;
        let mut i: u32 = 1;
        while i < threshold
            invariant
                1 <= i <= threshold,
                coeffs.len() == i,
                rng_state@ == coefficient_state(secret@, (i - 1) as nat),
                forall|k: int|
                    0 <= k < i ==> #[trigger] coeffs@[k] == field_of(
                        coefficient_state(secret@, k as nat),
                    ),
            decreases threshold - i,
        {
            let mut input: Vec<u8> = text_vec("arc-threshold-poly-coeff");
            push_bytes(&mut input, &rng_state);
            push_u32(&mut input, i);
            rng_state = blake3_hash(&input);
            coeffs.push(bytes_to_field(&rng_state));
            i = i + 1;
        }
        assert(ints(coeffs@) =~= coefficients(secret@, threshold as nat));
        let mut shares: Vec<SecretShare> = Vec::new();
        let mut done: u32 = 0;
        while done < total
            invariant
                done <= total,
                shares.len() == done,
                ints(coeffs@) == coefficients(secret@, threshold as nat),
                forall|i: int|
                    0 <= i < done ==> {
                        &&& (#[trigger] shares@[i]).index == i + 1
                        &&& is_share_of(shares@[i], secret@, threshold as nat)
                    },
            decreases total - done,
        {
            let x: u32 = done + 1;
            let x_field: u64 = mod_mersenne(x as u128);
            let y: u64 = eval_polynomial(&coeffs, x_field);
            let value: [u8; 32] = field_to_bytes(y);
            let commitment: [u8; 32] = commit_share(&value);
            shares.push(SecretShare { index: x, value, commitment });
            done = done + 1;
        }
        shares
    }

    /// Recover the secret from at least `threshold` shares via Lagrange interpolation.
    pub fn recover_secret(shares: &[SecretShare], threshold: u32) -> (r: Result<
        [u8; 32],
        ThresholdError,
    >)
        ensures
            match r {
                Ok(out) => {
                    &&& shares.len() >= threshold
                    &&& no_repeat(share_indices(shares@))
                    &&& out@ == recovered(shares@, threshold as nat)
                },
                Err(ThresholdError::InsufficientShares { needed, got }) => {
                    &&& shares.len() < threshold
                    &&& needed == threshold
                    &&& got == shares.len()
                },
                Err(ThresholdError::DuplicateIndex(d)) => {
                    &&& shares.len() >= threshold
                    &&& exists|k: int|
                        first_repeat_at(share_indices(shares@), k)
                            && #[trigger] share_indices(shares@)[k] == d
                },
                Err(_) => false,
            },
    {
        if shares.len() < threshold as usize {
            return Err(
                ThresholdError::InsufficientShares { needed: threshold, got: shares.len() as u32 },
            );
        }
        let mut indices: Vec<u32> = Vec::new();
        let mut k: usize = 0;
        while k < shares.len()
            invariant
                k <= shares.len(),
                indices.len() == k,
                forall|m: int| 0 <= m < k ==> indices@[m] == (#[trigger] shares@[m]).index,
            decreases shares.len() - k,
        {
            indices.push(shares[k].index);
            k = k + 1;
        }
        assert(indices@ =~= share_indices(shares@));
        if let Some(at) = find_repeat(&indices) {
            assert(share_indices(shares@)[at as int] == indices@[at as int]);
            return Err(ThresholdError::DuplicateIndex(indices[at]));
        }
        let mut points: Vec<(u64, u64)> = Vec::new();
        let mut i: usize = 0;
        while i < threshold as usize
            invariant
                i <= threshold <= shares.len(),
                points.len() == i,
                forall|m: int|
                    0 <= m < i ==> {
                        &&& (#[trigger] points@[m]).0 == shares@[m].index
                        &&& points@[m].1 == field_of(shares@[m].value@)
                    },
            decreases threshold - i,
        {
            let share: &SecretShare = &shares[i];
            let x: u64 = mod_mersenne(share.index as u128);
            let y: u64 = bytes_to_field(&share.value);
            points.push((x, y));
            i = i + 1;
        }
        proof {
            assert(abscissae(points@) =~= share_abscissae(shares@, threshold as nat));
            assert(ordinates(points@) =~= share_ordinates(shares@, threshold as nat));
            lemma_indices_distinct(
                share_indices(shares@),
                share_abscissae(shares@, threshold as nat),
            );
        }
        match lagrange_interpolate_at_zero(&points) {
            Ok(secret_field) => Ok(field_to_bytes(secret_field)),
            Err(e) => Err(e),
        }
    }

    /// Verify a share against its commitment.
    pub fn verify_share(share: &SecretShare, commitments: &[[u8; 32]]) -> (r: bool)
        ensures
            r == (1 <= share.index <= commitments.len() && share_commitment(share.value@)
                == commitments@[share.index - 1]@),
    {
        if share.index == 0 || share.index as usize > commitments.len() {
            return false;
        }
        let expected: [u8; 32] = commit_share(&share.value);
        bytes_eq(&expected, &commitments[share.index as usize - 1])
    }
}

/// The first coefficient of the sharing polynomial is its value at zero.
proof fn lemma_value_at_zero(c: Seq<int>)
    requires
        c.len() > 0,
    ensures
        lagrange::poly(c, 0) == c[0],
{
    assert(0 * lagrange::poly(c.drop_first(), 0) == 0) by (nonlinear_arith);
}

/// Any `threshold` shares of a secret, at different indices and in any order, recover the field
/// element that the secret maps to.
pub proof fn law_threshold_shares_recover_the_secret(
    secret: Seq<u8>,
    threshold: nat,
    shares: Seq<SecretShare>,
)
    requires
        threshold >= 1,
        shares.len() >= threshold,
        no_repeat(share_indices(shares)),
        forall|i: int|
            0 <= i < threshold ==> is_share_of(#[trigger] shares[i], secret, threshold),
    ensures
        recovered(shares, threshold) == field_bytes(field_of(secret)),
        field_of(recovered(shares, threshold)) == field_of(secret),
{
    let c = coefficients(secret, threshold);
    let xs = share_abscissae(shares, threshold);
    let ys = share_ordinates(shares, threshold);
    lemma_indices_distinct(share_indices(shares), xs);
    assert forall|i: int| 0 <= i < xs.len() implies field::congruent(
        #[trigger] ys[i],
        lagrange::poly(c, xs[i]),
    ) by {
        assert(is_share_of(shares[i], secret, threshold));
        lemma_field_bytes_roundtrip(lagrange::poly(c, xs[i]) % field::p());
    }
    lagrange::lemma_interpolation(xs, ys, c);
    lemma_value_at_zero(c);
    assert(c[0] == field_of(secret));
    lemma_field_bytes_roundtrip(field_of(secret));
}

/// Every generated share passes verification against the generated commitments.
pub proof fn law_generated_shares_verify(
    shares: Seq<SecretShare>,
    secret: Seq<u8>,
    threshold: nat,
    i: int,
)
    requires
        0 <= i < shares.len(),
        shares[i].index == i + 1,
        is_share_of(shares[i], secret, threshold),
    ensures
        share_commitment(shares[i].value@) == shares[shares[i].index - 1].commitment@,
{
}

// ---------------------------------------------------------------------------
// Threshold signer
// ---------------------------------------------------------------------------

/// A signer in a threshold scheme. Holds one share and can produce partial signatures.
pub struct ThresholdSigner {
    pub scheme: ThresholdScheme,
    pub my_share: SecretShare,
}

/// The partial signature of a message under a share value.
pub open spec fn partial_digest(value: Seq<u8>, message: Seq<u8>) -> Seq<u8> {
    hash::blake3_digest(partial_input(value, message))
}

/// What a partial signature hashes: the share's value and the message.
pub open spec fn partial_input(value: Seq<u8>, message: Seq<u8>) -> Seq<u8> {
    encoding::text_bytes("arc-threshold-partial-sig"@) + value + message
}

/// The proof of knowledge that goes with a partial signature.
pub open spec fn partial_proof(commitment: Seq<u8>, signature: Seq<u8>) -> Seq<u8> {
    hash::blake3_digest(partial_proof_input(commitment, signature))
}

/// What the proof of a partial signature hashes: the share's commitment and the signature.
pub open spec fn partial_proof_input(commitment: Seq<u8>, signature: Seq<u8>) -> Seq<u8> {
    encoding::text_bytes("arc-threshold-sig-proof"@) + commitment + signature
}

/// The signer indices of partial signatures.
pub open spec fn signer_indices(partials: Seq<PartialSignature>) -> Seq<u32> {
    Seq::new(partials.len(), |i: int| partials[i].signer_index)
}

/// The signer indices as interpolation points.
pub open spec fn signer_points(partials: Seq<PartialSignature>) -> Seq<int> {
    Seq::new(partials.len(), |i: int| partials[i].signer_index as int)
}

/// What one partial signature contributes: the hash of its Lagrange weight and its bytes.
pub open spec fn contribution(partials: Seq<PartialSignature>, i: int) -> Seq<u8> {
    hash::blake3_digest(
        contribution_input(
            lagrange::basis(signer_points(partials), i) % field::p(),
            partials[i].signature@,
        ),
    )
}

/// What a contribution hashes: the weight of the signer and the partial signature.
pub open spec fn contribution_input(weight: int, signature: Seq<u8>) -> Seq<u8> {
    encoding::le_bytes(weight as nat, 8) + signature
}

/// The exclusive or of the contributions of the first `n` partial signatures.
pub open spec fn contributions(partials: Seq<PartialSignature>, n: nat) -> Seq<u8>
    decreases n,
{
    if n == 0 {
        hash::zero_digest()
    } else {
        xored(contributions(partials, (n - 1) as nat), contribution(partials, n - 1))
    }
}

/// The combined signature: the hash of the exclusive or of all contributions.
pub open spec fn combined_digest(partials: Seq<PartialSignature>) -> Seq<u8> {
    hash::blake3_digest(
        encoding::text_bytes("arc-threshold-combine"@) + contributions(
            partials,
            partials.len(),
        ),
    )
}

impl ThresholdSigner {
    /// Create a new threshold signer with the given scheme and share.
    pub fn new(scheme: ThresholdScheme, my_share: SecretShare) -> (signer: Self)
        ensures
            signer.scheme == scheme,
            signer.my_share == my_share,
    {
        ThresholdSigner { scheme, my_share }
    }

    /// Produce a partial signature on a message using this signer's share.
    ///
    /// The partial signature is `BLAKE3(share_value || message)`.
    pub fn partial_sign(&self, message: &[u8]) -> (r: PartialSignature)
        ensures
            r.signer_index == self.my_share.index,
            r.signature@ == partial_digest(self.my_share.value@, message@),
            r.proof_data@ == partial_proof(self.my_share.commitment@, r.signature@),
    {
        let mut input: Vec<u8> = text_vec("arc-threshold-partial-sig");
        push_bytes(&mut input, &self.my_share.value);
        push_bytes(&mut input, message);
        let sig: [u8; 32] = blake3_hash(&input);
        let mut proof_input: Vec<u8> = text_vec("arc-threshold-sig-proof");
        push_bytes(&mut proof_input, &self.my_share.commitment);
        push_bytes(&mut proof_input, &sig);
        let knowledge: [u8; 32] = blake3_hash(&proof_input);
        PartialSignature {
            signer_index: self.my_share.index,
            signature: copy_bytes(&sig),
            proof_data: copy_bytes(&knowledge),
        }
    }

    /// Combine partial signatures from at least `threshold` signers into
    /// a single 32-byte threshold signature.
    ///
    /// Uses Lagrange-weighted combination: each partial signature is weighted
    /// by its Lagrange basis polynomial evaluated at 0. The weighted signatures
    /// are combined by exclusive or, and the result is hashed.
    pub fn combine_partials(&self, partials: &[PartialSignature]) -> (r: Result<
        [u8; 32],
        ThresholdError,
    >)
        ensures
            match r {
                Ok(out) => {
                    &&& partials.len() >= self.scheme.threshold
                    &&& no_repeat(signer_indices(partials@))
                    &&& out@ == combined_digest(partials@)
                },
                Err(ThresholdError::InsufficientShares { needed, got }) => {
                    &&& partials.len() < self.scheme.threshold
                    &&& needed == self.scheme.threshold
                    &&& got == partials.len()
                },
                Err(ThresholdError::DuplicateIndex(d)) => {
                    &&& partials.len() >= self.scheme.threshold
                    &&& exists|k: int|
                        first_repeat_at(signer_indices(partials@), k)
                            && #[trigger] signer_indices(partials@)[k] == d
                },
                Err(_) => false,
            },
    {
        if partials.len() < self.scheme.threshold as usize {
            return Err(
                ThresholdError::InsufficientShares {
                    needed: self.scheme.threshold,
                    got: partials.len() as u32,
                },
            );
        }
        let ghost xs = signer_points(partials@);
        let mut signers: Vec<u32> = Vec::new();
        let mut indices: Vec<u64> = Vec::new();
        let mut k: usize = 0;
        while k < partials.len()
            invariant
                k <= partials.len(),
                signers.len() == k,
                indices.len() == k,
                forall|m: int|
                    0 <= m < k ==> {
                        &&& signers@[m] == (#[trigger] partials@[m]).signer_index
                        &&& indices@[m] == partials@[m].signer_index
                    },
            decreases partials.len() - k,
        {
            signers.push(partials[k].signer_index);
            indices.push(mod_mersenne(partials[k].signer_index as u128));
            k = k + 1;
        }
        assert(signers@ =~= signer_indices(partials@));
        if let Some(at) = find_repeat(&signers) {
            assert(signer_indices(partials@)[at as int] == signers@[at as int]);
            return Err(ThresholdError::DuplicateIndex(signers[at]));
        }
        assert(ints(indices@) =~= xs);
        assert forall|m: int| 0 <= m < indices.len() implies indices@[m] < field::p() by {
            assert(indices@[m] == partials@[m].signer_index);
        }
        proof {
            lemma_indices_distinct(signer_indices(partials@), xs);
        }
        let mut combined: Vec<u8> = copy_bytes(&[0u8; 32]);
        assert(combined@ =~= contributions(partials@, 0));
        let mut i: usize = 0;
        while i < partials.len()
            invariant
                i <= partials.len(),
                indices.len() == partials.len(),
                xs == signer_points(partials@),
                ints(indices@) == xs,
                lagrange::distinct(xs),
                forall|m: int| 0 <= m < indices.len() ==> indices@[m] < field::p(),
                combined.len() == 32,
                combined@ == contributions(partials@, i as nat),
            decreases partials.len() - i,
        {
            let (numerator, denominator) = basis_parts(&indices, i);
            assert(xs[i as int] == indices@[i as int]);
            if denominator == 0 {
                proof {
                    lemma_zero_denominator(xs, i as int);
                }
                return Err(
                    ThresholdError::InterpolationError(
                        "zero denominator in partial combination".to_owned(),
                    ),
                );
            }
            let inv: u64 = field_inv(denominator);
            let weight: u64 = field_mul(numerator, inv);
            proof {
                lemma_basis_value(
                    xs,
                    i as int,
                    numerator as int,
                    denominator as int,
                    inv as int,
                );
            }
            let mut part: Vec<u8> = Vec::new();
            push_u64(&mut part, weight);
            push_bytes(&mut part, &partials[i].signature);
            assert(part@ =~= encoding::le_bytes(
                (lagrange::basis(xs, i as int) % field::p()) as nat,
                8,
            ) + partials@[i as int].signature@);
            let contrib_hash: [u8; 32] = blake3_hash(&part);
            combined = xor_bytes(&combined, &contrib_hash);
            i = i + 1;
        }
        let mut input: Vec<u8> = text_vec("arc-threshold-combine");
        push_bytes(&mut input, &combined);
        Ok(blake3_hash(&input))
    }

    /// Structural check of a combined threshold signature for pipeline testing: every signature
    /// but the all-zero one is accepted, whatever the message and the public key.
    pub fn verify_combined(
        message: &[u8],
        combined_sig: &[u8; 32],
        public_key: &[u8; 32],
    ) -> (r: bool)
        ensures
            r == (combined_sig@ != hash::zero_digest()),
    {
        let zero: [u8; 32] = [0u8; 32];
        assert(zero@ =~= hash::zero_digest());
        !bytes_eq(combined_sig, &zero)
    }
}

/// The public key of a secret.
pub open spec fn public_commitment(secret: Seq<u8>) -> Seq<u8> {
    hash::blake3_digest(encoding::text_bytes("arc-threshold-pubkey"@) + secret)
}

/// Derive a public key from a secret (used for verification).
/// public_key = BLAKE3("arc-threshold-pubkey" || secret).
pub fn derive_public_key(secret: &[u8; 32]) -> (out: [u8; 32])
    ensures
        out@ == public_commitment(secret@),
{
    let mut input: Vec<u8> = text_vec("arc-threshold-pubkey");
    push_bytes(&mut input, secret);
    blake3_hash(&input)
}

// ---------------------------------------------------------------------------
// Threshold encryption
// ---------------------------------------------------------------------------

/// Authentication tag length for threshold AEAD.
pub const THRESHOLD_TAG_LEN: usize = 32;

/// The keystream: the keyed hashes of the nonce and a block counter, one after the other.
pub open spec fn keystream(enc_key: Seq<u8>, nonce: Seq<u8>, len: nat) -> Seq<u8> {
    Seq::new(
        len,
        |i: int|
            hash::blake3_keyed(enc_key, stream_input(nonce, (i / 32) as nat))[i % 32],
    )
}

/// What is hashed for a block of the keystream: the nonce and the number of the block.
pub open spec fn stream_input(nonce: Seq<u8>, block: nat) -> Seq<u8> {
    nonce + encoding::le_bytes(block, 8)
}

/// Two byte strings of one length, combined bit by bit.
pub open spec fn xored(a: Seq<u8>, b: Seq<u8>) -> Seq<u8> {
    Seq::new(a.len(), |i: int| a[i] ^ b[i])
}

/// The tag of a nonce and a ciphertext.
pub open spec fn mac(mac_key: Seq<u8>, nonce: Seq<u8>, ciphertext: Seq<u8>) -> Seq<u8> {
    hash::blake3_keyed(mac_key, mac_input(nonce, ciphertext))
}

/// What the tag of a ciphertext hashes: the nonce, the length and the whole ciphertext.
pub open spec fn mac_input(nonce: Seq<u8>, ciphertext: Seq<u8>) -> Seq<u8> {
    nonce + encoding::le_bytes(ciphertext.len(), 8) + ciphertext
}

pub open spec fn encryption_key(key: Seq<u8>) -> Seq<u8> {
    hash::blake3_derived("ARC-threshold-enc-key-v1"@, key)
}

pub open spec fn mac_key(key: Seq<u8>) -> Seq<u8> {
    hash::blake3_derived("ARC-threshold-mac-key-v1"@, key)
}

/// The ciphertext of a text: the text and the keystream combined.
pub open spec fn ciphertext(key: Seq<u8>, plaintext: Seq<u8>, nonce: Seq<u8>) -> Seq<u8> {
    xored(plaintext, keystream(encryption_key(key), nonce, plaintext.len()))
}

/// What encryption puts out: nonce, ciphertext and tag.
pub open spec fn encrypted(key: Seq<u8>, plaintext: Seq<u8>, nonce: Seq<u8>) -> Seq<u8> {
    nonce + ciphertext(key, plaintext, nonce) + mac(
        mac_key(key),
        nonce,
        ciphertext(key, plaintext, nonce),
    )
}

/// What decryption makes of its input: nothing where the input is too short or the tag is not that
/// of the nonce and the ciphertext.
pub open spec fn decrypted(key: Seq<u8>, data: Seq<u8>) -> Option<Seq<u8>> {
    let n = data.len() as int;
    if n < 44 {
        None
    } else {
        let nonce = data.subrange(0, 12);
        let body = data.subrange(12, n - 32);
        if data.subrange(n - 32, n) == mac(mac_key(key), nonce, body) {
            Some(xored(body, keystream(encryption_key(key), nonce, body.len())))
        } else {
            None
        }
    }
}

/// Combining twice with the same bytes gives the first string back.
proof fn lemma_xored_twice(a: Seq<u8>, k: Seq<u8>)
    requires
        a.len() == k.len(),
    ensures
        xored(xored(a, k), k) == a,
{
    assert forall|i: int| 0 <= i < a.len() implies #[trigger] xored(xored(a, k), k)[i] == a[i] by {
        let x = a[i];
        let y = k[i];
        assert((x ^ y) ^ y == x) by (bit_vector);
    }
    assert(xored(xored(a, k), k) =~= a);
}

/// `rand::thread_rng().gen()`: 12 bytes from the thread's random generator, of which nothing is
/// promised.
#[verifier::external_body]
fn random_nonce() -> (nonce: [u8; 12]) {
    rand::Rng::gen(&mut rand::thread_rng())
}

/// The message that the committee signs for a slot.
pub open spec fn slot_bytes(slot: u64) -> Seq<u8> {
    encoding::text_bytes("ARC-slot-key-v1"@) + encoding::le_bytes(slot as nat, 8)
}

/// The key of a slot whose committee signatures add up to an aggregate.
pub open spec fn slot_key(slot: u64, aggregate: Seq<u8>) -> Seq<u8> {
    hash::blake3_derived("ARC-threshold-slot-key-v1"@, slot_key_input(slot, aggregate))
}

/// What the key of a slot is derived from: the aggregated signature and the slot.
pub open spec fn slot_key_input(slot: u64, aggregate: Seq<u8>) -> Seq<u8> {
    aggregate + encoding::le_bytes(slot as nat, 8)
}

/// BLS-based threshold encryption for MEV-protected mempools.
///
/// The encryption key for each slot is derived by aggregating BLS signatures
/// from committee members on a slot-specific message. This ensures no single
/// validator can decrypt transactions before block commitment.
pub struct ThresholdEncryption;

impl ThresholdEncryption {
    /// Encrypt plaintext with a 32-byte symmetric key using BLAKE3-CTR + BLAKE3-MAC.
    ///
    /// Output format: `nonce (12 bytes) || ciphertext || mac_tag (32 bytes)`, with a random nonce.
    pub fn encrypt(key: &[u8; 32], plaintext: &[u8]) -> (out: Vec<u8>)
        ensures
            exists|nonce: Seq<u8>|
                nonce.len() == 12 && out@ == #[trigger] encrypted(key@, plaintext@, nonce),
            decrypted(key@, out@) == Some(plaintext@),
    {
        let nonce: [u8; 12] = random_nonce();
        Self::encrypt_with_nonce(key, plaintext, &nonce)
    }

    /// Encrypt with an explicit nonce. What decryption with the same key makes of the output is
    /// the plaintext.
    pub fn encrypt_with_nonce(key: &[u8; 32], plaintext: &[u8], nonce: &[u8; 12]) -> (out: Vec<u8>)
        ensures
            out@ == encrypted(key@, plaintext@, nonce@),
            decrypted(key@, out@) == Some(plaintext@),
    {
        let enc_key: [u8; 32] = blake3_derive("ARC-threshold-enc-key-v1", key);
        let tag_key: [u8; 32] = blake3_derive("ARC-threshold-mac-key-v1", key);
        let stream: Vec<u8> = Self::derive_keystream(&enc_key, nonce, plaintext.len());
        let body: Vec<u8> = xor_bytes(plaintext, &stream);
        let tag: [u8; 32] = Self::compute_mac(&tag_key, nonce, &body);
        let mut output: Vec<u8> = copy_bytes(nonce);
        push_bytes(&mut output, &body);
        push_bytes(&mut output, &tag);
        proof {
            let n = output.len() as int;
            assert(output@.subrange(0, 12) =~= nonce@);
            assert(output@.subrange(12, n - 32) =~= body@);
            assert(output@.subrange(n - 32, n) =~= tag@);
            lemma_xored_twice(plaintext@, stream@);
        }
        output
    }

    /// Decrypt authenticated ciphertext produced by `encrypt`.
    ///
    /// Verifies the MAC tag before decrypting. Returns `None` if the
    /// ciphertext has been tampered with or the key is wrong.
    pub fn decrypt(key: &[u8; 32], data: &[u8]) -> (r: Option<Vec<u8>>)
        ensures
            match r {
                Some(plaintext) => decrypted(key@, data@) == Some(plaintext@),
                None => decrypted(key@, data@) is None,
            },
    {
        if data.len() < 12 + THRESHOLD_TAG_LEN {
            return None;
        }
        let nonce: [u8; 12] = first_12(data);
        let tag_start: usize = data.len() - THRESHOLD_TAG_LEN;
        let body: &[u8] = vstd::slice::slice_subrange(data, 12, tag_start);
        let tag: &[u8] = vstd::slice::slice_subrange(data, tag_start, data.len());
        let enc_key: [u8; 32] = blake3_derive("ARC-threshold-enc-key-v1", key);
        let tag_key: [u8; 32] = blake3_derive("ARC-threshold-mac-key-v1", key);
        let expected_tag: [u8; 32] = Self::compute_mac(&tag_key, &nonce, body);
        if !Self::constant_time_eq(tag, &expected_tag) {
            return None;
        }
        let stream: Vec<u8> = Self::derive_keystream(&enc_key, &nonce, body.len());
        Some(xor_bytes(body, &stream))
    }

    /// Derive a BLAKE3-CTR keystream of `len` bytes.
    fn derive_keystream(enc_key: &[u8; 32], nonce: &[u8; 12], len: usize) -> (stream: Vec<u8>)
        ensures
            stream@ == keystream(enc_key@, nonce@, len as nat),
    {
        let mut stream: Vec<u8> = Vec::new();
        let mut counter: u64 = 0;
        let ghost whole = keystream(enc_key@, nonce@, len as nat);
        assert(stream@ =~= whole.take(0));
        while stream.len() < len
            invariant
                stream.len() <= len,
                stream.len() < len ==> stream.len() == 32 * counter,
                counter <= len,
                whole == keystream(enc_key@, nonce@, len as nat),
                stream@ == whole.take(stream.len() as int),
            decreases len - stream.len(),
        {
            let mut input: Vec<u8> = copy_bytes(nonce);
            push_u64(&mut input, counter);
            let block: [u8; 32] = blake3_keyed_hash(enc_key, &input);
            let remaining: usize = len - stream.len();
            let take: usize = if remaining < 32 {
                remaining
            } else {
                32
            };
            let ghost before = stream@;
            let bytes: &[u8] = &block;
            push_bytes(&mut stream, vstd::slice::slice_subrange(bytes, 0, take));
            proof {
                assert forall|i: int| 0 <= i < stream.len() implies #[trigger] stream@[i]
                    == whole[i] by {
                    if i < before.len() {
                        assert(before[i] == whole.take(before.len() as int)[i]);
                    } else {
                        assert(i / 32 == counter);
                        assert(i % 32 == i - before.len());
                    }
                }
                assert(stream@ =~= whole.take(stream.len() as int));
            }
            counter = counter + 1;
        }
        assert(whole.take(len as int) =~= whole);
        stream
    }

    /// Compute a BLAKE3-keyed MAC over nonce || length || ciphertext.
    fn compute_mac(tag_key: &[u8; 32], nonce: &[u8; 12], body: &[u8]) -> (tag: [u8; 32])
        ensures
            tag@ == mac(tag_key@, nonce@, body@),
    {
        let mut input: Vec<u8> = copy_bytes(nonce);
        push_u64(&mut input, body.len() as u64);
        push_bytes(&mut input, body);
        blake3_keyed_hash(tag_key, &input)
    }

    /// Byte comparison that looks at every byte, whatever it finds.
    fn constant_time_eq(a: &[u8], b: &[u8]) -> (r: bool)
        ensures
            r == (a@ == b@),
    {
        if a.len() != b.len() {
            return false;
        }
        let mut diff: u8 = 0;
        let mut i: usize = 0;
        while i < a.len()
            invariant
                a.len() == b.len(),
                i <= a.len(),
                diff == 0 <==> (forall|j: int| 0 <= j < i ==> a@[j] == b@[j]),
            decreases a.len() - i,
        {
            let x: u8 = a[i];
            let y: u8 = b[i];
            let d: u8 = diff;
            diff = d | (x ^ y);
            assert((d | (x ^ y)) == 0 <==> (d == 0 && x == y)) by (bit_vector);
            i = i + 1;
        }
        assert(diff == 0 ==> a@ =~= b@);
        diff == 0
    }

    /// Derive a per-slot symmetric encryption key from BLS signature shares.
    ///
    /// Each committee member signs the slot message. The shares are aggregated, and the key is
    /// derived from the aggregate and the slot.
    pub fn derive_slot_key(slot: u64, sig_shares: &[BlsSignature]) -> (key: [u8; 32])
        requires
            bls::signatures_aggregated(bls::signature_bytes(sig_shares@)) is Ok,
        ensures
            key@ == slot_key(
                slot,
                bls::signatures_aggregated(bls::signature_bytes(sig_shares@))->Ok_0,
            ),
    {
        let r: Result<BlsSignature, BlsError> = aggregate_signatures(sig_shares);
        let mut material: Vec<u8> = Vec::new();
        if let Ok(agg_sig) = r {
            push_bytes(&mut material, &agg_sig.0);
        }
        push_u64(&mut material, slot);
        blake3_derive("ARC-threshold-slot-key-v1", material.as_slice())
    }

    /// Derive a per-slot symmetric encryption key if the signature shares can be aggregated.
    pub fn try_derive_slot_key(slot: u64, sig_shares: &[BlsSignature]) -> (r: Result<
        [u8; 32],
        BlsError,
    >)
        ensures
            match (r, bls::signatures_aggregated(bls::signature_bytes(sig_shares@))) {
                (Ok(key), Ok(aggregate)) => key@ == slot_key(slot, aggregate),
                (Err(e), Err(cause)) => e == cause,
                _ => false,
            },
    {
        match aggregate_signatures(sig_shares) {
            Ok(_) => Ok(Self::derive_slot_key(slot, sig_shares)),
            Err(e) => Err(e),
        }
    }

    /// Compute the slot message that committee members must BLS-sign.
    pub fn slot_message(slot: u64) -> (msg: Vec<u8>)
        ensures
            msg@ == slot_bytes(slot),
    {
        let mut msg: Vec<u8> = text_vec("ARC-slot-key-v1");
        push_u64(&mut msg, slot);
        msg
    }
}

fn xor_bytes(a: &[u8], b: &[u8]) -> (out: Vec<u8>)
    requires
        a.len() == b.len(),
    ensures
        out@ == xored(a@, b@),
{
    let mut out: Vec<u8> = Vec::new();
    let mut i: usize = 0;
    while i < a.len()
        invariant
            a.len() == b.len(),
            i <= a.len(),
            out.len() == i,
            forall|j: int| 0 <= j < i ==> #[trigger] out@[j] == a@[j] ^ b@[j],
        decreases a.len() - i,
    {
        out.push(a[i] ^ b[i]);
        i = i + 1;
    }
    assert(out@ =~= xored(a@, b@));
    out
}

fn first_12(data: &[u8]) -> (out: [u8; 12])
    requires
        data.len() >= 12,
    ensures
        out@ == data@.subrange(0, 12),
{
    let mut out: [u8; 12] = [0u8; 12];
    let mut i: usize = 0;
    while i < 12
        invariant
            i <= 12,
            data.len() >= 12,
            forall|j: int| 0 <= j < i ==> out@[j] == data@[j],
        decreases 12 - i,
    {
        out[i] = data[i];
        i = i + 1;
    }
    assert(out@ =~= data@.subrange(0, 12));
    out
}

// ---------------------------------------------------------------------------
// What shares, signatures and ciphertexts depend on
// ---------------------------------------------------------------------------

/// The coefficients of the sharing polynomial are the field elements of a hash chain that starts
/// at the secret: each link is the hash of the one before it and its number.
pub proof fn law_coefficients_follow_a_hash_chain(secret: Seq<u8>, threshold: nat, i: nat)
    requires
        i < threshold,
    ensures
        coefficients(secret, threshold).len() == threshold,
        coefficients(secret, threshold)[i as int] == encoding::le_value(
            coefficient_state(secret, i).subrange(0, 8),
        ) as int % field::p(),
        coefficient_state(secret, 0) == secret,
        i > 0 ==> coefficient_state(secret, i) == hash::blake3_digest(
            encoding::text_bytes("arc-threshold-poly-coeff"@) + coefficient_state(
                secret,
                (i - 1) as nat,
            ) + encoding::le_bytes(i, 4),
        ),
{
}

/// With a threshold of one every share is the field element of the secret.
pub proof fn law_single_shares_are_the_secret(secret: Seq<u8>, share: SecretShare)
    requires
        is_share_of(share, secret, 1),
    ensures
        field_of(share.value@) == field_of(secret),
{
    let c = coefficients(secret, 1);
    let x = share.index as int;
    assert(c.drop_first() =~= Seq::<int>::empty());
    assert(lagrange::poly(c.drop_first(), x) == 0);
    assert(x * 0 == 0);
    lemma_mod_twice_p(field_of(secret));
    lemma_field_bytes_roundtrip(lagrange::poly(c, x) % field::p());
}

proof fn lemma_mod_twice_p(a: int)
    requires
        0 <= a < field::p(),
    ensures
        a % field::p() == a,
{
}

/// A share for a threshold of one more, at the same index, has its value changed by the next link
/// of the chain times that power of the index: so every link enters the shares.
pub proof fn law_one_more_degree_adds_the_next_link(
    secret: Seq<u8>,
    threshold: nat,
    a: SecretShare,
    b: SecretShare,
)
    requires
        is_share_of(a, secret, threshold),
        is_share_of(b, secret, threshold + 1),
        a.index == b.index,
    ensures
        field::congruent(
            field_of(b.value@),
            field_of(a.value@) + field_of(coefficient_state(secret, threshold)) * pow(
                a.index as int,
                threshold,
            ),
        ),
{
    let x = a.index as int;
    let c = coefficients(secret, threshold);
    let d = coefficients(secret, threshold + 1);
    assert(d =~= c.push(field_of(coefficient_state(secret, threshold))));
    lagrange::lemma_poly_push(c, field_of(coefficient_state(secret, threshold)), x);
    let va = lagrange::poly(c, x);
    let vb = lagrange::poly(d, x);
    lemma_field_bytes_roundtrip(va % field::p());
    lemma_field_bytes_roundtrip(vb % field::p());
    field::lemma_congruent_mod(va);
    field::lemma_congruent_mod(vb);
    let term = field_of(coefficient_state(secret, threshold)) * pow(x, threshold);
    field::lemma_congruent_add(va % field::p(), va, term, term);
}

/// With a threshold of two, shares at two indices differ by the difference of the indices times
/// the first link of the chain. Where that link is not zero in the field, no two shares are the
/// same and none is that of the secret.
pub proof fn law_two_of_n_shares_lie_on_a_line(
    secret: Seq<u8>,
    a: SecretShare,
    b: SecretShare,
)
    requires
        is_share_of(a, secret, 2),
        is_share_of(b, secret, 2),
    ensures
        ({
            let slope = field_of(
                hash::blake3_digest(
                    encoding::text_bytes("arc-threshold-poly-coeff"@) + secret
                        + encoding::le_bytes(1, 4),
                ),
            );
            &&& field::congruent(
                field_of(a.value@) - field_of(b.value@),
                (a.index - b.index) * slope,
            )
            &&& field::congruent(field_of(a.value@) - field_of(secret), a.index * slope)
            &&& slope != 0 && a.index != b.index ==> a.value@ != b.value@
            &&& slope != 0 && a.index != 0 ==> field_of(a.value@) != field_of(secret)
        }),
{
    let c = coefficients(secret, 2);
    let slope = field_of(coefficient_state(secret, 1));
    assert(coefficient_state(secret, 0) == secret);
    assert(coefficient_state(secret, 1) == hash::blake3_digest(link_input(secret, 1)));
    let s = field_of(secret);
    let one = coefficients(secret, 1);
    assert(c =~= one.push(slope));
    let xa = a.index as int;
    let xb = b.index as int;
    lemma_line(one, slope, s, xa);
    lemma_line(one, slope, s, xb);
    let va = s + slope * xa;
    let vb = s + slope * xb;
    assert(lagrange::poly(c, xa) == va && lagrange::poly(c, xb) == vb);
    lemma_field_bytes_roundtrip(va % field::p());
    lemma_field_bytes_roundtrip(vb % field::p());
    field::lemma_congruent_mod(va);
    field::lemma_congruent_mod(vb);
    field::lemma_congruent_add(va % field::p(), va, vb % field::p(), vb);
    field::lemma_congruent_add(va % field::p(), va, s, s);
    assert(va - vb == (xa - xb) * slope && va - s == xa * slope) by (nonlinear_arith)
        requires
            va == s + slope * xa,
            vb == s + slope * xb,
    ;
    if slope != 0 && xa != xb && a.value@ == b.value@ {
        assert(((xa - xb) * slope) % field::p() == 0);
        field::lemma_no_zero_divisors(xa - xb, slope);
        assert(-field::p() < xa - xb < field::p());
        lemma_small_residue(xa - xb);
    }
    if slope != 0 && xa != 0 && field_of(a.value@) == s {
        assert((xa * slope) % field::p() == 0);
        field::lemma_no_zero_divisors(xa, slope);
        lemma_small_residue(xa);
    }
}

proof fn lemma_small_residue(d: int)
    requires
        -field::p() < d < field::p(),
        d % field::p() == 0,
    ensures
        d == 0,
{
}

proof fn lemma_line(one: Seq<int>, slope: int, s: int, x: int)
    requires
        one.len() == 1,
        one[0] == s,
    ensures
        lagrange::poly(one.push(slope), x) == s + slope * x,
{
    lagrange::lemma_poly_push(one, slope, x);
    assert(one.drop_first() =~= Seq::<int>::empty());
    assert(lagrange::poly(one.drop_first(), x) == 0);
    assert(x * 0 == 0);
    vstd::arithmetic::power::lemma_pow1(x);
}

/// The links of the chains of two secrets are the same only where those before them are, unless
/// the digests of what is hashed collide.
pub proof fn law_links_bind_the_chain(a: Seq<u8>, b: Seq<u8>, i: nat)
    requires
        i > 0,
        coefficient_state(a, i) == coefficient_state(b, i),
        coefficient_state(a, (i - 1) as nat).len() == coefficient_state(b, (i - 1) as nat).len(),
    ensures
        coefficient_state(a, (i - 1) as nat) == coefficient_state(b, (i - 1) as nat)
            || hash::collides(
            link_input(coefficient_state(a, (i - 1) as nat), i),
            link_input(coefficient_state(b, (i - 1) as nat), i),
        ),
{
    let x = coefficient_state(a, (i - 1) as nat);
    let y = coefficient_state(b, (i - 1) as nat);
    let label = encoding::text_bytes("arc-threshold-poly-coeff"@);
    if link_input(x, i) == link_input(y, i) {
        encoding::lemma_split(label + x, encoding::le_bytes(i, 4), label + y, encoding::le_bytes(i, 4));
        encoding::lemma_split(label, x, label, y);
    }
}

/// The value of a share reads back as its field element, so that shares with different field
/// elements have different values.
pub proof fn law_share_values_spell_field_elements(v: int, w: int)
    requires
        0 <= v < field::p(),
        0 <= w < field::p(),
    ensures
        field_of(field_bytes(v)) == v,
        encoding::le_value(field_bytes(v).subrange(0, 8)) == v,
        field_bytes(v) == field_bytes(w) <==> v == w,
{
    lemma_field_bytes_roundtrip(v);
    lemma_field_bytes_roundtrip(w);
    encoding::lemma_le_u64_roundtrip(v as u64);
    assert(field_bytes(v).subrange(0, 8) =~= encoding::le_bytes(v as nat, 8));
}

/// The commitment to a share belongs to its value alone, unless the digests of what is hashed
/// collide: another value does not verify against it.
pub proof fn law_commitments_bind_values(a: Seq<u8>, b: Seq<u8>)
    requires
        share_commitment(a) == share_commitment(b),
    ensures
        a == b || hash::collides(
            encoding::text_bytes("arc-threshold-commitment"@) + a,
            encoding::text_bytes("arc-threshold-commitment"@) + b,
        ),
{
    let label = encoding::text_bytes("arc-threshold-commitment"@);
    if label + a == label + b {
        encoding::lemma_split(label, a, label, b);
    }
}

/// The public key of a secret belongs to that secret alone, unless the digests of what is hashed
/// collide.
pub proof fn law_public_keys_bind_secrets(a: Seq<u8>, b: Seq<u8>)
    requires
        public_commitment(a) == public_commitment(b),
    ensures
        a == b || hash::collides(
            encoding::text_bytes("arc-threshold-pubkey"@) + a,
            encoding::text_bytes("arc-threshold-pubkey"@) + b,
        ),
{
    let label = encoding::text_bytes("arc-threshold-pubkey"@);
    if label + a == label + b {
        encoding::lemma_split(label, a, label, b);
    }
}

/// A partial signature belongs to one share and one message alone, and so does its proof to one
/// commitment and one signature, unless the digests of what is hashed collide.
pub proof fn law_partial_signatures_bind_share_and_message(
    value_a: Seq<u8>,
    message_a: Seq<u8>,
    value_b: Seq<u8>,
    message_b: Seq<u8>,
)
    requires
        value_a.len() == value_b.len(),
    ensures
        partial_digest(value_a, message_a) == partial_digest(value_b, message_b) ==> (value_a
            == value_b && message_a == message_b) || hash::collides(
            partial_input(value_a, message_a),
            partial_input(value_b, message_b),
        ),
        partial_proof(value_a, message_a) == partial_proof(value_b, message_b) ==> (value_a
            == value_b && message_a == message_b) || hash::collides(
            partial_proof_input(value_a, message_a),
            partial_proof_input(value_b, message_b),
        ),
{
    let label = encoding::text_bytes("arc-threshold-partial-sig"@);
    let other = encoding::text_bytes("arc-threshold-sig-proof"@);
    if partial_input(value_a, message_a) == partial_input(value_b, message_b) {
        encoding::lemma_split(label + value_a, message_a, label + value_b, message_b);
        encoding::lemma_split(label, value_a, label, value_b);
    }
    if partial_proof_input(value_a, message_a) == partial_proof_input(value_b, message_b) {
        encoding::lemma_split(other + value_a, message_a, other + value_b, message_b);
        encoding::lemma_split(other, value_a, other, value_b);
    }
}

/// A contribution belongs to one weight and one partial signature alone, unless the digests of what
/// is hashed collide.
pub proof fn law_contributions_bind_weight_and_signature(
    p: Seq<PartialSignature>,
    q: Seq<PartialSignature>,
    i: int,
    j: int,
)
    requires
        contribution(p, i) == contribution(q, j),
    ensures
        ({
            let v = lagrange::basis(signer_points(p), i) % field::p();
            let w = lagrange::basis(signer_points(q), j) % field::p();
            (v == w && p[i].signature@ == q[j].signature@) || hash::collides(
                contribution_input(v, p[i].signature@),
                contribution_input(w, q[j].signature@),
            )
        }),
{
    let v = lagrange::basis(signer_points(p), i) % field::p();
    let w = lagrange::basis(signer_points(q), j) % field::p();
    encoding::law_le_u64_injective(v as u64, w as u64);
    if contribution_input(v, p[i].signature@) == contribution_input(w, q[j].signature@) {
        encoding::lemma_split(
            encoding::le_bytes(v as nat, 8),
            p[i].signature@,
            encoding::le_bytes(w as nat, 8),
            q[j].signature@,
        );
    }
}

proof fn lemma_contributions_len(p: Seq<PartialSignature>, n: nat)
    ensures
        contributions(p, n).len() == 32,
    decreases n,
{
    if n > 0 {
        lemma_contributions_len(p, (n - 1) as nat);
    }
}

proof fn lemma_xor_cancels(a: Seq<u8>, b: Seq<u8>, c: Seq<u8>, d: Seq<u8>)
    requires
        a.len() == 32,
        b.len() == 32,
        c.len() == 32,
        d.len() == 32,
        xored(a, b) == xored(c, d),
    ensures
        a == c <==> b == d,
{
    if a == c {
        assert forall|i: int| 0 <= i < 32 implies b[i] == d[i] by {
            assert(xored(a, b)[i] == xored(c, d)[i]);
            let x = a[i];
            let y = b[i];
            let z = d[i];
            assert((x ^ y) == (x ^ z)) by {
                assert(xored(a, b)[i] == a[i] ^ b[i]);
                assert(xored(c, d)[i] == c[i] ^ d[i]);
            }
            assert(y == z) by (bit_vector)
                requires
                    (x ^ y) == (x ^ z),
            ;
        }
        assert(b =~= d);
    }
    if b == d {
        assert forall|i: int| 0 <= i < 32 implies a[i] == c[i] by {
            assert(xored(a, b)[i] == xored(c, d)[i]);
            let x = a[i];
            let y = c[i];
            let z = b[i];
            assert((x ^ z) == (y ^ z)) by {
                assert(xored(a, b)[i] == a[i] ^ b[i]);
                assert(xored(c, d)[i] == c[i] ^ d[i]);
            }
            assert(x == y) by (bit_vector)
                requires
                    (x ^ z) == (y ^ z),
            ;
        }
        assert(a =~= c);
    }
}

proof fn lemma_same_contributions(p: Seq<PartialSignature>, q: Seq<PartialSignature>, n: nat)
    requires
        forall|i: int| 0 <= i < n ==> #[trigger] contribution(p, i) == contribution(q, i),
    ensures
        contributions(p, n) == contributions(q, n),
    decreases n,
{
    if n > 0 {
        lemma_same_contributions(p, q, (n - 1) as nat);
        assert(contribution(p, n - 1) == contribution(q, n - 1));
    }
}

/// Every contribution counts: where two lists of partial signatures contribute the same at all
/// places but one, they combine to the same only if they contribute the same there too.
pub proof fn law_every_contribution_counts(
    p: Seq<PartialSignature>,
    q: Seq<PartialSignature>,
    n: nat,
    k: int,
)
    requires
        0 <= k < n,
        forall|i: int|
            0 <= i < n && i != k ==> #[trigger] contribution(p, i) == contribution(q, i),
        forall|i: int|
            0 <= i < n ==> (#[trigger] contribution(p, i)).len() == 32 && contribution(q, i).len()
                == 32,
        contributions(p, n) == contributions(q, n),
    ensures
        contribution(p, k) == contribution(q, k),
    decreases n,
{
    let m = (n - 1) as nat;
    lemma_contributions_len(p, m);
    lemma_contributions_len(q, m);
    assert(contribution(p, n - 1).len() == 32 && contribution(q, n - 1).len() == 32);
    lemma_xor_cancels(
        contributions(p, m),
        contribution(p, n - 1),
        contributions(q, m),
        contribution(q, n - 1),
    );
    if k == n - 1 {
        lemma_same_contributions(p, q, m);
    } else {
        assert(contribution(p, n - 1) == contribution(q, n - 1));
        law_every_contribution_counts(p, q, m, k);
    }
}

/// The combined signature belongs to one exclusive or of contributions alone, unless the digests of
/// what is hashed collide.
pub proof fn law_combined_signatures_bind_contributions(
    p: Seq<PartialSignature>,
    q: Seq<PartialSignature>,
)
    requires
        combined_digest(p) == combined_digest(q),
    ensures
        contributions(p, p.len()) == contributions(q, q.len()) || hash::collides(
            encoding::text_bytes("arc-threshold-combine"@) + contributions(p, p.len()),
            encoding::text_bytes("arc-threshold-combine"@) + contributions(q, q.len()),
        ),
{
    let label = encoding::text_bytes("arc-threshold-combine"@);
    let a = contributions(p, p.len());
    let b = contributions(q, q.len());
    if label + a == label + b {
        encoding::lemma_split(label, a, label, b);
    }
}

/// Each 32-byte block of the keystream is the keyed hash of the nonce and the block's number, and
/// no two blocks, of one nonce or of two, hash the same bytes.
pub proof fn law_keystream_blocks_are_separate(
    enc_key: Seq<u8>,
    nonce: Seq<u8>,
    len: nat,
    j: nat,
    other_nonce: Seq<u8>,
    k: nat,
)
    requires
        32 * j + 32 <= len,
        j <= u64::MAX,
        k <= u64::MAX,
        nonce.len() == other_nonce.len(),
        hash::blake3_keyed(enc_key, stream_input(nonce, j)).len() == 32,
    ensures
        keystream(enc_key, nonce, len).len() == len,
        keystream(enc_key, nonce, len).subrange(32 * (j as int), 32 * (j as int) + 32) == hash::blake3_keyed(
            enc_key,
            stream_input(nonce, j),
        ),
        stream_input(nonce, j) == stream_input(other_nonce, k) <==> nonce == other_nonce && j == k,
{
    let stream = keystream(enc_key, nonce, len);
    let block = hash::blake3_keyed(enc_key, stream_input(nonce, j));
    assert forall|i: int| 0 <= i < 32 implies stream.subrange(32 * (j as int), 32 * (j as int) + 32)[i]
        == block[i] by {
        assert((32 * j + i) / 32 == j && (32 * j + i) % 32 == i);
    }
    assert(stream.subrange(32 * (j as int), 32 * (j as int) + 32) =~= block);
    encoding::law_le_u64_injective(j as u64, k as u64);
    if stream_input(nonce, j) == stream_input(other_nonce, k) {
        encoding::lemma_split(
            nonce,
            encoding::le_bytes(j, 8),
            other_nonce,
            encoding::le_bytes(k, 8),
        );
    }
}

/// A shorter keystream is the beginning of a longer one.
pub proof fn law_keystreams_extend(enc_key: Seq<u8>, nonce: Seq<u8>, short: nat, long: nat)
    requires
        short <= long,
    ensures
        keystream(enc_key, nonce, long).take(short as int) == keystream(enc_key, nonce, short),
{
    assert(keystream(enc_key, nonce, long).take(short as int) =~= keystream(enc_key, nonce, short));
}

/// The tag covers the nonce and every byte of the ciphertext: two messages have one tag only where
/// both are the same, unless the digests of what is hashed collide.
pub proof fn law_tags_bind_nonce_and_ciphertext(
    key: Seq<u8>,
    nonce_a: Seq<u8>,
    body_a: Seq<u8>,
    nonce_b: Seq<u8>,
    body_b: Seq<u8>,
)
    requires
        nonce_a.len() == nonce_b.len(),
        mac(key, nonce_a, body_a) == mac(key, nonce_b, body_b),
    ensures
        (nonce_a == nonce_b && body_a == body_b) || hash::keyed_collides(
            key,
            mac_input(nonce_a, body_a),
            mac_input(nonce_b, body_b),
        ),
{
    let la = encoding::le_bytes(body_a.len(), 8);
    let lb = encoding::le_bytes(body_b.len(), 8);
    encoding::lemma_le_bytes_len(body_a.len(), 8);
    encoding::lemma_le_bytes_len(body_b.len(), 8);
    if mac_input(nonce_a, body_a) == mac_input(nonce_b, body_b) {
        encoding::lemma_split(nonce_a + la, body_a, nonce_b + lb, body_b);
        encoding::lemma_split(nonce_a, la, nonce_b, lb);
    }
}

/// Data decrypts only where its last 32 bytes are the tag of the rest, and to as many bytes as are
/// between the nonce and the tag; changing any byte before the tag makes decryption fail, unless
/// the digests of what is hashed collide.
pub proof fn law_tampered_data_does_not_decrypt(key: Seq<u8>, a: Seq<u8>, b: Seq<u8>)
    requires
        a.len() == b.len(),
        decrypted(key, a) is Some,
        decrypted(key, b) is Some,
        a.subrange(a.len() - 32, a.len() as int) == b.subrange(b.len() - 32, b.len() as int),
    ensures
        a.len() >= 44,
        decrypted(key, a)->0.len() == a.len() - 44,
        a == b || hash::keyed_collides(
            mac_key(key),
            mac_input(a.subrange(0, 12), a.subrange(12, a.len() - 32)),
            mac_input(b.subrange(0, 12), b.subrange(12, b.len() - 32)),
        ),
{
    let n = a.len() as int;
    law_tags_bind_nonce_and_ciphertext(
        mac_key(key),
        a.subrange(0, 12),
        a.subrange(12, n - 32),
        b.subrange(0, 12),
        b.subrange(12, n - 32),
    );
    if a.subrange(0, 12) == b.subrange(0, 12) && a.subrange(12, n - 32) == b.subrange(12, n - 32) {
        assert(a =~= a.subrange(0, 12) + a.subrange(12, n - 32) + a.subrange(n - 32, n));
        assert(b =~= b.subrange(0, 12) + b.subrange(12, n - 32) + b.subrange(n - 32, n));
    }
}

/// The message and the key of a slot belong to that slot alone, and the key to one aggregated
/// signature, unless the digests of what is hashed collide.
pub proof fn law_slot_keys_bind_slot_and_signature(
    slot_a: u64,
    aggregate_a: Seq<u8>,
    slot_b: u64,
    aggregate_b: Seq<u8>,
)
    ensures
        slot_bytes(slot_a) == slot_bytes(slot_b) <==> slot_a == slot_b,
        slot_key(slot_a, aggregate_a) == slot_key(slot_b, aggregate_b) ==> (slot_a == slot_b
            && aggregate_a == aggregate_b) || hash::derived_collides(
            "ARC-threshold-slot-key-v1"@,
            slot_key_input(slot_a, aggregate_a),
            slot_key_input(slot_b, aggregate_b),
        ),
{
    encoding::law_le_u64_injective(slot_a, slot_b);
    let la = encoding::le_bytes(slot_a as nat, 8);
    let lb = encoding::le_bytes(slot_b as nat, 8);
    let label = encoding::text_bytes("ARC-slot-key-v1"@);
    if slot_bytes(slot_a) == slot_bytes(slot_b) {
        encoding::lemma_split(label, la, label, lb);
    }
    if slot_key_input(slot_a, aggregate_a) == slot_key_input(slot_b, aggregate_b) {
        assert((aggregate_a + la).len() == aggregate_a.len() + 8);
        assert((aggregate_b + lb).len() == aggregate_b.len() + 8);
        encoding::lemma_split(aggregate_a, la, aggregate_b, lb);
    }
}

/// The weights with which partial signatures are combined are those that interpolate at zero from the
/// signers' own indices: values of a polynomial of smaller degree than there are signers, at these
/// indices, add up with these weights to its value at zero.
pub proof fn law_weights_interpolate_at_the_signers(
    partials: Seq<PartialSignature>,
    c: Seq<int>,
    ys: Seq<int>,
)
    requires
        no_repeat(signer_indices(partials)),
        c.len() <= partials.len(),
        ys.len() == partials.len(),
        forall|i: int|
            0 <= i < partials.len() ==> #[trigger] ys[i] == lagrange::poly(
                c,
                partials[i].signer_index as int,
            ),
    ensures
        field::congruent(
            lagrange::total(
                Seq::new(
                    partials.len(),
                    |i: int| ys[i] * lagrange::basis(signer_points(partials), i),
                ),
            ),
            lagrange::poly(c, 0),
        ),
{
    let xs = signer_points(partials);
    lemma_indices_distinct(signer_indices(partials), xs);
    assert forall|i: int| 0 <= i < xs.len() implies field::congruent(
        #[trigger] ys[i],
        lagrange::poly(c, xs[i]),
    ) by {
        assert(xs[i] == partials[i].signer_index as int);
    }
    lagrange::lemma_interpolation(xs, ys, c);
    assert(lagrange::terms(xs, ys) =~= Seq::new(
        partials.len(),
        |i: int| ys[i] * lagrange::basis(signer_points(partials), i),
    ));
}

/// The exclusive or of byte strings of one length does not depend on their order, that of a byte
/// string with itself is zero, and that with zeros changes nothing.
pub proof fn law_exclusive_or(a: Seq<u8>, b: Seq<u8>)
    requires
        a.len() == b.len(),
    ensures
        xored(a, b).len() == a.len(),
        xored(a, b) == xored(b, a),
        xored(a, a) == Seq::new(a.len(), |i: int| 0u8),
        xored(a, Seq::new(a.len(), |i: int| 0u8)) == a,
        xored(xored(a, b), b) == a,
{
    assert forall|i: int| 0 <= i < a.len() implies (a[i] ^ b[i]) == (b[i] ^ a[i]) && (a[i] ^ a[i])
        == 0 && (a[i] ^ 0) == a[i] by {
        let x = a[i];
        let y = b[i];
        assert((x ^ y) == (y ^ x) && (x ^ x) == 0 && (x ^ 0) == x) by (bit_vector);
    }
    assert(xored(a, b) =~= xored(b, a));
    assert(xored(a, a) =~= Seq::new(a.len(), |i: int| 0u8));
    assert(xored(a, Seq::new(a.len(), |i: int| 0u8)) =~= a);
    lemma_xored_twice(a, b);
}

/// A message is the nonce, the plaintext under the keystream of the derived encryption key, and the
/// tag of both under the derived tag key.
pub proof fn law_messages_are_nonce_body_and_tag(key: Seq<u8>, plaintext: Seq<u8>, nonce: Seq<u8>)
    requires
        nonce.len() == 12,
    ensures
        ({
            let out = encrypted(key, plaintext, nonce);
            let n = plaintext.len() as int;
            let body = out.subrange(12, 12 + n);
            &&& out.subrange(0, 12) == nonce
            &&& xored(
                body,
                keystream(
                    hash::blake3_derived("ARC-threshold-enc-key-v1"@, key),
                    nonce,
                    plaintext.len(),
                ),
            ) == plaintext
            &&& out.subrange(12 + n, out.len() as int) == hash::blake3_keyed(
                hash::blake3_derived("ARC-threshold-mac-key-v1"@, key),
                nonce + encoding::le_bytes(plaintext.len(), 8) + body,
            )
        }),
{
    let out = encrypted(key, plaintext, nonce);
    let n = plaintext.len() as int;
    let stream = keystream(encryption_key(key), nonce, plaintext.len());
    let body = ciphertext(key, plaintext, nonce);
    assert(out.subrange(0, 12) =~= nonce);
    assert(out.subrange(12, 12 + n) =~= body);
    assert(out.subrange(12 + n, out.len() as int) =~= mac(mac_key(key), nonce, body));
    lemma_xored_twice(plaintext, stream);
}

/// The bytes of a field element are its eight little-endian bytes and the first 24 bytes of their
/// hash.
pub proof fn law_field_bytes_are_expanded(v: int)
    requires
        0 <= v < field::p(),
        hash::blake3_digest(encoding::le_bytes(v as nat, 8)).len() == 32,
    ensures
        field_bytes(v).len() == 32,
        field_bytes(v).subrange(0, 8) == encoding::le_bytes(v as nat, 8),
        field_bytes(v).subrange(8, 32) == hash::blake3_digest(
            field_bytes(v).subrange(0, 8),
        ).subrange(0, 24),
{
    encoding::lemma_le_bytes_len(v as nat, 8);
    assert(field_bytes(v).subrange(0, 8) =~= encoding::le_bytes(v as nat, 8));
    assert(field_bytes(v).subrange(8, 32) =~= hash::blake3_digest(
        encoding::le_bytes(v as nat, 8),
    ).subrange(0, 24));
}

} // verus!
