//! Pedersen commitments over the Ristretto group: `C = v*G + r*H`.
//!
//! A commitment hides its value behind a blinding factor, and commitments add up: the sum of a
//! commitment to `a` and one to `b` is a commitment to `a + b` under the sum of the blinding
//! factors.

use curve25519_dalek::ristretto::{CompressedRistretto, RistrettoBasepointTable, RistrettoPoint};
use curve25519_dalek::scalar::Scalar;
use rand::rngs::OsRng;
use sha2::Sha512;
use vstd::prelude::*;
use vstd::arithmetic::div_mod::*;
use vstd::arithmetic::power::*;

use crate::encoding;
use crate::encoding::push_u64;
use crate::parallel::par_map;

verus! {

/// The order of the Ristretto group: 2^252 + 27742317777372353535851937790883648493.
pub open spec fn group_order() -> nat {
    7237005577332262213973186563042994240857116359379907606001950938285454250989nat
}

/// Whether 32 bytes are the canonical encoding of a Ristretto point.
pub uninterp spec fn ristretto_decodes(encoding: Seq<u8>) -> bool;

/// The encoding of the point that a byte string hashes to.
pub uninterp spec fn ristretto_hash(data: Seq<u8>) -> Seq<u8>;

/// The encoding of a multiple of the base point.
pub uninterp spec fn ristretto_base_multiple(scalar: nat) -> Seq<u8>;

/// The encoding of a multiple of an encoded point.
pub uninterp spec fn ristretto_multiple(scalar: nat, point: Seq<u8>) -> Seq<u8>;

/// The encoding of the sum of two encoded points.
pub uninterp spec fn ristretto_sum(a: Seq<u8>, b: Seq<u8>) -> Seq<u8>;

/// `CompressedRistretto::decompress` of curve25519-dalek: says whether the bytes are the canonical
/// encoding of a point.
#[verifier::external_body]
pub(crate) fn point_decodes(point: &[u8; 32]) -> (r: bool)
    ensures
        r == ristretto_decodes(point@),
{
    CompressedRistretto(*point).decompress().is_some()
}

/// `RistrettoPoint::hash_from_bytes` of curve25519-dalek with SHA-512: hashes bytes to a point and
/// returns its encoding.
#[verifier::external_body]
fn hash_to_point(data: &[u8]) -> (point: [u8; 32])
    ensures
        point@ == ristretto_hash(data@),
        ristretto_decodes(point@),
{
    RistrettoPoint::hash_from_bytes::<Sha512>(data).compress().to_bytes()
}

/// `RistrettoPoint::mul_base` of curve25519-dalek, on a scalar given as a little-endian number that
/// is reduced modulo the group order: a multiple of the base point.
#[verifier::external_body]
fn multiply_base(scalar: &[u8; 32]) -> (point: [u8; 32])
    ensures
        point@ == ristretto_base_multiple(encoding::le_value(scalar@) % group_order()),
        ristretto_decodes(point@),
{
    RistrettoPoint::mul_base(&Scalar::from_bytes_mod_order(*scalar)).compress().to_bytes()
}

/// The product of a `Scalar` and a `RistrettoPoint` of curve25519-dalek, on a scalar given as a
/// little-endian number that is reduced modulo the group order and an encoded point.
#[verifier::external_body]
fn multiply_point(scalar: &[u8; 32], base: &[u8; 32]) -> (point: [u8; 32])
    requires
        ristretto_decodes(base@),
    ensures
        point@ == ristretto_multiple(encoding::le_value(scalar@) % group_order(), base@),
        ristretto_decodes(point@),
{
    let base = CompressedRistretto(*base).decompress().unwrap();
    (Scalar::from_bytes_mod_order(*scalar) * base).compress().to_bytes()
}

/// `RistrettoBasepointTable` of curve25519-dalek: a table of multiples of one point.
#[verifier::external_type_specification]
#[verifier::external_body]
pub struct ExRistrettoBasepointTable(RistrettoBasepointTable);

/// The encoding of the point whose multiples a table holds.
pub uninterp spec fn table_point(table: RistrettoBasepointTable) -> Seq<u8>;

/// `RistrettoBasepointTable::create` of curve25519-dalek: the table of multiples of an encoded
/// point.
#[verifier::external_body]
fn tabulate_point(base: &[u8; 32]) -> (table: RistrettoBasepointTable)
    requires
        ristretto_decodes(base@),
    ensures
        table_point(table) == base@,
{
    RistrettoBasepointTable::create(&CompressedRistretto(*base).decompress().unwrap())
}

/// The product of a `Scalar` of curve25519-dalek and the point of a `RistrettoBasepointTable`: the
/// same multiple as without the table. The scalar is given as a little-endian number that is
/// reduced modulo the group order.
#[verifier::external_body]
fn multiply_tabulated(scalar: &[u8; 32], table: &RistrettoBasepointTable) -> (point: [u8; 32])
    ensures
        point@ == ristretto_multiple(
            encoding::le_value(scalar@) % group_order(),
            table_point(*table),
        ),
        ristretto_decodes(point@),
{
    (&Scalar::from_bytes_mod_order(*scalar) * table).compress().to_bytes()
}

/// The sum of two `RistrettoPoint`s of curve25519-dalek, by their encodings. The points form a
/// group in which multiples of a point add by their scalars, modulo the group order: so sums of a
/// multiple of the base point and a multiple of a hashed point add up part by part.
#[verifier::external_body]
pub(crate) fn add_points(a: &[u8; 32], b: &[u8; 32]) -> (point: [u8; 32])
    requires
        ristretto_decodes(a@),
        ristretto_decodes(b@),
    ensures
        point@ == ristretto_sum(a@, b@),
        ristretto_decodes(point@),
        forall|label: Seq<u8>, v: nat, w: nat, r: nat, s: nat|
            a@ == #[trigger] combination(v, r, ristretto_hash(label)) && b@
                == #[trigger] combination(w, s, ristretto_hash(label)) ==> point@ == combination(
                v + w,
                r + s,
                ristretto_hash(label),
            ),
{
    let a = CompressedRistretto(*a).decompress().unwrap();
    let b = CompressedRistretto(*b).decompress().unwrap();
    (a + b).compress().to_bytes()
}

/// Equality of `RistrettoPoint`s of curve25519-dalek: whether bytes encode the same point as a
/// valid encoding does. A point has one encoding, so they do when they are the same bytes.
#[verifier::external_body]
fn encodes_point(candidate: &[u8; 32], point: &[u8; 32]) -> (r: bool)
    requires
        ristretto_decodes(point@),
    ensures
        r == (candidate@ == point@),
{
    CompressedRistretto(*candidate).decompress() == CompressedRistretto(*point).decompress()
}

/// `Scalar::random` of curve25519-dalek with the operating system's generator: a scalar in
/// canonical form.
#[verifier::external_body]
fn random_scalar() -> (scalar: [u8; 32])
    ensures
        encoding::le_value(scalar@) < group_order(),
{
    Scalar::random(&mut OsRng).to_bytes()
}

/// `Scalar::from_bytes_mod_order` of curve25519-dalek: the canonical form of a little-endian
/// number, reduced modulo the group order.
#[verifier::external_body]
fn reduce_scalar(scalar: &[u8; 32]) -> (r: [u8; 32])
    ensures
        r@ == encoding::le_bytes(encoding::le_value(scalar@) % group_order(), 32),
{
    Scalar::from_bytes_mod_order(*scalar).to_bytes()
}

/// The sum of two `Scalar`s of curve25519-dalek, given as little-endian numbers that are reduced
/// modulo the group order.
#[verifier::external_body]
fn add_scalars(a: &[u8; 32], b: &[u8; 32]) -> (r: [u8; 32])
    ensures
        r@ == encoding::le_bytes(
            (encoding::le_value(a@) + encoding::le_value(b@)) % group_order(),
            32,
        ),
{
    (Scalar::from_bytes_mod_order(*a) + Scalar::from_bytes_mod_order(*b)).to_bytes()
}

/// The point `v*G + r*h`, for the base point `G`.
pub open spec fn combination(v: nat, r: nat, h: Seq<u8>) -> Seq<u8> {
    ristretto_sum(
        ristretto_base_multiple(v % group_order()),
        ristretto_multiple(r % group_order(), h),
    )
}

/// The second generator `H`: a point hashed from a fixed label, so that nobody knows its discrete
/// logarithm to the base point.
pub open spec fn second_generator() -> Seq<u8> {
    ristretto_hash(encoding::text_bytes("ARC-chain-pedersen-generator-H-v1"@))
}

/// The point that commits to a value under a blinding factor.
pub open spec fn commitment_point(value: nat, blinding: nat) -> Seq<u8> {
    combination(value, blinding, second_generator())
}

/// A Pedersen commitment to a hidden value.
#[derive(Debug)]
pub struct PedersenCommitment {
    /// Compressed Ristretto point.
    pub point: [u8; 32],
    /// The blinding factor, which the committer keeps secret.
    pub blinding: [u8; 32],
}

impl PedersenCommitment {
    /// Whether the commitment is to `value` under its own blinding factor.
    pub open spec fn opens_to(&self, value: nat) -> bool {
        self.point@ == commitment_point(value, encoding::le_value(self.blinding@))
    }
}

impl Clone for PedersenCommitment {
    fn clone(&self) -> (r: Self)
        ensures
            r == *self,
    {
        PedersenCommitment { point: self.point, blinding: self.blinding }
    }
}

/// The opening of a commitment: the committer reveals the value and the blinding factor.
#[derive(Debug)]
pub struct PedersenProof {
    pub commitment: [u8; 32],
    pub value: u64,
    pub blinding: [u8; 32],
}

impl Clone for PedersenProof {
    fn clone(&self) -> (r: Self)
        ensures
            r == *self,
    {
        PedersenProof { commitment: self.commitment, value: self.value, blinding: self.blinding }
    }
}

/// Whether an opening matches its commitment.
pub open spec fn proof_opens(p: PedersenProof) -> bool {
    p.commitment@ == commitment_point(p.value as nat, encoding::le_value(p.blinding@))
}

/// Appending zero bytes does not change the number that little-endian bytes stand for.
proof fn lemma_trailing_zeros(s: Seq<u8>, n: nat)
    ensures
        encoding::le_value(s + Seq::new(n, |i: int| 0u8)) == encoding::le_value(s),
    decreases s.len(), n,
{
    let zeros = Seq::new(n, |i: int| 0u8);
    let whole = s + zeros;
    if s.len() > 0 {
        lemma_trailing_zeros(s.subrange(1, s.len() as int), n);
        assert(whole.subrange(1, whole.len() as int) =~= s.subrange(1, s.len() as int) + zeros);
    } else if n > 0 {
        lemma_trailing_zeros(s, (n - 1) as nat);
        assert(whole.subrange(1, whole.len() as int) =~= s + Seq::new((n - 1) as nat, |i: int| 0u8));
    } else {
        assert(whole =~= s);
    }
}

/// The scalar that a value stands for.
fn scalar_of(value: u64) -> (scalar: [u8; 32])
    ensures
        encoding::le_value(scalar@) == value,
{
    let mut low: Vec<u8> = Vec::new();
    push_u64(&mut low, value);
    proof {
        encoding::lemma_le_u64_roundtrip(value);
        encoding::lemma_le_bytes_len(value as nat, 8);
    }
    let scalar: [u8; 32] = [
        low[0],
        low[1],
        low[2],
        low[3],
        low[4],
        low[5],
        low[6],
        low[7],
        0,
        0,
        0,
        0,
        0,
        0,
        0,
        0,
        0,
        0,
        0,
        0,
        0,
        0,
        0,
        0,
        0,
        0,
        0,
        0,
        0,
        0,
        0,
        0,
    ];
    proof {
        assert(scalar@ =~= low@ + Seq::new(24, |i: int| 0u8));
        lemma_trailing_zeros(low@, 24);
    }
    scalar
}

/// Hashes the label of the second generator to its point.
fn generator_h() -> (h: [u8; 32])
    ensures
        h@ == second_generator(),
        ristretto_decodes(h@),
{
    let label: Vec<u8> = encoding::text_vec("ARC-chain-pedersen-generator-H-v1");
    hash_to_point(label.as_slice())
}

/// Computes the point that commits to a value under a blinding factor.
fn commit_point(value: u64, blinding: &[u8; 32]) -> (point: [u8; 32])
    ensures
        point@ == commitment_point(value as nat, encoding::le_value(blinding@)),
        ristretto_decodes(point@),
{
    let h: [u8; 32] = generator_h();
    let v: [u8; 32] = scalar_of(value);
    let hidden: [u8; 32] = multiply_base(&v);
    let mask: [u8; 32] = multiply_point(blinding, &h);
    add_points(&hidden, &mask)
}

/// Whether a commitment is a fresh commitment to a value.
pub open spec fn commits_to(c: PedersenCommitment, value: u64) -> bool {
    &&& c.opens_to(value as nat)
    &&& encoding::le_value(c.blinding@) < group_order()
    &&& ristretto_decodes(c.point@)
}

/// Commits to a value under a fresh random blinding factor.
pub fn commit_value(value: u64) -> (c: PedersenCommitment)
    ensures
        commits_to(c, value),
{
    let blinding: [u8; 32] = random_scalar();
    PedersenCommitment { point: commit_point(value, &blinding), blinding }
}

/// Commits to a value under a given blinding factor, taken modulo the group order.
pub fn commit_value_with_blinding(value: u64, blinding: &[u8; 32]) -> (c: PedersenCommitment)
    ensures
        c.point@ == commitment_point(value as nat, encoding::le_value(blinding@)),
        c.blinding@ == encoding::le_bytes(encoding::le_value(blinding@) % group_order(), 32),
        c.opens_to(value as nat),
        ristretto_decodes(c.point@),
{
    let reduced: [u8; 32] = reduce_scalar(blinding);
    proof {
        let r = encoding::le_value(blinding@);
        lemma_scalar_fits(r % group_order());
        lemma_mod_twice(r as int, group_order() as int);
    }
    PedersenCommitment { point: commit_point(value, blinding), blinding: reduced }
}

/// Checks that a commitment matches a revealed value and blinding factor.
pub fn verify_commitment(p: &PedersenProof) -> (r: bool)
    ensures
        r == proof_opens(*p),
{
    let expected: [u8; 32] = commit_point(p.value, &p.blinding);
    encodes_point(&p.commitment, &expected)
}

/// Commits to a value under a fresh random blinding factor, by a table of multiples of the second
/// generator.
fn commit_tabulated(value: u64, table: &RistrettoBasepointTable) -> (c: PedersenCommitment)
    requires
        table_point(*table) == second_generator(),
    ensures
        commits_to(c, value),
{
    let blinding: [u8; 32] = random_scalar();
    let v: [u8; 32] = scalar_of(value);
    let hidden: [u8; 32] = multiply_base(&v);
    let mask: [u8; 32] = multiply_tabulated(&blinding, table);
    PedersenCommitment { point: add_points(&hidden, &mask), blinding }
}

/// Commits to every value, in parallel.
pub fn batch_commit(values: &[u64]) -> (out: Vec<PedersenCommitment>)
    ensures
        out.len() == values.len(),
        forall|i: int| 0 <= i < out.len() ==> commits_to(#[trigger] out@[i], values@[i]),
{
    let h: [u8; 32] = generator_h();
    let table: RistrettoBasepointTable = tabulate_point(&h);
    let f = |v: &u64| -> (c: PedersenCommitment)
        ensures
            commits_to(c, *v),
        { commit_tabulated(*v, &table) };
    par_map(values, f)
}

/// Checks every opening, in parallel.
pub fn batch_verify(proofs: &[PedersenProof]) -> (out: Vec<bool>)
    ensures
        out.len() == proofs.len(),
        forall|i: int| 0 <= i < out.len() ==> #[trigger] out@[i] == proof_opens(proofs@[i]),
{
    let f = |p: &PedersenProof| -> (r: bool)
        ensures
            r == proof_opens(*p),
        { verify_commitment(p) };
    par_map(proofs, f)
}

/// A scalar fits in 32 bytes.
proof fn lemma_scalar_fits(x: nat)
    requires
        x < group_order(),
    ensures
        encoding::le_value(encoding::le_bytes(x, 32)) == x,
{
    encoding::lemma_pow_256_values();
    lemma_pow_adds(256, 16, 16);
    encoding::lemma_le_roundtrip(x, 32);
}

/// Adds two commitments: the points add, and so do the blinding factors. The sum of a commitment
/// to `v` and one to `w` is a commitment to `v + w`.
pub fn add_commitments(a: &PedersenCommitment, b: &PedersenCommitment) -> (c: PedersenCommitment)
    requires
        ristretto_decodes(a.point@),
        ristretto_decodes(b.point@),
    ensures
        is_commitment_sum(*a, *b, c),
        forall|v: nat, w: nat| #[trigger]
            a.opens_to(v) && #[trigger] b.opens_to(w) ==> c.opens_to(v + w),
{
    let point: [u8; 32] = add_points(&a.point, &b.point);
    let blinding: [u8; 32] = add_scalars(&a.blinding, &b.blinding);
    let c = PedersenCommitment { point, blinding };
    proof {
        let r = encoding::le_value(a.blinding@);
        let s = encoding::le_value(b.blinding@);
        lemma_scalar_fits((r + s) % group_order());
        lemma_mod_twice((r + s) as int, group_order() as int);
        assert forall|v: nat, w: nat| #[trigger]
            a.opens_to(v) && #[trigger] b.opens_to(w) implies c.opens_to(v + w) by {
            assert(a.point@ == combination(v, r, second_generator()));
            assert(b.point@ == combination(w, s, second_generator()));
            assert(point@ == combination(v + w, r + s, second_generator()));
        }
    }
    c
}

/// Whether a commitment is the sum of two others.
pub open spec fn is_commitment_sum(
    a: PedersenCommitment,
    b: PedersenCommitment,
    c: PedersenCommitment,
) -> bool {
    &&& c.point@ == ristretto_sum(a.point@, b.point@)
    &&& ristretto_decodes(c.point@)
    &&& c.blinding@ == encoding::le_bytes(
        (encoding::le_value(a.blinding@) + encoding::le_value(b.blinding@)) % group_order(),
        32,
    )
}

/// Adds two commitments, or returns `None` where one of them holds no valid point.
pub fn try_add_commitments(a: &PedersenCommitment, b: &PedersenCommitment) -> (r: Option<
    PedersenCommitment,
>)
    ensures
        match r {
            Some(c) => {
                &&& ristretto_decodes(a.point@)
                &&& ristretto_decodes(b.point@)
                &&& is_commitment_sum(*a, *b, c)
                &&& forall|v: nat, w: nat| #[trigger]
                    a.opens_to(v) && #[trigger] b.opens_to(w) ==> c.opens_to(v + w)
            },
            None => !ristretto_decodes(a.point@) || !ristretto_decodes(b.point@),
        },
{
    if point_decodes(&a.point) && point_decodes(&b.point) {
        Some(add_commitments(a, b))
    } else {
        None
    }
}

/// A commitment is the sum of the multiple of the base point by the value and that of the second
/// generator by the blinding factor; both count modulo the order of the group.
pub proof fn law_commitments_combine_value_and_blinding(value: nat, blinding: nat)
    ensures
        commitment_point(value, blinding) == ristretto_sum(
            ristretto_base_multiple(value % group_order()),
            ristretto_multiple(
                blinding % group_order(),
                ristretto_hash(encoding::text_bytes("ARC-chain-pedersen-generator-H-v1"@)),
            ),
        ),
        commitment_point(value + group_order(), blinding) == commitment_point(value, blinding),
        commitment_point(value, blinding + group_order()) == commitment_point(value, blinding),
{
    lemma_mod_add_multiples_vanish(value as int, group_order() as int);
    lemma_mod_add_multiples_vanish(blinding as int, group_order() as int);
}

/// The blinding factor of a sum is the sum of the blinding factors, modulo the order of the group, and
/// the order of the summands does not matter to it.
pub proof fn law_sums_add_blindings(
    a: PedersenCommitment,
    b: PedersenCommitment,
    c: PedersenCommitment,
    d: PedersenCommitment,
)
    requires
        is_commitment_sum(a, b, c),
        is_commitment_sum(b, a, d),
    ensures
        encoding::le_value(c.blinding@) == (encoding::le_value(a.blinding@) + encoding::le_value(
            b.blinding@,
        )) % group_order(),
        c.blinding@ == d.blinding@,
        c.point@ == ristretto_sum(a.point@, b.point@),
        ristretto_decodes(c.point@),
{
    lemma_scalar_fits(
        (encoding::le_value(a.blinding@) + encoding::le_value(b.blinding@)) % group_order(),
    );
}

/// A commitment opens with its own blinding factor: a proof that carries the point, the value and the
/// blinding factor of a commitment opens exactly where the commitment is one to that value.
pub proof fn law_proofs_open_their_commitment(c: PedersenCommitment, p: PedersenProof)
    requires
        p.commitment@ == c.point@,
        p.blinding@ == c.blinding@,
    ensures
        proof_opens(p) <==> c.opens_to(p.value as nat),
        commits_to(c, p.value) ==> proof_opens(p) && encoding::le_value(c.blinding@)
            < group_order() && ristretto_decodes(c.point@),
{
}

} // verus!
