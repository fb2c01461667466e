//! Aggregate proofs: one compact proof in place of a proof per transaction.

use vstd::prelude::*;

use crate::encoding;
use crate::encoding::{bytes_eq, push_bytes};
use crate::hash;
use crate::hash::{blake3_derive, Hash256};
use crate::merkle;
use crate::merkle::{copy_hashes, hash_pairs, pad_row};
use crate::pedersen;
use crate::pedersen::{add_points, point_decodes, PedersenCommitment};

verus! {

/// An aggregate proof over a batch of transactions.
#[derive(Clone, Debug)]
pub struct AggregateProof {
    /// Number of transactions in this batch.
    pub tx_count: u64,
    /// Sum of all value commitments.
    pub aggregate_commitment: [u8; 32],
    /// Merkle root of all transaction hashes in the batch.
    pub batch_root: Hash256,
    /// Combined hash of all blinding factors.
    pub blinding_aggregate: Hash256,
    /// Version of the proof.
    pub version: u8,
}

/// The Merkle root of a batch: the zero digest of none, the only one, or the root of the tree.
pub open spec fn batch_root_of(hashes: Seq<Seq<u8>>) -> Seq<u8> {
    if hashes.len() == 0 {
        hash::zero_digest()
    } else if hashes.len() == 1 {
        hashes[0]
    } else {
        merkle::merkle_root(hashes)
    }
}

/// The sum of the points of the first `n` commitments.
pub open spec fn point_total(commitments: Seq<PedersenCommitment>, n: nat) -> Seq<u8>
    decreases n,
{
    if n == 0 {
        Seq::new(32, |i: int| 0u8)
    } else if n == 1 {
        commitments[0].point@
    } else {
        pedersen::ristretto_sum(
            point_total(commitments, (n - 1) as nat),
            commitments[n - 1].point@,
        )
    }
}

/// The blinding factors of the first `n` commitments, one after the other.
pub open spec fn blindings(commitments: Seq<PedersenCommitment>, n: nat) -> Seq<u8>
    decreases n,
{
    if n == 0 {
        Seq::empty()
    } else {
        blindings(commitments, (n - 1) as nat) + commitments[n - 1].blinding@
    }
}

/// The sum of the first `n` numbers.
pub open spec fn sum_of(numbers: Seq<nat>, n: nat) -> nat
    decreases n,
{
    if n == 0 {
        0
    } else {
        sum_of(numbers, (n - 1) as nat) + numbers[n - 1]
    }
}

/// The blinding factors of commitments as numbers.
pub open spec fn blinding_values(commitments: Seq<PedersenCommitment>) -> Seq<nat> {
    commitments.map_values(|c: PedersenCommitment| encoding::le_value(c.blinding@))
}

/// Whether commitments open to values, one by one.
pub open spec fn open_to(commitments: Seq<PedersenCommitment>, values: Seq<nat>) -> bool {
    &&& values.len() == commitments.len()
    &&& forall|i: int|
        0 <= i < commitments.len() ==> (#[trigger] commitments[i]).opens_to(values[i])
}

/// Whether every commitment holds a valid point.
pub open spec fn all_decode(commitments: Seq<PedersenCommitment>) -> bool {
    forall|i: int|
        0 <= i < commitments.len() ==> pedersen::ristretto_decodes(
            (#[trigger] commitments[i]).point@,
        )
}

/// Whether a proof aggregates a batch.
pub open spec fn is_aggregate(
    p: AggregateProof,
    tx_hashes: Seq<Hash256>,
    commitments: Seq<PedersenCommitment>,
) -> bool {
    &&& p.tx_count == tx_hashes.len()
    &&& p.aggregate_commitment@ == point_total(commitments, commitments.len())
    &&& p.batch_root@ == batch_root_of(merkle::digests(tx_hashes))
    &&& p.blinding_aggregate@ == hash::blake3_derived(
        "ARC-chain-blinding-aggregate-v1"@,
        blindings(commitments, commitments.len()),
    )
    &&& p.version == 1
}

/// Whether the aggregate commitment is to the total of the values, under the total of the blinding
/// factors, whatever values the commitments open to.
pub open spec fn commits_to_totals(
    p: AggregateProof,
    commitments: Seq<PedersenCommitment>,
) -> bool {
    forall|values: Seq<nat>| #[trigger]
        open_to(commitments, values) && commitments.len() > 0 ==> p.aggregate_commitment@
            == pedersen::commitment_point(
            sum_of(values, values.len()),
            sum_of(blinding_values(commitments), commitments.len()),
        )
}

/// Whether a proof stands for a batch of transaction hashes.
pub open spec fn aggregate_holds(p: AggregateProof, tx_hashes: Seq<Hash256>) -> bool {
    &&& p.tx_count == tx_hashes.len()
    &&& p.batch_root@ == batch_root_of(merkle::digests(tx_hashes))
}

/// An aggregate over a batch verifies against the hashes of that batch.
pub proof fn law_aggregates_hold(
    p: AggregateProof,
    tx_hashes: Seq<Hash256>,
    commitments: Seq<PedersenCommitment>,
)
    requires
        is_aggregate(p, tx_hashes, commitments),
    ensures
        aggregate_holds(p, tx_hashes),
{
}

/// Aggregates Pedersen commitments and transaction hashes into a single compact proof, which
/// verifies against the hashes.
pub fn aggregate_proofs(tx_hashes: &[Hash256], value_commitments: &[PedersenCommitment]) -> (p:
    AggregateProof)
    requires
        tx_hashes.len() == value_commitments.len(),
        all_decode(value_commitments@),
    ensures
        is_aggregate(p, tx_hashes@, value_commitments@),
        aggregate_holds(p, tx_hashes@),
        commits_to_totals(p, value_commitments@),
{
    let batch_root: Hash256 = parallel_merkle_root(tx_hashes);
    let aggregate_commitment: [u8; 32] = aggregate_pedersen_points(value_commitments);
    let blinding_aggregate: Hash256 = hash_blinding_factors(value_commitments);
    AggregateProof {
        tx_count: tx_hashes.len() as u64,
        aggregate_commitment,
        batch_root,
        blinding_aggregate,
        version: 1,
    }
}

/// Aggregates a batch, or returns `None` where the lengths differ or a commitment holds no valid
/// point.
pub fn try_aggregate_proofs(tx_hashes: &[Hash256], value_commitments: &[PedersenCommitment]) -> (r:
    Option<AggregateProof>)
    ensures
        match r {
            Some(p) => {
                &&& tx_hashes@.len() == value_commitments@.len()
                &&& all_decode(value_commitments@)
                &&& is_aggregate(p, tx_hashes@, value_commitments@)
                &&& aggregate_holds(p, tx_hashes@)
                &&& commits_to_totals(p, value_commitments@)
            },
            None => tx_hashes@.len() != value_commitments@.len() || !all_decode(
                value_commitments@,
            ),
        },
{
    if tx_hashes.len() != value_commitments.len() {
        return None;
    }
    let mut i: usize = 0;
    while i < value_commitments.len()
        invariant
            i <= value_commitments.len(),
            forall|j: int|
                0 <= j < i ==> pedersen::ristretto_decodes(
                    (#[trigger] value_commitments@[j]).point@,
                ),
        decreases value_commitments.len() - i,
    {
        if !point_decodes(&value_commitments[i].point) {
            return None;
        }
        i = i + 1;
    }
    Some(aggregate_proofs(tx_hashes, value_commitments))
}

/// Verifies an aggregate proof against the transaction hashes of its batch.
pub fn verify_aggregate(p: &AggregateProof, tx_hashes: &[Hash256]) -> (r: bool)
    ensures
        r == aggregate_holds(*p, tx_hashes@),
{
    if p.tx_count != tx_hashes.len() as u64 {
        return false;
    }
    let expected: Hash256 = parallel_merkle_root(tx_hashes);
    bytes_eq(&p.batch_root.0, &expected.0)
}

/// Computes the Merkle root of a batch, hashing the pairs of each row in parallel.
fn parallel_merkle_root(hashes: &[Hash256]) -> (root: Hash256)
    ensures
        root@ == batch_root_of(merkle::digests(hashes@)),
{
    if hashes.len() == 0 {
        return Hash256::zero();
    }
    if hashes.len() == 1 {
        return hashes[0];
    }
    let mut current: Vec<Hash256> = copy_hashes(hashes);
    pad_row(&mut current);
    assert(merkle::digests(current@).len() == current.len());
    while current.len() > 1
        invariant
            current.len() > 0,
            current.len() == 1 || current.len() % 2 == 0,
            merkle::row_root(merkle::digests(current@)) == batch_root_of(merkle::digests(hashes@)),
        decreases current.len(),
    {
        let ghost row = merkle::digests(current@);
        assert(row.len() == current.len());
        current = hash_pairs(&current);
        assert(merkle::digests(current@) == merkle::parents(row));
        assert(merkle::digests(current@).len() == current.len());
        if current.len() > 1 {
            pad_row(&mut current);
        }
        assert(merkle::digests(current@).len() == current.len());
    }
    current[0]
}

/// Adds up the points of commitments.
fn aggregate_pedersen_points(commitments: &[PedersenCommitment]) -> (total: [u8; 32])
    requires
        all_decode(commitments@),
    ensures
        total@ == point_total(commitments@, commitments@.len()),
        forall|values: Seq<nat>| #[trigger]
            open_to(commitments@, values) && commitments@.len() > 0 ==> total@
                == pedersen::commitment_point(
                sum_of(values, values.len()),
                sum_of(blinding_values(commitments@), commitments@.len()),
            ),
{
    if commitments.len() == 0 {
        let zero: [u8; 32] = [0u8; 32];
        assert(zero@ =~= Seq::new(32, |i: int| 0u8));
        return zero;
    }
    let mut total: [u8; 32] = commitments[0].point;
    let ghost rs = blinding_values(commitments@);
    proof {
        assert forall|values: Seq<nat>| #[trigger] open_to(commitments@, values) implies total@
            == pedersen::commitment_point(sum_of(values, 1), sum_of(rs, 1)) by {
            assert(commitments@[0].opens_to(values[0]));
            assert(sum_of(values, 0) == 0 && sum_of(rs, 0) == 0);
            assert(sum_of(values, 1) == values[0]);
            assert(sum_of(rs, 1) == rs[0]);
        }
    }
    let mut i: usize = 1;
    while i < commitments.len()
        invariant
            1 <= i <= commitments.len(),
            all_decode(commitments@),
            rs == blinding_values(commitments@),
            pedersen::ristretto_decodes(total@),
            total@ == point_total(commitments@, i as nat),
            forall|values: Seq<nat>| #[trigger]
                open_to(commitments@, values) ==> total@ == pedersen::commitment_point(
                    sum_of(values, i as nat),
                    sum_of(rs, i as nat),
                ),
        decreases commitments.len() - i,
    {
        let ghost before = total@;
        total = add_points(&total, &commitments[i].point);
        proof {
            assert forall|values: Seq<nat>| #[trigger] open_to(commitments@, values) implies total@
                == pedersen::commitment_point(
                sum_of(values, (i + 1) as nat),
                sum_of(rs, (i + 1) as nat),
            ) by {
                assert(commitments@[i as int].opens_to(values[i as int]));
                let h = pedersen::second_generator();
                assert(before == pedersen::combination(
                    sum_of(values, i as nat),
                    sum_of(rs, i as nat),
                    h,
                ));
                assert(commitments@[i as int].point@ == pedersen::combination(
                    values[i as int],
                    rs[i as int],
                    h,
                ));
            }
        }
        i = i + 1;
    }
    total
}

/// Hashes all blinding factors together.
fn hash_blinding_factors(commitments: &[PedersenCommitment]) -> (h: Hash256)
    ensures
        h@ == hash::blake3_derived(
            "ARC-chain-blinding-aggregate-v1"@,
            blindings(commitments@, commitments@.len()),
        ),
{
    let mut data: Vec<u8> = Vec::new();
    let mut i: usize = 0;
    while i < commitments.len()
        invariant
            i <= commitments.len(),
            data@ == blindings(commitments@, i as nat),
        decreases commitments.len() - i,
    {
        push_bytes(&mut data, &commitments[i].blinding);
        i = i + 1;
    }
    Hash256(blake3_derive("ARC-chain-blinding-aggregate-v1", data.as_slice()))
}

/// The blinding factors, one after the other, hold each of them in its place, so that only the same
/// ones have the same bytes.
pub proof fn law_blindings_hold_every_factor(commitments: Seq<PedersenCommitment>, n: nat)
    requires
        n <= commitments.len(),
    ensures
        blindings(commitments, n).len() == 32 * n,
        forall|i: int|
            0 <= i < n ==> blindings(commitments, n).subrange(32 * i, 32 * i + 32) == (
            #[trigger] commitments[i]).blinding@,
    decreases n,
{
    if n > 0 {
        let before = blindings(commitments, (n - 1) as nat);
        let all = blindings(commitments, n);
        law_blindings_hold_every_factor(commitments, (n - 1) as nat);
        assert forall|i: int| 0 <= i < n implies all.subrange(32 * i, 32 * i + 32) == (
        #[trigger] commitments[i]).blinding@ by {
            if i < n - 1 {
                assert(all.subrange(32 * i, 32 * i + 32) =~= before.subrange(32 * i, 32 * i + 32));
            } else {
                assert(all.subrange(32 * i, 32 * i + 32) =~= commitments[i].blinding@);
            }
        }
    }
}

/// An aggregate names every transaction and every blinding factor: one that aggregates two batches
/// has as many transactions in both, and the same ones and the same blinding factors, unless the
/// digests of two pairs of a tree or of two lists of blinding factors collide.
pub proof fn law_aggregates_bind_their_batch(
    p: AggregateProof,
    hashes_a: Seq<Hash256>,
    commitments_a: Seq<PedersenCommitment>,
    hashes_b: Seq<Hash256>,
    commitments_b: Seq<PedersenCommitment>,
)
    requires
        hash::digests_have_32_bytes(),
        is_aggregate(p, hashes_a, commitments_a),
        is_aggregate(p, hashes_b, commitments_b),
    ensures
        hashes_a.len() == hashes_b.len(),
        merkle::digests(hashes_a) == merkle::digests(hashes_b) || merkle::trees_collide(
            merkle::first_row(merkle::digests(hashes_a)),
            merkle::first_row(merkle::digests(hashes_b)),
        ),
        ({
            &&& commitments_a.len() == commitments_b.len()
            &&& forall|i: int|
                0 <= i < commitments_a.len() ==> (#[trigger] commitments_a[i]).blinding@
                    == commitments_b[i].blinding@
        }) || hash::derived_collides(
            "ARC-chain-blinding-aggregate-v1"@,
            blindings(commitments_a, commitments_a.len()),
            blindings(commitments_b, commitments_b.len()),
        ),
{
    let a = merkle::digests(hashes_a);
    let b = merkle::digests(hashes_b);
    assert(a.len() == b.len());
    if a.len() <= 1 {
        assert(a =~= b);
    } else {
        assert(merkle::full_row(a) && merkle::full_row(b));
        merkle::law_roots_bind_leaves(a, b);
    }
    let x = blindings(commitments_a, commitments_a.len());
    let y = blindings(commitments_b, commitments_b.len());
    if x == y {
        law_blindings_hold_every_factor(commitments_a, commitments_a.len());
        law_blindings_hold_every_factor(commitments_b, commitments_b.len());
        assert forall|i: int| 0 <= i < commitments_a.len() implies (
        #[trigger] commitments_a[i]).blinding@ == commitments_b[i].blinding@ by {
            assert(x.subrange(32 * i, 32 * i + 32) == commitments_a[i].blinding@);
            assert(y.subrange(32 * i, 32 * i + 32) == commitments_b[i].blinding@);
        }
    }
}

/// An aggregate verifies for two batches only where they hold the same transactions in the same
/// order, unless the digests of two pairs of a tree collide.
pub proof fn law_verified_aggregates_bind_transactions(
    p: AggregateProof,
    hashes_a: Seq<Hash256>,
    hashes_b: Seq<Hash256>,
)
    requires
        hash::digests_have_32_bytes(),
        aggregate_holds(p, hashes_a),
        aggregate_holds(p, hashes_b),
    ensures
        merkle::digests(hashes_a) == merkle::digests(hashes_b) || merkle::trees_collide(
            merkle::first_row(merkle::digests(hashes_a)),
            merkle::first_row(merkle::digests(hashes_b)),
        ),
{
    let a = merkle::digests(hashes_a);
    let b = merkle::digests(hashes_b);
    assert(a.len() == b.len());
    if a.len() <= 1 {
        assert(a =~= b);
    } else {
        assert(merkle::full_row(a) && merkle::full_row(b));
        merkle::law_roots_bind_leaves(a, b);
    }
}

/// The points and the sums of one commitment more are those before it and that commitment.
pub proof fn law_one_more_commitment_is_added(
    commitments: Seq<PedersenCommitment>,
    c: PedersenCommitment,
    numbers: Seq<nat>,
    x: nat,
)
    ensures
        commitments.len() == 0 ==> point_total(commitments.push(c), 1) == c.point@,
        commitments.len() > 0 ==> point_total(commitments.push(c), commitments.len() + 1)
            == pedersen::ristretto_sum(point_total(commitments, commitments.len()), c.point@),
        sum_of(numbers.push(x), numbers.len() + 1) == sum_of(numbers, numbers.len()) + x,
{
    lemma_point_total_prefix(commitments.push(c), commitments, commitments.len());
    lemma_sum_of_prefix(numbers.push(x), numbers, numbers.len());
}

proof fn lemma_point_total_prefix(
    a: Seq<PedersenCommitment>,
    b: Seq<PedersenCommitment>,
    n: nat,
)
    requires
        n <= a.len(),
        n <= b.len(),
        forall|i: int| 0 <= i < n ==> a[i] == b[i],
    ensures
        point_total(a, n) == point_total(b, n),
    decreases n,
{
    if n > 1 {
        lemma_point_total_prefix(a, b, (n - 1) as nat);
    }
}

proof fn lemma_sum_of_prefix(a: Seq<nat>, b: Seq<nat>, n: nat)
    requires
        n <= a.len(),
        n <= b.len(),
        forall|i: int| 0 <= i < n ==> a[i] == b[i],
    ensures
        sum_of(a, n) == sum_of(b, n),
    decreases n,
{
    if n > 0 {
        lemma_sum_of_prefix(a, b, (n - 1) as nat);
    }
}

/// No transaction gives the zero root, one gives its own hash; an aggregate is of the first version
/// and counts every transaction.
pub proof fn law_small_batches(
    h: Seq<u8>,
    p: AggregateProof,
    tx_hashes: Seq<Hash256>,
    commitments: Seq<PedersenCommitment>,
)
    ensures
        batch_root_of(Seq::empty()) == Seq::new(32, |i: int| 0u8),
        batch_root_of(seq![h]) == h,
        is_aggregate(p, tx_hashes, commitments) ==> p.version == 1 && p.tx_count
            == tx_hashes.len(),
{
    assert(hash::zero_digest() =~= Seq::new(32, |i: int| 0u8));
}

/// Commitments that open to values are aggregated to a commitment to the sum of all values, under the sum
/// of all blinding factors.
pub proof fn law_aggregates_commit_to_the_sums(
    p: AggregateProof,
    commitments: Seq<PedersenCommitment>,
    values: Seq<nat>,
)
    requires
        commits_to_totals(p, commitments),
        commitments.len() > 0,
        values.len() == commitments.len(),
        forall|i: int|
            0 <= i < commitments.len() ==> (#[trigger] commitments[i]).point@
                == pedersen::commitment_point(
                values[i],
                encoding::le_value(commitments[i].blinding@),
            ),
    ensures
        p.aggregate_commitment@ == pedersen::commitment_point(
            sum_of(values, values.len()),
            sum_of(
                Seq::new(
                    commitments.len(),
                    |i: int| encoding::le_value(commitments[i].blinding@),
                ),
                commitments.len(),
            ),
        ),
{
    assert(open_to(commitments, values));
    assert(blinding_values(commitments) =~= Seq::new(
        commitments.len(),
        |i: int| encoding::le_value(commitments[i].blinding@),
    ));
}

/// Commitments decode where each of them does: so do those of two batches where both do.
pub proof fn law_batches_decode_together(
    a: Seq<PedersenCommitment>,
    b: Seq<PedersenCommitment>,
    c: PedersenCommitment,
)
    ensures
        all_decode(a + b) <==> all_decode(a) && all_decode(b),
        all_decode(seq![c]) <==> pedersen::ristretto_decodes(c.point@),
{
    if all_decode(a + b) {
        assert forall|i: int| 0 <= i < a.len() implies pedersen::ristretto_decodes(
            (#[trigger] a[i]).point@,
        ) by {
            assert((a + b)[i] == a[i]);
        }
        assert forall|i: int| 0 <= i < b.len() implies pedersen::ristretto_decodes(
            (#[trigger] b[i]).point@,
        ) by {
            assert((a + b)[a.len() + i] == b[i]);
        }
    }
    if all_decode(seq![c]) {
        assert(seq![c][0] == c);
    }
}

} // verus!
