//! Merkle trees.

use vstd::arithmetic::power2::*;
use vstd::prelude::*;

use crate::encoding;
use crate::encoding::{bytes_eq, bytes_lt};
use crate::hash;
use crate::hash::{hash_pair, Hash256};
use crate::parallel;
use crate::parallel::par_chunk_map;

verus! {

// ---------------------------------------------------------------------------
// The shape of a tree
// ---------------------------------------------------------------------------

/// Hashes as digests.
pub open spec fn digests(s: Seq<Hash256>) -> Seq<Seq<u8>> {
    s.map_values(|h: Hash256| h@)
}

/// A row of even length: the row itself, or the row with its last digest repeated.
pub open spec fn padded(row: Seq<Seq<u8>>) -> Seq<Seq<u8>> {
    if row.len() % 2 != 0 {
        row.push(row.last())
    } else {
        row
    }
}

/// The digests of the pairs of a row.
pub open spec fn parents(row: Seq<Seq<u8>>) -> Seq<Seq<u8>> {
    Seq::new(row.len() / 2, |i: int| hash::pair_digest(row[2 * i], row[2 * i + 1]))
}

/// The row above a row: the parents, padded unless there is only one.
pub open spec fn next_row(row: Seq<Seq<u8>>) -> Seq<Seq<u8>> {
    if parents(row).len() > 1 {
        padded(parents(row))
    } else {
        parents(row)
    }
}

/// The digest to which a row of even length reduces.
pub open spec fn row_root(row: Seq<Seq<u8>>) -> Seq<u8>
    decreases row.len(),
{
    if row.len() <= 1 {
        row[0]
    } else {
        row_root(next_row(row))
    }
}

/// The first row of the tree over some leaves: the zero digest where there are none.
pub open spec fn first_row(leaves: Seq<Seq<u8>>) -> Seq<Seq<u8>> {
    if leaves.len() == 0 {
        seq![hash::zero_digest()]
    } else {
        padded(leaves)
    }
}

/// The Merkle root of some leaves.
pub open spec fn merkle_root(leaves: Seq<Seq<u8>>) -> Seq<u8> {
    row_root(first_row(leaves))
}

/// Whether row `k` has even length and the next row is the one above it.
pub open spec fn linked(rows: Seq<Seq<Seq<u8>>>, k: int) -> bool {
    &&& rows[k].len() % 2 == 0
    &&& rows[k].len() > 1
    &&& rows[k + 1] == next_row(rows[k])
}

/// Whether each row is the one above the row before it, up to the root.
pub open spec fn is_tree(rows: Seq<Seq<Seq<u8>>>) -> bool {
    &&& rows.len() > 0
    &&& rows.last().len() == 1
    &&& forall|k: int| 0 <= k < rows.len() - 1 ==> #[trigger] linked(rows, k)
}

/// The rows of a tree as digests.
pub open spec fn digest_rows(levels: Seq<Vec<Hash256>>) -> Seq<Seq<Seq<u8>>> {
    levels.map_values(|l: Vec<Hash256>| digests(l@))
}

/// Every row of a tree reduces to its root.
proof fn lemma_tree_root(rows: Seq<Seq<Seq<u8>>>, k: int)
    requires
        is_tree(rows),
        0 <= k < rows.len(),
    ensures
        row_root(rows[k]) == rows.last()[0],
    decreases rows.len() - k,
{
    if k < rows.len() - 1 {
        lemma_tree_root(rows, k + 1);
        assert(linked(rows, k));
    }
}

// ---------------------------------------------------------------------------
// Inclusion proofs
// ---------------------------------------------------------------------------

/// Merkle inclusion proof for a single leaf.
#[derive(Clone, Debug)]
pub struct MerkleProof {
    /// The leaf hash being proved.
    pub leaf: Hash256,
    /// Index of the leaf in the tree.
    pub index: usize,
    /// Sibling hashes from leaf to root, each with whether it is a left sibling.
    pub siblings: Vec<(Hash256, bool)>,
    /// Expected root.
    pub root: Hash256,
}

/// The digest that a leaf and its siblings, from the leaf up, lead to.
pub open spec fn climb(start: Seq<u8>, siblings: Seq<(Hash256, bool)>) -> Seq<u8>
    decreases siblings.len(),
{
    if siblings.len() == 0 {
        start
    } else {
        let (sibling, is_left) = siblings.last();
        let below = climb(start, siblings.drop_last());
        if is_left {
            hash::pair_digest(sibling@, below)
        } else {
            hash::pair_digest(below, sibling@)
        }
    }
}

/// Whether a proof's siblings lead from its leaf to its root.
pub open spec fn proof_holds(proof_: MerkleProof) -> bool {
    climb(proof_.leaf@, proof_.siblings@) == proof_.root@
}

/// The place that index `index` of the first row has `k` rows above it.
pub open spec fn ancestor(index: nat, k: nat) -> nat
    decreases k,
{
    if k == 0 {
        index
    } else {
        ancestor(index, (k - 1) as nat) / 2
    }
}

/// The other member of a pair.
pub open spec fn buddy(i: int) -> int {
    if i % 2 == 0 {
        i + 1
    } else {
        i - 1
    }
}

/// Whether `p` is the inclusion proof of index `index` in a tree.
pub open spec fn is_proof_of(p: MerkleProof, rows: Seq<Seq<Seq<u8>>>, index: nat) -> bool {
    &&& p.index == index
    &&& p.leaf@ == rows[0][index as int]
    &&& p.root@ == rows.last()[0]
    &&& p.siblings.len() == rows.len() - 1
    &&& forall|k: int|
        0 <= k < rows.len() - 1 ==> {
            &&& (#[trigger] p.siblings@[k]).0@ == rows[k][buddy(ancestor(index, k as nat) as int)]
            &&& p.siblings@[k].1 == (ancestor(index, k as nat) % 2 != 0)
        }
}

proof fn lemma_ancestor_in_range(rows: Seq<Seq<Seq<u8>>>, index: nat, k: nat)
    requires
        is_tree(rows),
        index < rows[0].len(),
        k < rows.len(),
    ensures
        ancestor(index, k) < rows[k as int].len(),
        k < rows.len() - 1 ==> ancestor(index, k) / 2 < parents(rows[k as int]).len(),
    decreases k,
{
    if k > 0 {
        lemma_ancestor_in_range(rows, index, (k - 1) as nat);
        assert(linked(rows, k - 1));
    }
    if k < rows.len() - 1 {
        assert(linked(rows, k as int));
    }
}

/// Climbing `k` steps of a proof leads to the leaf's ancestor `k` rows up.
proof fn lemma_climb(p: MerkleProof, rows: Seq<Seq<Seq<u8>>>, index: nat, k: nat)
    requires
        is_tree(rows),
        index < rows[0].len(),
        is_proof_of(p, rows, index),
        k < rows.len(),
    ensures
        climb(p.leaf@, p.siblings@.take(k as int)) == rows[k as int][ancestor(index, k) as int],
    decreases k,
{
    if k == 0 {
        assert(p.siblings@.take(0) =~= Seq::<(Hash256, bool)>::empty());
    } else {
        let j = (k - 1) as nat;
        let part = p.siblings@.take(k as int);
        lemma_climb(p, rows, index, j);
        lemma_ancestor_in_range(rows, index, j);
        assert(part.drop_last() =~= p.siblings@.take(j as int));
        assert(part.last() == p.siblings@[j as int]);
        let a = ancestor(index, j) as int;
        let row = rows[j as int];
        assert(linked(rows, j as int));
        assert(next_row(row)[a / 2] == parents(row)[a / 2]);
        assert(p.siblings@[j as int].0@ == row[buddy(a)]);
    }
}

/// An inclusion proof taken from a tree leads from the leaf to the root.
pub proof fn law_tree_proofs_hold(p: MerkleProof, rows: Seq<Seq<Seq<u8>>>, index: nat)
    requires
        is_tree(rows),
        index < rows[0].len(),
        is_proof_of(p, rows, index),
    ensures
        proof_holds(p),
{
    let top = (rows.len() - 1) as nat;
    lemma_climb(p, rows, index, top);
    lemma_ancestor_in_range(rows, index, top);
    assert(p.siblings@.take(top as int) =~= p.siblings@);
}

/// The inclusion proof of an index.
fn proof_from_levels(levels: &Vec<Vec<Hash256>>, index: usize) -> (p: MerkleProof)
    requires
        is_tree(digest_rows(levels@)),
        index < levels@[0].len(),
    ensures
        is_proof_of(p, digest_rows(levels@), index as nat),
{
    let ghost rows = digest_rows(levels@);
    let leaf: Hash256 = levels[0][index];
    let mut siblings: Vec<(Hash256, bool)> = Vec::new();
    let mut idx: usize = index;
    let mut k: usize = 0;
    assert(rows[0] == digests(levels@[0]@));
    while k < levels.len() - 1
        invariant
            rows == digest_rows(levels@),
            is_tree(rows),
            rows.len() == levels.len(),
            index < levels@[0].len(),
            rows[0].len() == levels@[0].len(),
            k <= levels.len() - 1,
            idx == ancestor(index as nat, k as nat),
            siblings.len() == k,
            forall|j: int|
                0 <= j < k ==> {
                    &&& (#[trigger] siblings@[j]).0@ == rows[j][buddy(
                        ancestor(index as nat, j as nat) as int,
                    )]
                    &&& siblings@[j].1 == (ancestor(index as nat, j as nat) % 2 != 0)
                },
        decreases levels.len() - k,
    {
        proof {
            lemma_ancestor_in_range(rows, index as nat, k as nat);
            assert(rows[k as int] == digests(levels@[k as int]@));
            assert(linked(rows, k as int));
        }
        let level: &Vec<Hash256> = &levels[k];
        let sibling_idx: usize = if idx % 2 == 0 {
            idx + 1
        } else {
            idx - 1
        };
        let sibling: Hash256 = if sibling_idx < level.len() {
            level[sibling_idx]
        } else {
            level[idx]
        };
        siblings.push((sibling, idx % 2 != 0));
        idx = idx / 2;
        k = k + 1;
    }
    let top: &Vec<Hash256> = &levels[levels.len() - 1];
    assert(rows.last() == digests(top@));
    MerkleProof { leaf, index, siblings, root: top[0] }
}

// ---------------------------------------------------------------------------
// Building a tree
// ---------------------------------------------------------------------------

/// Repeats the last hash of a row of odd length.
pub(crate) fn pad_row(row: &mut Vec<Hash256>)
    requires
        old(row).len() > 0,
    ensures
        digests(final(row)@) == padded(digests(old(row)@)),
{
    let ghost before = digests(row@);
    if row.len() % 2 != 0 {
        let last: Hash256 = row[row.len() - 1];
        row.push(last);
    }
    assert(digests(row@) =~= padded(before));
}

/// Hashes one pair, or one lone hash with itself.
fn hash_chunk(pair: &[Hash256]) -> (h: Hash256)
    requires
        0 < pair.len() <= 2,
    ensures
        pair.len() == 2 ==> h@ == hash::pair_digest(pair@[0]@, pair@[1]@),
        pair.len() == 1 ==> h@ == hash::pair_digest(pair@[0]@, pair@[0]@),
{
    if pair.len() == 2 {
        hash_pair(&pair[0], &pair[1])
    } else {
        hash_pair(&pair[0], &pair[0])
    }
}

/// Hashes the pairs of a row of even length, on the thread pool.
pub(crate) fn hash_pairs(row: &Vec<Hash256>) -> (next: Vec<Hash256>)
    requires
        row.len() % 2 == 0,
    ensures
        digests(next@) == parents(digests(row@)),
{
    let f = |pair: &[Hash256]| -> (h: Hash256)
        requires
            0 < pair@.len() <= 2,
        ensures
            pair@.len() == 2 ==> h@ == hash::pair_digest(pair@[0]@, pair@[1]@),
        { hash_chunk(pair) };
    let next: Vec<Hash256> = par_chunk_map(row, 2, f);
    proof {
        let want = parents(digests(row@));
        assert forall|i: int| 0 <= i < next.len() implies digests(next@)[i] == want[i] by {
            let c = choose|c: &[Hash256]|
                c@ == parallel::chunk(row@, 2, i) && #[trigger] call_ensures(f, (c,), next@[i]);
            assert(c@.len() == 2);
            assert(c@[0] == row@[2 * i] && c@[1] == row@[2 * i + 1]);
        }
        assert(digests(next@) =~= want);
    }
    next
}

/// The levels of the tree over some leaves, and the number of hashes at each level before padding.
fn build_levels(leaves: &Vec<Hash256>) -> (r: (Vec<Vec<Hash256>>, Vec<usize>))
    requires
        leaves.len() > 0,
    ensures
        is_tree(digest_rows(r.0@)),
        digest_rows(r.0@)[0] == first_row(digests(leaves@)),
        real_lengths_of(digest_rows(r.0@), r.1@, leaves.len() as nat),
{
    let mut current: Vec<Hash256> = copy_hashes(leaves);
    let mut real_lengths: Vec<usize> = Vec::new();
    real_lengths.push(current.len());
    pad_row(&mut current);
    assert(digests(current@).len() == current.len());
    let mut levels: Vec<Vec<Hash256>> = Vec::new();
    levels.push(copy_hashes(&current));
    assert(digest_rows(levels@)[0] == digests(levels@[0]@));
    while current.len() > 1
        invariant
            current.len() > 0,
            current.len() > 1 ==> current.len() % 2 == 0,
            levels.len() > 0,
            digest_rows(levels@).last() == digests(current@),
            digest_rows(levels@)[0] == first_row(digests(leaves@)),
            forall|k: int|
                0 <= k < levels.len() - 1 ==> #[trigger] linked(digest_rows(levels@), k),
            real_lengths_of(digest_rows(levels@), real_lengths@, leaves.len() as nat),
        decreases current.len(),
    {
        let ghost before = digest_rows(levels@);
        let ghost row = digests(current@);
        let mut next: Vec<Hash256> = hash_pairs(&current);
        assert(digests(next@).len() == next.len());
        assert(row.len() == current.len());
        real_lengths.push(next.len());
        if next.len() > 1 {
            pad_row(&mut next);
        }
        assert(digests(next@) == next_row(row));
        assert(digests(next@).len() == next.len());
        current = copy_hashes(&next);
        levels.push(next);
        proof {
            let after = digest_rows(levels@);
            assert(after =~= before.push(next_row(row)));
            assert forall|k: int| 0 <= k < levels.len() - 1 implies #[trigger] linked(after, k) by {
                if k < before.len() - 1 {
                    assert(linked(before, k));
                }
            }
            assert forall|k: int| 0 <= k < after.len() - 1 implies real_lengths@[k + 1]
                == (#[trigger] after[k]).len() / 2 by {
                assert(after[k] == before[k]);
            }
        }
    }
    (levels, real_lengths)
}

/// Whether `lengths` are the numbers of hashes at each level before padding.
pub open spec fn real_lengths_of(
    rows: Seq<Seq<Seq<u8>>>,
    lengths: Seq<usize>,
    leaf_count: nat,
) -> bool {
    &&& lengths.len() == rows.len()
    &&& lengths[0] == leaf_count
    &&& forall|k: int|
        0 <= k < rows.len() - 1 ==> lengths[k + 1] == (#[trigger] rows[k]).len() / 2
}

pub(crate) fn copy_hashes(hashes: &[Hash256]) -> (out: Vec<Hash256>)
    ensures
        out@ == hashes@,
{
    let mut out: Vec<Hash256> = Vec::new();
    let mut i: usize = 0;
    while i < hashes.len()
        invariant
            i <= hashes.len(),
            out@ == hashes@.take(i as int),
        decreases hashes.len() - i,
    {
        out.push(hashes[i]);
        assert(out@ =~= hashes@.take(i + 1));
        i = i + 1;
    }
    assert(hashes@.take(i as int) =~= hashes@);
    out
}

/// The single level of a tree without leaves.
fn empty_levels() -> (levels: Vec<Vec<Hash256>>)
    ensures
        levels.len() == 1,
        is_tree(digest_rows(levels@)),
        digest_rows(levels@)[0] == first_row(Seq::<Seq<u8>>::empty()),
{
    let mut row: Vec<Hash256> = Vec::new();
    row.push(Hash256::zero());
    let mut levels: Vec<Vec<Hash256>> = Vec::new();
    levels.push(row);
    assert(digest_rows(levels@)[0] =~= seq![hash::zero_digest()]);
    levels
}

/// Merkle tree for verifiable transaction inclusion, built in parallel level by level.
#[derive(Clone, Debug)]
pub struct MerkleTree {
    /// All levels of the tree. levels[0] = leaves, levels[last] = root.
    levels: Vec<Vec<Hash256>>,
    /// Number of leaves, without padding.
    leaf_total: usize,
}

impl MerkleTree {
    /// The number of leaves that the tree was built from.
    pub closed spec fn leaves_given(&self) -> nat {
        self.leaf_total as nat
    }

    /// The rows of the tree, the leaves first and the root last.
    pub closed spec fn rows(&self) -> Seq<Seq<Seq<u8>>> {
        digest_rows(self.levels@)
    }

    /// Whether the rows make up a tree.
    pub open spec fn wf(&self) -> bool {
        is_tree(self.rows())
    }

    /// Build a Merkle tree from leaf hashes using parallel construction.
    pub fn from_leaves(leaves: Vec<Hash256>) -> (tree: Self)
        ensures
            tree.wf(),
            tree.rows()[0] == first_row(digests(leaves@)),
            tree.leaves_given() == leaves.len(),
    {
        if leaves.len() == 0 {
            assert(digests(leaves@) =~= Seq::<Seq<u8>>::empty());
            return MerkleTree { levels: empty_levels(), leaf_total: 0 };
        }
        let (levels, _real_lengths) = build_levels(&leaves);
        MerkleTree { levels, leaf_total: leaves.len() }
    }

    /// Get the Merkle root.
    pub fn root(&self) -> (r: Hash256)
        requires
            self.wf(),
        ensures
            r@ == row_root(self.rows()[0]),
            r@ == self.rows().last()[0],
    {
        proof {
            lemma_tree_root(self.rows(), 0);
        }
        let top: &Vec<Hash256> = &self.levels[self.levels.len() - 1];
        assert(self.rows().last() == digests(top@));
        top[0]
    }

    /// Number of leaves.
    pub fn leaf_count(&self) -> (n: usize)
        ensures
            n == self.leaves_given(),
    {
        self.leaf_total
    }

    /// Generate an inclusion proof for a leaf at the given index.
    pub fn proof_of(&self, index: usize) -> (r: Option<MerkleProof>)
        requires
            self.wf(),
        ensures
            match r {
                Some(p) => {
                    &&& index < self.rows()[0].len()
                    &&& is_proof_of(p, self.rows(), index as nat)
                    &&& proof_holds(p)
                },
                None => index >= self.rows()[0].len(),
            },
    {
        assert(self.rows()[0] == digests(self.levels@[0]@));
        if index >= self.levels[0].len() {
            return None;
        }
        let p: MerkleProof = proof_from_levels(&self.levels, index);
        proof {
            law_tree_proofs_hold(p, self.rows(), index as nat);
        }
        Some(p)
    }

    /// Verify a Merkle inclusion proof.
    pub fn verify_proof(p: &MerkleProof) -> (r: bool)
        ensures
            r == proof_holds(*p),
    {
        let mut current: Hash256 = p.leaf;
        let mut k: usize = 0;
        assert(p.siblings@.take(0) =~= Seq::<(Hash256, bool)>::empty());
        while k < p.siblings.len()
            invariant
                k <= p.siblings.len(),
                current@ == climb(p.leaf@, p.siblings@.take(k as int)),
            decreases p.siblings.len() - k,
        {
            let ghost part = p.siblings@.take(k + 1);
            assert(part.drop_last() =~= p.siblings@.take(k as int));
            let (sibling, is_left) = p.siblings[k];
            current = if is_left {
                hash_pair(&sibling, &current)
            } else {
                hash_pair(&current, &sibling)
            };
            k = k + 1;
        }
        assert(p.siblings@.take(k as int) =~= p.siblings@);
        current == p.root
    }
}

// ---------------------------------------------------------------------------
// Incremental trees
// ---------------------------------------------------------------------------

/// Persistent incremental Merkle tree: O(k log n) updates.
///
/// Maintains a sorted set of (key, leaf_hash) pairs and caches all tree
/// levels between calls.  When only existing leaves change, only the
/// affected paths from leaf to root are recomputed.  Structural changes
/// (inserts / deletes) call for a full O(n) rebuild.
pub struct IncrementalMerkle {
    /// Sorted keys (e.g. account addresses).
    keys: Vec<[u8; 32]>,
    /// Leaf hashes corresponding to `keys` (before padding).
    leaves: Vec<Hash256>,
    /// Cached tree levels.  `levels[0]` = leaf hashes (with padding),
    /// `levels[last]` = `[root]`.
    levels: Vec<Vec<Hash256>>,
    /// Number of *real* (non-padding) elements at each level.
    real_lengths: Vec<usize>,
}

/// Whether keys stand in strictly increasing lexicographic order.
pub open spec fn sorted_keys(keys: Seq<[u8; 32]>) -> bool {
    forall|i: int, j: int|
        0 <= i < j < keys.len() ==> encoding::lex_lt(#[trigger] keys[i]@, #[trigger] keys[j]@)
}

/// `row` with the entries at the dirty places below `n` taken from `fresh`.
pub open spec fn refreshed(
    row: Seq<Seq<u8>>,
    fresh: Seq<Seq<u8>>,
    dirty: Seq<usize>,
) -> Seq<Seq<u8>> {
    Seq::new(
        row.len(),
        |i: int|
            if exists|j: int| 0 <= j < dirty.len() && #[trigger] dirty[j] == i {
                fresh[i]
            } else {
                row[i]
            },
    )
}

pub proof fn lemma_sorted_unique(keys: Seq<[u8; 32]>, i: int, j: int)
    requires
        sorted_keys(keys),
        0 <= i < keys.len(),
        0 <= j < keys.len(),
        keys[i]@ == keys[j]@,
    ensures
        i == j,
{
    encoding::lemma_lex_irreflexive(keys[i]@);
    if i < j {
        assert(encoding::lex_lt(keys[i]@, keys[j]@));
    } else if j < i {
        assert(encoding::lex_lt(keys[j]@, keys[i]@));
    }
}

/// The place of a key in sorted keys, or the place at which it belongs.
pub(crate) fn search_key(keys: &Vec<[u8; 32]>, key: &[u8; 32]) -> (r: (usize, bool))
    requires
        sorted_keys(keys@),
    ensures
        r.0 <= keys.len(),
        r.1 ==> r.0 < keys.len() && keys@[r.0 as int]@ == key@,
        !r.1 ==> {
            &&& forall|i: int| 0 <= i < r.0 ==> encoding::lex_lt(#[trigger] keys@[i]@, key@)
            &&& forall|i: int|
                r.0 <= i < keys.len() ==> encoding::lex_lt(key@, #[trigger] keys@[i]@)
        },
{
    let mut lo: usize = 0;
    let mut hi: usize = keys.len();
    while lo < hi
        invariant
            sorted_keys(keys@),
            lo <= hi <= keys.len(),
            forall|i: int| 0 <= i < lo ==> encoding::lex_lt(#[trigger] keys@[i]@, key@),
            forall|i: int|
                hi <= i < keys.len() ==> encoding::lex_lt(key@, #[trigger] keys@[i]@),
        decreases hi - lo,
    {
        let mid: usize = lo + (hi - lo) / 2;
        if bytes_eq(&keys[mid], key) {
            return (mid, true);
        }
        if bytes_lt(&keys[mid], key) {
            assert forall|i: int| 0 <= i < mid + 1 implies encoding::lex_lt(
                #[trigger] keys@[i]@,
                key@,
            ) by {
                if i < mid {
                    assert(encoding::lex_lt(keys@[i]@, keys@[mid as int]@));
                    encoding::lemma_lex_transitive(keys@[i]@, keys@[mid as int]@, key@);
                }
            }
            lo = mid + 1;
        } else {
            assert forall|i: int| mid <= i < keys.len() implies encoding::lex_lt(
                key@,
                #[trigger] keys@[i]@,
            ) by {
                if mid < i {
                    assert(encoding::lex_lt(keys@[mid as int]@, keys@[i]@));
                    encoding::lemma_lex_transitive(key@, keys@[mid as int]@, keys@[i]@);
                }
            }
            hi = mid;
        }
    }
    (lo, false)
}

/// The rows above a first row.
pub open spec fn row_above(row: Seq<Seq<u8>>, k: nat) -> Seq<Seq<u8>>
    decreases k,
{
    if k == 0 {
        row
    } else {
        next_row(row_above(row, (k - 1) as nat))
    }
}

/// The rows of a tree are the rows above its first row.
proof fn lemma_rows_above(rows: Seq<Seq<Seq<u8>>>, k: nat)
    requires
        is_tree(rows),
        k < rows.len(),
    ensures
        rows[k as int] == row_above(rows[0], k),
    decreases k,
{
    if k > 0 {
        lemma_rows_above(rows, (k - 1) as nat);
        assert(linked(rows, k - 1));
    }
}

/// Rows above first rows of one length have one length.
proof fn lemma_row_lengths(a: Seq<Seq<u8>>, b: Seq<Seq<u8>>, k: nat)
    requires
        a.len() == b.len(),
    ensures
        row_above(a, k).len() == row_above(b, k).len(),
    decreases k,
{
    if k > 0 {
        lemma_row_lengths(a, b, (k - 1) as nat);
    }
}

/// Sets one hash of one level.
fn set_hash(levels: &mut Vec<Vec<Hash256>>, l: usize, i: usize, h: Hash256)
    requires
        l < old(levels).len(),
        i < old(levels)@[l as int].len(),
    ensures
        final(levels).len() == old(levels).len(),
        digest_rows(final(levels)@) == digest_rows(old(levels)@).update(
            l as int,
            digest_rows(old(levels)@)[l as int].update(i as int, h@),
        ),
{
    let ghost before = levels@;
    let row: &mut Vec<Hash256> = &mut levels[l];
    row[i] = h;
    assert(digests(levels@[l as int]@) =~= digests(before[l as int]@).update(i as int, h@));
    assert(digest_rows(levels@) =~= digest_rows(before).update(
        l as int,
        digest_rows(before)[l as int].update(i as int, h@),
    ));
}

/// Whether `i` is among `dirty`.
spec fn marked(dirty: Seq<usize>, i: int) -> bool {
    exists|j: int| 0 <= j < dirty.len() && #[trigger] dirty[j] == i
}

/// Where the first row of a tree changes, its place is among the marked ones.
proof fn lemma_first_row_marks(
    row: Seq<Seq<u8>>,
    cached: Seq<Seq<u8>>,
    leaves: Seq<Seq<u8>>,
    dirty: Seq<usize>,
    marks: Seq<usize>,
    n: nat,
)
    requires
        n > 0,
        cached.len() == n,
        row == padded(cached),
        dirty.len() <= marks.len(),
        forall|i: int| 0 <= i < dirty.len() ==> #[trigger] marks[i] == dirty[i],
        row.len() > n && marked(dirty, n - 1) ==> marked(marks, n as int),
    ensures
        forall|i: int|
            0 <= i < row.len() && !marked(marks, i) ==> #[trigger] padded(
                refreshed(cached, leaves, dirty),
            )[i] == row[i],
{
    let fresh = refreshed(cached, leaves, dirty);
    assert forall|i: int| 0 <= i < n && !marked(marks, i) implies #[trigger] fresh[i]
        == cached[i] by {
        if exists|j: int| 0 <= j < dirty.len() && #[trigger] dirty[j] == i {
            let j = choose|j: int| 0 <= j < dirty.len() && #[trigger] dirty[j] == i;
            assert(marks[j] == i);
        }
    }
    assert forall|i: int| 0 <= i < row.len() && !marked(marks, i) implies #[trigger] padded(
        fresh,
    )[i] == row[i] by {
        if i == n {
            assert(!marked(dirty, n - 1));
            assert(fresh[n - 1] == cached[n - 1]);
        } else {
            assert(fresh[i] == cached[i]);
        }
    }
}

impl IncrementalMerkle {
    /// The keys, in increasing order.
    pub closed spec fn key_list(&self) -> Seq<[u8; 32]> {
        self.keys@
    }

    /// The leaves, in the order of their keys.
    pub closed spec fn leaf_list(&self) -> Seq<Seq<u8>> {
        digests(self.leaves@)
    }

    /// The cached rows.
    pub closed spec fn rows(&self) -> Seq<Seq<Seq<u8>>> {
        digest_rows(self.levels@)
    }

    /// The number of hashes in the first cached row before padding.
    pub closed spec fn cached_len(&self) -> nat {
        self.real_lengths@[0] as nat
    }

    /// The keys are sorted, each has a leaf, and the cached rows make up a tree.
    pub closed spec fn wf(&self) -> bool {
        &&& sorted_keys(self.keys@)
        &&& self.keys.len() == self.leaves.len()
        &&& is_tree(self.rows())
        &&& real_lengths_of(self.rows(), self.real_lengths@, self.cached_len())
        &&& 0 < self.cached_len() <= self.rows()[0].len()
        &&& self.rows().len() > 1 ==> self.rows()[0] == padded(
            self.rows()[0].take(self.cached_len() as int),
        )
    }

    /// The leaves from which the cached rows are made.
    pub open spec fn cached_leaves(&self) -> Seq<Seq<u8>> {
        self.rows()[0].take(self.cached_len() as int)
    }

    /// Whether the cached rows have room for exactly the present leaves.
    pub open spec fn same_structure(&self) -> bool {
        &&& self.rows().len() > 1
        &&& self.cached_len() == self.leaf_list().len()
    }

    /// Whether the cached rows are those of the present leaves.
    pub open spec fn up_to_date(&self) -> bool {
        self.rows()[0] == first_row(self.leaf_list())
    }

    /// Create an empty tree.
    pub fn new() -> (tree: Self)
        ensures
            tree.wf(),
            tree.up_to_date(),
            tree.key_list() == Seq::<[u8; 32]>::empty(),
            tree.leaf_list() == Seq::<Seq<u8>>::empty(),
    {
        let mut real_lengths: Vec<usize> = Vec::new();
        real_lengths.push(1);
        let tree: IncrementalMerkle = IncrementalMerkle {
            keys: Vec::new(),
            leaves: Vec::new(),
            levels: empty_levels(),
            real_lengths,
        };
        assert(tree.leaf_list() =~= Seq::<Seq<u8>>::empty());
        tree
    }

    /// Update an existing leaf or insert a new one.
    ///
    /// Returns `(leaf_index, is_new_key)`.  If `is_new_key` is true the
    /// caller must call `rebuild` before reading the root.
    pub fn update(&mut self, key: [u8; 32], hash: Hash256) -> (r: (usize, bool))
        requires
            old(self).wf(),
        ensures
            final(self).wf(),
            final(self).rows() == old(self).rows(),
            final(self).cached_len() == old(self).cached_len(),
            sorted_keys(final(self).key_list()),
            r.1 == (forall|i: int|
                0 <= i < old(self).key_list().len() ==> #[trigger] old(self).key_list()[i]@
                    != key@),
            !r.1 ==> {
                &&& r.0 < old(self).key_list().len()
                &&& old(self).key_list()[r.0 as int]@ == key@
                &&& final(self).key_list() == old(self).key_list()
                &&& final(self).leaf_list() == old(self).leaf_list().update(r.0 as int, hash@)
            },
            r.1 ==> {
                &&& r.0 <= old(self).key_list().len()
                &&& final(self).key_list() == old(self).key_list().insert(r.0 as int, key)
                &&& final(self).leaf_list() == old(self).leaf_list().insert(r.0 as int, hash@)
            },
    {
        let ghost before = *self;
        let (idx, found) = search_key(&self.keys, &key);
        if found {
            self.leaves[idx] = hash;
            assert(before.key_list()[idx as int]@ == key@);
            assert(self.leaf_list() =~= before.leaf_list().update(idx as int, hash@));
            (idx, false)
        } else {
            self.keys.insert(idx, key);
            self.leaves.insert(idx, hash);
            proof {
                assert(self.leaf_list() =~= before.leaf_list().insert(idx as int, hash@));
                assert forall|i: int, j: int| 0 <= i < j < self.keys@.len() implies encoding::lex_lt(
                    #[trigger] self.keys@[i]@,
                    #[trigger] self.keys@[j]@,
                ) by {
                    let a = if i < idx {
                        i
                    } else {
                        i - 1
                    };
                    let b = if j < idx {
                        j
                    } else {
                        j - 1
                    };
                    if i != idx {
                        assert(self.keys@[i] == before.keys@[a]);
                    }
                    if j != idx {
                        assert(self.keys@[j] == before.keys@[b]);
                    }
                }
                assert forall|i: int| 0 <= i < before.keys@.len() implies #[trigger] before.keys@[i]@
                    != key@ by {
                    encoding::lemma_lex_irreflexive(key@);
                }
            }
            (idx, true)
        }
    }

    /// Remove a leaf by key.  Returns `true` if it existed.
    ///
    /// The caller must call `rebuild` after structural changes.
    pub fn remove(&mut self, key: &[u8; 32]) -> (r: bool)
        requires
            old(self).wf(),
        ensures
            final(self).wf(),
            final(self).rows() == old(self).rows(),
            final(self).cached_len() == old(self).cached_len(),
            r == (exists|i: int|
                0 <= i < old(self).key_list().len() && #[trigger] old(self).key_list()[i]@ == key@),
            r ==> exists|i: int|
                {
                    &&& 0 <= i < old(self).key_list().len()
                    &&& #[trigger] old(self).key_list()[i]@ == key@
                    &&& final(self).key_list() == old(self).key_list().remove(i)
                    &&& final(self).leaf_list() == old(self).leaf_list().remove(i)
                },
            !r ==> *final(self) == *old(self),
    {
        let ghost before = *self;
        let (idx, found) = search_key(&self.keys, key);
        if found {
            self.keys.remove(idx);
            self.leaves.remove(idx);
            proof {
                assert(before.key_list()[idx as int]@ == key@);
                assert(self.leaf_list() =~= before.leaf_list().remove(idx as int));
                assert forall|i: int, j: int| 0 <= i < j < self.keys@.len() implies encoding::lex_lt(
                    #[trigger] self.keys@[i]@,
                    #[trigger] self.keys@[j]@,
                ) by {
                    let a = if i < idx {
                        i
                    } else {
                        i + 1
                    };
                    let b = if j < idx {
                        j
                    } else {
                        j + 1
                    };
                    assert(self.keys@[i] == before.keys@[a]);
                    assert(self.keys@[j] == before.keys@[b]);
                }
            }
            true
        } else {
            assert forall|i: int| 0 <= i < before.keys@.len() implies #[trigger] before.keys@[i]@
                != key@ by {
                encoding::lemma_lex_irreflexive(key@);
            }
            false
        }
    }

    /// Full rebuild of the cached tree from the current leaves.  O(n).
    ///
    /// Matches the padding behaviour of `MerkleTree::from_leaves` exactly
    /// so the roots are identical for the same leaf sequence.
    pub fn rebuild(&mut self)
        requires
            old(self).wf(),
        ensures
            final(self).wf(),
            final(self).key_list() == old(self).key_list(),
            final(self).leaf_list() == old(self).leaf_list(),
            final(self).up_to_date(),
            final(self).leaf_list().len() > 0 ==> final(self).same_structure(),
    {
        if self.leaves.len() == 0 {
            let mut real_lengths: Vec<usize> = Vec::new();
            real_lengths.push(1);
            self.levels = empty_levels();
            self.real_lengths = real_lengths;
            assert(self.leaf_list() =~= Seq::<Seq<u8>>::empty());
            return ;
        }
        let (levels, real_lengths) = build_levels(&self.leaves);
        self.levels = levels;
        self.real_lengths = real_lengths;
        proof {
            let row = self.rows()[0];
            let leaves = self.leaf_list();
            assert(row.len() > 1);
            assert(row.take(leaves.len() as int) =~= leaves);
        }
    }

    /// Current Merkle root.  O(1).
    pub fn root(&self) -> (r: Hash256)
        requires
            self.wf(),
        ensures
            r@ == row_root(self.rows()[0]),
            self.up_to_date() ==> r@ == merkle_root(self.leaf_list()),
    {
        proof {
            lemma_tree_root(self.rows(), 0);
        }
        let top: &Vec<Hash256> = &self.levels[self.levels.len() - 1];
        assert(self.rows().last() == digests(top@));
        top[0]
    }

    /// Number of leaves (accounts).
    pub fn len(&self) -> (n: usize)
        ensures
            n == self.key_list().len(),
            self.wf() ==> n == self.leaf_list().len(),
    {
        self.keys.len()
    }

    /// Whether the tree is empty.
    pub fn is_empty(&self) -> (r: bool)
        ensures
            r == (self.key_list().len() == 0),
            self.wf() ==> r == (self.leaf_list().len() == 0),
    {
        self.keys.len() == 0
    }

    /// Look up a key's leaf index.
    pub fn get_index(&self, key: &[u8; 32]) -> (r: Option<usize>)
        requires
            self.wf(),
        ensures
            match r {
                Some(i) => i < self.key_list().len() && self.key_list()[i as int]@ == key@,
                None => forall|i: int|
                    0 <= i < self.key_list().len() ==> #[trigger] self.key_list()[i]@ != key@,
            },
    {
        let (idx, found) = search_key(&self.keys, key);
        if found {
            Some(idx)
        } else {
            assert forall|i: int| 0 <= i < self.keys@.len() implies #[trigger] self.keys@[i]@
                != key@ by {
                encoding::lemma_lex_irreflexive(key@);
            }
            None
        }
    }

    /// Generate a Merkle inclusion proof for the leaf at `index`.
    pub fn proof_of(&self, index: usize) -> (r: Option<MerkleProof>)
        requires
            self.wf(),
        ensures
            match r {
                Some(p) => {
                    &&& index < self.cached_len()
                    &&& is_proof_of(p, self.rows(), index as nat)
                    &&& proof_holds(p)
                },
                None => index >= self.cached_len(),
            },
    {
        assert(self.rows()[0] == digests(self.levels@[0]@));
        if index >= self.real_lengths[0] {
            return None;
        }
        let p: MerkleProof = proof_from_levels(&self.levels, index);
        proof {
            law_tree_proofs_hold(p, self.rows(), index as nat);
        }
        Some(p)
    }

    /// Copies the dirty leaves into the first cached row.
    fn refresh_first_row(&mut self, dirty: &[usize], n_real: usize)
        requires
            old(self).wf(),
            old(self).same_structure(),
            n_real == old(self).cached_len(),
        ensures
            final(self).keys == old(self).keys,
            final(self).leaves == old(self).leaves,
            final(self).real_lengths == old(self).real_lengths,
            final(self).levels.len() == old(self).levels.len(),
            final(self).rows() == old(self).rows().update(
                0,
                padded(refreshed(old(self).cached_leaves(), old(self).leaf_list(), dirty@)),
            ),
    {
        let ghost orig = *self;
        let ghost old_rows = self.rows();
        let ghost cached = self.cached_leaves();
        let ghost leaves = self.leaf_list();
        let ghost row = old_rows[0];
        assert(row == digests(self.levels@[0]@));
        let mut i: usize = 0;
        assert(refreshed(cached, leaves, dirty@.take(0)) =~= cached);
        assert(old_rows =~= old_rows.update(0, padded(cached)));
        while i < dirty.len()
            invariant
                i <= dirty.len(),
                orig.wf(),
                old_rows == orig.rows(),
                old_rows.len() > 1,
                row == old_rows[0],
                n_real == orig.cached_len(),
                n_real == orig.leaves.len(),
                0 < n_real <= row.len(),
                cached == orig.cached_leaves(),
                leaves == orig.leaf_list(),
                cached.len() == n_real,
                leaves.len() == n_real,
                row == padded(cached),
                self.keys == orig.keys,
                self.leaves == orig.leaves,
                self.real_lengths == orig.real_lengths,
                self.levels.len() == orig.levels.len(),
                self.rows() == old_rows.update(
                    0,
                    padded(refreshed(cached, leaves, dirty@.take(i as int))),
                ),
            decreases dirty.len() - i,
        {
            let idx: usize = dirty[i];
            let ghost now = refreshed(cached, leaves, dirty@.take(i as int));
            let ghost then_ = refreshed(cached, leaves, dirty@.take(i + 1));
            assert(self.rows()[0] == digests(self.levels@[0]@));
            proof {
                assert(dirty@.take(i + 1)[i as int] == idx);
                assert forall|k: int| 0 <= k < n_real implies #[trigger] then_[k] == if k == idx {
                    leaves[k]
                } else {
                    now[k]
                } by {
                    if k == idx {
                        assert(dirty@.take(i + 1)[i as int] == k);
                    } else if exists|j: int|
                        0 <= j < i && #[trigger] dirty@.take(i as int)[j] == k {
                        let j = choose|j: int|
                            0 <= j < i && #[trigger] dirty@.take(i as int)[j] == k;
                        assert(dirty@.take(i + 1)[j] == k);
                    } else {
                        assert forall|j: int|
                            0 <= j < i + 1 implies #[trigger] dirty@.take(i + 1)[j] != k by {
                            if j < i {
                                assert(dirty@.take(i as int)[j] != k);
                            }
                        }
                    }
                }
            }
            if idx < n_real {
                let leaf: Hash256 = self.leaves[idx];
                assert(leaf@ == leaves[idx as int]);
                assert(now.len() == n_real);
                assert(digests(self.levels@[0]@).len() == self.levels@[0].len());
                set_hash(&mut self.levels, 0, idx, leaf);
                if idx == n_real - 1 && self.levels[0].len() > n_real {
                    assert(self.rows()[0] == digests(self.levels@[0]@));
                    set_hash(&mut self.levels, 0, n_real, leaf);
                }
                assert(self.rows()[0] == digests(self.levels@[0]@));
                assert(self.rows()[0] =~= padded(then_));
            } else {
                assert(then_ =~= now);
            }
            assert(self.rows() =~= old_rows.update(0, padded(then_)));
            i = i + 1;
        }
        assert(dirty@.take(i as int) =~= dirty@);
    }

    /// Recomputes the parents of the dirty hashes of level `lv` and returns their places.
    fn refresh_row(&mut self, lv: usize, dirty: &Vec<usize>, Ghost(before): Ghost<
        Seq<Seq<u8>>,
    >) -> (up: Vec<usize>)
        requires
            lv < old(self).levels.len() - 1,
            old(self).rows().len() == old(self).levels.len(),
            old(self).real_lengths.len() == old(self).levels.len(),
            before.len() == old(self).rows()[lv as int].len(),
            before.len() % 2 == 0,
            before.len() > 1,
            old(self).real_lengths@[lv + 1] == before.len() / 2,
            old(self).rows()[lv + 1] == next_row(before),
            forall|i: int| 0 <= i < dirty.len() ==> #[trigger] dirty@[i] < before.len(),
            forall|i: int|
                0 <= i < before.len() && !marked(dirty@, i) ==> #[trigger] old(self).rows()[lv as int][i]
                    == before[i],
        ensures
            final(self).keys == old(self).keys,
            final(self).leaves == old(self).leaves,
            final(self).real_lengths == old(self).real_lengths,
            final(self).levels.len() == old(self).levels.len(),
            final(self).rows() == old(self).rows().update(
                lv + 1,
                next_row(old(self).rows()[lv as int]),
            ),
            forall|i: int| 0 <= i < up.len() ==> #[trigger] up@[i] < next_row(before).len(),
            forall|i: int|
                0 <= i < next_row(before).len() && !marked(up@, i) ==> #[trigger] next_row(
                    old(self).rows()[lv as int],
                )[i] == next_row(before)[i],
    {
        let ghost orig = *self;
        let ghost row = self.rows()[lv as int];
        let ghost above = next_row(before);
        let ghost want = next_row(row);
        let next_lv: usize = lv + 1;
        let next_real: usize = self.real_lengths[next_lv];
        let next_len: usize = self.levels[next_lv].len();
        assert(self.rows()[next_lv as int] == digests(self.levels@[next_lv as int]@));
        assert(row == digests(self.levels@[lv as int]@));
        let level_len: usize = self.levels[lv].len();
        let mut up: Vec<usize> = Vec::new();
        let mut last_dirty: bool = false;
        let mut i: usize = 0;
        assert(self.rows() =~= orig.rows().update(next_lv as int, self.rows()[next_lv as int]));
        while i < dirty.len()
            invariant
                i <= dirty.len(),
                lv + 1 == next_lv < orig.levels.len(),
                self.keys == orig.keys,
                self.leaves == orig.leaves,
                self.real_lengths == orig.real_lengths,
                self.levels.len() == orig.levels.len(),
                orig.rows().len() == orig.levels.len(),
                row == orig.rows()[lv as int],
                row.len() == level_len,
                before.len() == row.len(),
                before.len() % 2 == 0,
                before.len() > 1,
                above == next_row(before),
                want == next_row(row),
                next_real == before.len() / 2,
                next_len == above.len(),
                forall|i: int| 0 <= i < dirty.len() ==> #[trigger] dirty@[i] < before.len(),
                self.rows()[next_lv as int].len() == next_len,
                self.rows() == orig.rows().update(
                    next_lv as int,
                    self.rows()[next_lv as int],
                ),
                up.len() == i,
                forall|j: int| 0 <= j < i ==> #[trigger] up@[j] == dirty@[j] / 2,
                last_dirty == marked(up@, next_real - 1),
                forall|k: int|
                    0 <= k < next_real ==> #[trigger] self.rows()[next_lv as int][k] == if marked(
                        up@,
                        k,
                    ) {
                        want[k]
                    } else {
                        above[k]
                    },
                next_len > next_real ==> self.rows()[next_lv as int][next_real as int]
                    == self.rows()[next_lv as int][next_real - 1],
            decreases dirty.len() - i,
        {
            let ghost up0 = up@;
            let ghost row_up = self.rows()[next_lv as int];
            let parent_idx: usize = dirty[i] / 2;
            let left: usize = parent_idx * 2;
            let right: usize = left + 1;
            assert(self.rows()[lv as int] == row);
            assert(row == digests(self.levels@[lv as int]@));
            assert(row_up == digests(self.levels@[next_lv as int]@));
            let left_hash: Hash256 = self.levels[lv][left];
            let right_hash: Hash256 = if right < level_len {
                self.levels[lv][right]
            } else {
                left_hash
            };
            let parent: Hash256 = hash_pair(&left_hash, &right_hash);
            assert(parent@ == parents(row)[parent_idx as int]);
            assert(parent@ == want[parent_idx as int]);
            set_hash(&mut self.levels, next_lv, parent_idx, parent);
            if parent_idx == next_real - 1 && next_len > next_real {
                assert(self.rows()[next_lv as int] == digests(self.levels@[next_lv as int]@));
                set_hash(&mut self.levels, next_lv, next_real, parent);
            }
            up.push(parent_idx);
            if parent_idx == next_real - 1 {
                last_dirty = true;
            }
            proof {
                assert(up@[i as int] == parent_idx);
                assert forall|k: int| marked(up@, k) == (marked(up0, k) || k == parent_idx) by {
                    if marked(up0, k) {
                        let j = choose|j: int| 0 <= j < up0.len() && #[trigger] up0[j] == k;
                        assert(up@[j] == k);
                    }
                    if marked(up@, k) && k != parent_idx {
                        let j = choose|j: int| 0 <= j < up@.len() && #[trigger] up@[j] == k;
                        assert(up0[j] == k);
                    }
                }
                assert(self.rows() =~= orig.rows().update(
                    next_lv as int,
                    self.rows()[next_lv as int],
                ));
            }
            i = i + 1;
        }
        proof {
            // Where a parent is not marked, neither child is.
            assert forall|k: int| 0 <= k < next_real && !marked(up@, k) implies #[trigger] want[k]
                == above[k] by {
                assert forall|c: int| 2 * k <= c <= 2 * k + 1 implies !marked(dirty@, c) by {
                    if marked(dirty@, c) {
                        let j = choose|j: int| 0 <= j < dirty@.len() && #[trigger] dirty@[j] == c;
                        assert(up@[j] == dirty@[j] / 2);
                        assert(up@[j] == k);
                    }
                }
                assert(row[2 * k] == before[2 * k]);
                assert(row[2 * k + 1] == before[2 * k + 1]);
                assert(parents(row)[k] == parents(before)[k]);
            }
            let now = self.rows()[next_lv as int];
            assert forall|k: int| 0 <= k < next_real implies #[trigger] now[k] == want[k] by {
                if !marked(up@, k) {
                    assert(want[k] == above[k]);
                }
            }
            assert(want.len() == next_len);
            if next_len > next_real {
                assert(want[next_real as int] == want[next_real - 1]);
                assert(now[next_real as int] == now[next_real - 1]);
            }
            assert(now =~= want);
            assert(self.rows() =~= orig.rows().update(lv + 1, want));
        }
        let ghost up1 = up@;
        if next_real > 0 && next_len > next_real && last_dirty {
            up.push(next_real);
        }
        proof {
            assert forall|k: int| 0 <= k < above.len() && !marked(up@, k) implies #[trigger] want[k]
                == above[k] by {
                if marked(up1, k) {
                    let j = choose|j: int| 0 <= j < up1.len() && #[trigger] up1[j] == k;
                    assert(up@[j] == k);
                }
                if k == next_real {
                    if last_dirty {
                        assert(up@[up@.len() - 1] == k);
                    }
                    assert(!marked(up1, next_real - 1));
                    assert(want[next_real - 1] == above[next_real - 1]);
                }
            }
        }
        up
    }

    /// Recompute only the tree paths affected by changed leaf indices.
    /// O(k log n) for k changed leaves among n total.
    ///
    /// There must have been no structural changes (inserts/removes) since the
    /// last `rebuild`.  Call `rebuild()` first if the structure changed.
    pub fn recompute_paths(&mut self, dirty_indices: &[usize])
        requires
            old(self).wf(),
            dirty_indices.len() > 0 && old(self).leaf_list().len() > 0 ==> {
                &&& old(self).same_structure()
                &&& forall|i: int|
                    0 <= i < dirty_indices.len() ==> #[trigger] dirty_indices@[i] < old(
                        self,
                    ).rows()[0].len()
            },
        ensures
            final(self).wf(),
            final(self).key_list() == old(self).key_list(),
            final(self).leaf_list() == old(self).leaf_list(),
            final(self).cached_len() == old(self).cached_len(),
            dirty_indices.len() == 0 || old(self).leaf_list().len() == 0 ==> *final(self) == *old(
                self,
            ),
            dirty_indices.len() > 0 && old(self).leaf_list().len() > 0 ==> {
                &&& final(self).rows().len() == old(self).rows().len()
                &&& final(self).rows()[0] == padded(
                    refreshed(
                        old(self).cached_leaves(),
                        old(self).leaf_list(),
                        dirty_indices@,
                    ),
                )
            },
    {
        if dirty_indices.len() == 0 || self.leaves.len() == 0 {
            return ;
        }
        let ghost orig = *self;
        let ghost old_rows = self.rows();
        let ghost leaves = self.leaf_list();
        let ghost cached = refreshed(self.cached_leaves(), leaves, dirty_indices@);
        let ghost row0 = padded(cached);
        let n_real: usize = self.real_lengths[0];
        let mut dirty: Vec<usize> = Vec::new();
        assert(old_rows[0] == digests(self.levels@[0]@));
        assert(old_rows[0] == padded(old_rows[0].take(n_real as int)));
        self.refresh_first_row(dirty_indices, n_real);
        assert(self.rows()[0] =~= row0);
        let mut i: usize = 0;
        let mut last_dirty: bool = false;
        while i < dirty_indices.len()
            invariant
                i <= dirty_indices.len(),
                dirty@ == dirty_indices@.take(i as int),
                last_dirty == marked(dirty@, n_real - 1),
                n_real > 0,
            decreases dirty_indices.len() - i,
        {
            dirty.push(dirty_indices[i]);
            assert(dirty@ =~= dirty_indices@.take(i + 1));
            if dirty_indices[i] == n_real - 1 {
                last_dirty = true;
                assert(dirty@[i as int] == n_real - 1);
            } else {
                proof {
                    assert forall|j: int|
                        0 <= j < dirty@.len() && #[trigger] dirty@[j] == n_real - 1 implies last_dirty by {
                        assert(dirty_indices@.take(i as int)[j] == n_real - 1);
                    }
                    if last_dirty {
                        let j = choose|j: int|
                            0 <= j < i && #[trigger] dirty_indices@.take(i as int)[j] == n_real - 1;
                        assert(dirty@[j] == n_real - 1);
                    }
                }
            }
            i = i + 1;
        }
        assert(dirty@ =~= dirty_indices@);
        assert(self.rows()[0] == digests(self.levels@[0]@));
        if self.levels[0].len() > n_real && last_dirty {
            dirty.push(n_real);
            assert(dirty@[dirty@.len() - 1] == n_real);
        }
        proof {
            assert(marked(dirty_indices@, n_real - 1) == last_dirty);
            assert(row0.len() == old_rows[0].len());
            lemma_first_row_marks(
                old_rows[0],
                orig.cached_leaves(),
                leaves,
                dirty_indices@,
                dirty@,
                n_real as nat,
            );
        }
        let mut lv: usize = 0;
        while lv < self.levels.len() - 1
            invariant
                lv <= self.levels.len() - 1,
                self.keys == orig.keys,
                self.leaves == orig.leaves,
                self.real_lengths == orig.real_lengths,
                orig.wf(),
                old_rows == orig.rows(),
                self.levels.len() == orig.levels.len(),
                self.rows().len() == old_rows.len(),
                is_tree(old_rows),
                row0.len() == old_rows[0].len(),
                forall|k: int|
                    0 <= k <= lv ==> #[trigger] self.rows()[k] == row_above(row0, k as nat),
                forall|k: int| lv < k < old_rows.len() ==> #[trigger] self.rows()[k] == old_rows[k],
                forall|i: int|
                    0 <= i < dirty.len() ==> #[trigger] dirty@[i] < old_rows[lv as int].len(),
                forall|i: int|
                    0 <= i < old_rows[lv as int].len() && !marked(dirty@, i)
                        ==> #[trigger] row_above(row0, lv as nat)[i] == old_rows[lv as int][i],
            decreases self.levels.len() - lv,
        {
            proof {
                lemma_rows_above(old_rows, lv as nat);
                lemma_rows_above(old_rows, (lv + 1) as nat);
                lemma_row_lengths(row0, old_rows[0], lv as nat);
                lemma_row_lengths(row0, old_rows[0], (lv + 1) as nat);
                assert(linked(old_rows, lv as int));
                assert(self.rows()[lv as int] == row_above(row0, lv as nat));
                assert(self.rows()[lv + 1] == old_rows[lv + 1]);
            }
            dirty = self.refresh_row(lv, &dirty, Ghost(old_rows[lv as int]));
            lv = lv + 1;
        }
        proof {
            let rows = self.rows();
            assert forall|k: int| 0 <= k < rows.len() - 1 implies {
                &&& #[trigger] linked(rows, k)
                &&& rows[k].len() == old_rows[k].len()
            } by {
                lemma_rows_above(old_rows, k as nat);
                lemma_row_lengths(row0, old_rows[0], k as nat);
                assert(linked(old_rows, k));
                assert(rows[k] == row_above(row0, k as nat));
                assert(rows[k + 1] == row_above(row0, (k + 1) as nat));
            }
            let top = (rows.len() - 1) as nat;
            lemma_rows_above(old_rows, top);
            lemma_row_lengths(row0, old_rows[0], top);
            assert(rows[top as int] == row_above(row0, top));
            assert forall|k: int| 0 <= k < rows.len() - 1 implies self.real_lengths@[k + 1]
                == (#[trigger] rows[k]).len() / 2 by {
                assert(linked(rows, k));
                assert(old_rows[k].len() == rows[k].len());
            }
            assert(rows[0] == row_above(row0, 0));
            assert(row0.take(n_real as int) =~= cached);
        }
    }
}

/// An incremental tree that is up to date has the root that `MerkleTree::from_leaves` gives for
/// the same leaves.
pub proof fn law_incremental_root_is_full_root(im: IncrementalMerkle, tree: MerkleTree)
    requires
        im.wf(),
        im.up_to_date(),
        tree.wf(),
        tree.rows()[0] == first_row(im.leaf_list()),
    ensures
        row_root(im.rows()[0]) == row_root(tree.rows()[0]),
        row_root(im.rows()[0]) == merkle_root(im.leaf_list()),
{
}

/// Recomputing the paths of all the leaves that changed brings the cached rows up to date.
pub proof fn law_recomputing_changed_paths_suffices(
    cached: Seq<Seq<u8>>,
    leaves: Seq<Seq<u8>>,
    dirty: Seq<usize>,
)
    requires
        leaves.len() > 0,
        cached.len() == leaves.len(),
        forall|i: int|
            0 <= i < leaves.len() && cached[i] != leaves[i] ==> exists|j: int|
                0 <= j < dirty.len() && #[trigger] dirty[j] == i,
    ensures
        padded(refreshed(cached, leaves, dirty)) == first_row(leaves),
{
    assert(refreshed(cached, leaves, dirty) =~= leaves);
}

/// Inserting or replacing a leaf, and removing one, keep the keys sorted and so each key single.
pub proof fn law_keys_are_single(im: IncrementalMerkle, i: int, j: int)
    requires
        im.wf(),
        0 <= i < im.key_list().len(),
        0 <= j < im.key_list().len(),
        im.key_list()[i]@ == im.key_list()[j]@,
    ensures
        i == j,
{
    lemma_sorted_unique(im.key_list(), i, j);
}

/// The keys of an incremental tree are sorted, and every key has a leaf.
pub proof fn law_every_key_has_a_leaf(im: IncrementalMerkle)
    requires
        im.wf(),
    ensures
        sorted_keys(im.key_list()),
        im.key_list().len() == im.leaf_list().len(),
{
}

// ---------------------------------------------------------------------------
// What a root binds
// ---------------------------------------------------------------------------

/// Whether all byte strings of a row have the length of a digest.
pub open spec fn full_row(row: Seq<Seq<u8>>) -> bool {
    forall|i: int| 0 <= i < row.len() ==> (#[trigger] row[i]).len() == 32
}

/// Whether the digests of two different pairs at one place of two rows collide.
pub open spec fn pairs_collide(a: Seq<Seq<u8>>, b: Seq<Seq<u8>>) -> bool {
    exists|i: int|
        #![trigger a[2 * i]]
        0 <= i < a.len() / 2 && hash::collides(a[2 * i] + a[2 * i + 1], b[2 * i] + b[2 * i + 1])
}

/// Whether the digests of two different pairs at one place of two trees collide.
pub open spec fn trees_collide(a: Seq<Seq<u8>>, b: Seq<Seq<u8>>) -> bool
    decreases a.len(),
{
    a.len() > 1 && (pairs_collide(a, b) || trees_collide(next_row(a), next_row(b)))
}

/// The row above two rows of equal length is the same only where they are, pair by pair, unless
/// the digests of two pairs collide.
pub proof fn law_parents_bind_pairs(a: Seq<Seq<u8>>, b: Seq<Seq<u8>>)
    requires
        a.len() == b.len(),
        a.len() % 2 == 0,
        full_row(a),
        full_row(b),
        parents(a) == parents(b),
    ensures
        a == b || pairs_collide(a, b),
{
    if !pairs_collide(a, b) {
        assert forall|j: int| 0 <= j < a.len() implies a[j] == b[j] by {
            let i = j / 2;
            assert(parents(a)[i] == parents(b)[i]);
            assert(a[2 * i].len() == 32 && b[2 * i].len() == 32);
            hash::law_pair_digests_bind_both_parts(
                a[2 * i],
                a[2 * i + 1],
                b[2 * i],
                b[2 * i + 1],
            );
            assert(j == 2 * i || j == 2 * i + 1);
        }
        assert(a =~= b);
    }
}

proof fn lemma_padding_keeps(a: Seq<Seq<u8>>, b: Seq<Seq<u8>>)
    requires
        a.len() == b.len(),
        a.len() > 0,
        padded(a) == padded(b),
    ensures
        a == b,
{
    assert forall|i: int| 0 <= i < a.len() implies a[i] == b[i] by {
        assert(padded(a)[i] == a[i]);
        assert(padded(b)[i] == b[i]);
    }
    assert(a =~= b);
}

proof fn lemma_roots_bind_rows(a: Seq<Seq<u8>>, b: Seq<Seq<u8>>)
    requires
        hash::digests_have_32_bytes(),
        a.len() == b.len(),
        a.len() == 1 || (a.len() > 0 && a.len() % 2 == 0),
        full_row(a),
        full_row(b),
        row_root(a) == row_root(b),
    ensures
        a == b || trees_collide(a, b),
    decreases a.len(),
{
    if a.len() == 1 {
        assert(a =~= b);
    } else {
        let pa = parents(a);
        let pb = parents(b);
        assert(full_row(next_row(a))) by {
            assert forall|i: int| 0 <= i < next_row(a).len() implies (#[trigger] next_row(
                a,
            )[i]).len() == 32 by {
                let k = if i < pa.len() {
                    i
                } else {
                    i - 1
                };
                assert(next_row(a)[i] == pa[k]);
            }
        }
        assert(full_row(next_row(b))) by {
            assert forall|i: int| 0 <= i < next_row(b).len() implies (#[trigger] next_row(
                b,
            )[i]).len() == 32 by {
                let k = if i < pb.len() {
                    i
                } else {
                    i - 1
                };
                assert(next_row(b)[i] == pb[k]);
            }
        }
        lemma_roots_bind_rows(next_row(a), next_row(b));
        if next_row(a) == next_row(b) {
            if pa.len() > 1 {
                lemma_padding_keeps(pa, pb);
            }
            law_parents_bind_pairs(a, b);
        }
    }
}

/// A Merkle root binds its leaves: equally many leaves have the same root only where they are the
/// same, unless the digests of two pairs at one place of the trees collide.
pub proof fn law_roots_bind_leaves(a: Seq<Seq<u8>>, b: Seq<Seq<u8>>)
    requires
        hash::digests_have_32_bytes(),
        a.len() == b.len(),
        a.len() > 0,
        full_row(a),
        full_row(b),
        merkle_root(a) == merkle_root(b),
    ensures
        a == b || trees_collide(first_row(a), first_row(b)),
{
    assert(full_row(first_row(a))) by {
        assert forall|i: int| 0 <= i < first_row(a).len() implies (#[trigger] first_row(
            a,
        )[i]).len() == 32 by {
            assert(first_row(a)[i] == a[if i < a.len() { i } else { i - 1 }]);
        }
    }
    assert(full_row(first_row(b))) by {
        assert forall|i: int| 0 <= i < first_row(b).len() implies (#[trigger] first_row(
            b,
        )[i]).len() == 32 by {
            assert(first_row(b)[i] == b[if i < b.len() { i } else { i - 1 }]);
        }
    }
    lemma_roots_bind_rows(first_row(a), first_row(b));
    if first_row(a) == first_row(b) {
        lemma_padding_keeps(a, b);
    }
}

/// A Merkle proof binds its leaf: two proofs along the same siblings hold for one root only where
/// their leaves are the same, unless the digests of two pairs on the path collide.
pub proof fn law_proofs_bind_their_leaf(
    a: Seq<u8>,
    b: Seq<u8>,
    siblings: Seq<(Hash256, bool)>,
)
    requires
        hash::digests_have_32_bytes(),
        a.len() == 32,
        b.len() == 32,
        climb(a, siblings) == climb(b, siblings),
    ensures
        a == b || paths_collide(a, b, siblings),
    decreases siblings.len(),
{
    if siblings.len() > 0 {
        let (sibling, is_left) = siblings.last();
        let below = siblings.drop_last();
        let x = climb(a, below);
        let y = climb(b, below);
        assert(x.len() == 32 && y.len() == 32) by {
            lemma_climb_len(a, below);
            lemma_climb_len(b, below);
        }
        if is_left {
            hash::law_pair_digests_bind_both_parts(sibling@, x, sibling@, y);
        } else {
            hash::law_pair_digests_bind_both_parts(x, sibling@, y, sibling@);
        }
        if x == y {
            law_proofs_bind_their_leaf(a, b, below);
        }
    }
}

proof fn lemma_climb_len(start: Seq<u8>, siblings: Seq<(Hash256, bool)>)
    requires
        hash::digests_have_32_bytes(),
        start.len() == 32,
    ensures
        climb(start, siblings).len() == 32,
{
}

/// Whether the digests of two different pairs on one path from two leaves collide.
pub open spec fn paths_collide(a: Seq<u8>, b: Seq<u8>, siblings: Seq<(Hash256, bool)>) -> bool
    decreases siblings.len(),
{
    siblings.len() > 0 && ({
        let (sibling, is_left) = siblings.last();
        let x = climb(a, siblings.drop_last());
        let y = climb(b, siblings.drop_last());
        ||| is_left && hash::collides(sibling@ + x, sibling@ + y)
        ||| !is_left && hash::collides(x + sibling@, y + sibling@)
        ||| paths_collide(a, b, siblings.drop_last())
    })
}

/// Above a row stands the hash of each left and right neighbour; an odd number of hashes is filled
/// up by repeating the last, unless there is but one.
pub proof fn law_rows_repeat_their_last_hash(row: Seq<Seq<u8>>)
    requires
        row.len() > 1,
    ensures
        ({
            let above = next_row(row);
            let n = (row.len() / 2) as int;
            &&& forall|i: int|
                0 <= i < n ==> #[trigger] above[i] == hash::blake3_digest(
                    row[2 * i] + row[2 * i + 1],
                )
            &&& n == 1 || n % 2 == 0 ==> above.len() == n
            &&& n > 1 && n % 2 == 1 ==> above.len() == n + 1 && above[n] == above[n - 1]
        }),
{
}

/// An odd number of leaves has the root of the leaves with the last one repeated.
pub proof fn law_odd_leaves_repeat_the_last(leaves: Seq<Seq<u8>>)
    requires
        leaves.len() % 2 == 1,
    ensures
        merkle_root(leaves) == merkle_root(leaves.push(leaves.last())),
        merkle_root(Seq::empty()) == Seq::new(32, |i: int| 0u8),
{
    let more = leaves.push(leaves.last());
    assert(first_row(leaves) == more);
    assert(first_row(more) == more);
    assert(first_row(Seq::<Seq<u8>>::empty()) == seq![hash::zero_digest()]);
    assert(merkle_root(Seq::empty()) =~= Seq::new(32, |i: int| 0u8));
}

/// The root of two rows of one length, each a power of two, is the hash of their roots.
pub proof fn law_roots_of_halves_join(a: Seq<Seq<u8>>, b: Seq<Seq<u8>>, k: nat)
    requires
        a.len() == pow2(k),
        b.len() == pow2(k),
    ensures
        row_root(a + b) == hash::pair_digest(row_root(a), row_root(b)),
    decreases k,
{
    lemma2_to64();
    if k == 0 {
        let both = a + b;
        assert(parents(both) =~= seq![hash::pair_digest(a[0], b[0])]);
        assert(next_row(both) == parents(both));
        assert(row_root(next_row(both)) == parents(both)[0]);
    } else {
        lemma_pow2_unfold(k);
        lemma_pow2_pos((k - 1) as nat);
        let both = a + b;
        let h = pow2((k - 1) as nat);
        assert(parents(both) =~= parents(a) + parents(b)) by {
            assert forall|i: int| 0 <= i < parents(both).len() implies parents(both)[i] == (parents(
                a,
            ) + parents(b))[i] by {
                if i < h {
                    assert(both[2 * i] == a[2 * i] && both[2 * i + 1] == a[2 * i + 1]);
                } else {
                    assert(both[2 * i] == b[2 * (i - h)] && both[2 * i + 1] == b[2 * (i - h) + 1]);
                }
            }
        }
        if k > 1 {
            lemma_pow2_unfold((k - 1) as nat);
        }
        assert(next_row(a) == parents(a));
        assert(next_row(b) == parents(b));
        assert(next_row(both) == parents(both));
        law_roots_of_halves_join(parents(a), parents(b), (k - 1) as nat);
    }
}

} // verus!
