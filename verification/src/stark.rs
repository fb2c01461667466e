//! STARK proofs of blocks and their recursive aggregation.

use vstd::prelude::*;

use crate::clock;
use crate::encoding;
use crate::encoding::{
    bytes_eq, copy_bytes, decimal_text, first_32, push_bytes, push_joined, push_u32, push_u64,
    read_u32,
};
use crate::hash;
use crate::hash::{blake3_derive, blake3_hash, Hash256};
use crate::merkle;
use crate::merkle::MerkleTree;
use crate::stwo_air;
use crate::stwo_air::{
    prove_block, prove_recursive, verify_block_proof, verify_recursive_proof,
    RecursiveVerifierInput, StarkCommitments,
};

verus! {

// ---------------------------------------------------------------------------
// Inputs of the block prover
// ---------------------------------------------------------------------------

/// Witness data for a single transfer within a block.
///
/// All balance, amount and fee values must be below 2^47, so that the two limbs of each
/// value fit in the Mersenne-31 field.
#[derive(Debug)]
pub struct TransferWitness {
    /// Sender balance before the transfer.
    pub sender_bal_before: u64,
    /// Sender balance after the transfer (must equal sender_bal_before - amount - fee).
    pub sender_bal_after: u64,
    /// Receiver balance before the transfer.
    pub receiver_bal_before: u64,
    /// Receiver balance after the transfer (must equal receiver_bal_before + amount).
    pub receiver_bal_after: u64,
    /// Transfer amount.
    pub amount: u64,
    /// Sender nonce before the transfer.
    pub sender_nonce_before: u32,
    /// Sender nonce after the transfer (must equal sender_nonce_before + 1).
    pub sender_nonce_after: u32,
    /// Transaction fee paid by sender.
    pub fee: u64,
}

impl Clone for TransferWitness {
    fn clone(&self) -> (r: Self)
        ensures
            r == *self,
    {
        TransferWitness {
            sender_bal_before: self.sender_bal_before,
            sender_bal_after: self.sender_bal_after,
            receiver_bal_before: self.receiver_bal_before,
            receiver_bal_after: self.receiver_bal_after,
            amount: self.amount,
            sender_nonce_before: self.sender_nonce_before,
            sender_nonce_after: self.sender_nonce_after,
            fee: self.fee,
        }
    }
}

/// Input to the block prover.
#[derive(Debug, Clone)]
pub struct BlockProofInput {
    /// Height of the block.
    pub height: u64,
    /// Hash of the block.
    pub block_hash: [u8; 32],
    /// State root before the block.
    pub prev_state_root: [u8; 32],
    /// State root after the block.
    pub post_state_root: [u8; 32],
    /// Hashes of the transactions of the block.
    pub tx_hashes: Vec<[u8; 32]>,
    /// State diffs: (address, old_hash, new_hash).
    pub state_diffs: Vec<([u8; 32], [u8; 32], [u8; 32])>,
    /// Transfer witness data, one per transaction in the block. When empty, only the state
    /// diff constraints are enforced.
    pub transfers: Vec<TransferWitness>,
}

// ---------------------------------------------------------------------------
// Proofs
// ---------------------------------------------------------------------------

/// A STARK proof for a single block: applying the transactions of the block to
/// `prev_state_root` yields `post_state_root`. `proof_data` is the receipt of a circle STARK
/// or a hash-based stand-in.
#[derive(Debug)]
pub struct BlockProof {
    /// Height of the block.
    pub block_height: u64,
    /// Hash of the block.
    pub block_hash: [u8; 32],
    /// State root before the block.
    pub prev_state_root: [u8; 32],
    /// State root after the block.
    pub post_state_root: [u8; 32],
    /// Number of transactions.
    pub tx_count: u32,
    /// The proof itself.
    pub proof_data: Vec<u8>,
    /// Length of the proof.
    pub proof_size_bytes: usize,
    /// Proving time in milliseconds.
    pub proving_time_ms: u64,
    /// Hash by which the proof data is verified.
    pub verifier_hash: [u8; 32],
}

/// What a block proof holds.
pub struct BlockProofView {
    pub block_height: u64,
    pub block_hash: [u8; 32],
    pub prev_state_root: [u8; 32],
    pub post_state_root: [u8; 32],
    pub tx_count: u32,
    pub proof_data: Seq<u8>,
    pub proof_size_bytes: usize,
    pub proving_time_ms: u64,
    pub verifier_hash: [u8; 32],
}

impl View for BlockProof {
    type V = BlockProofView;

    open spec fn view(&self) -> BlockProofView {
        BlockProofView {
            block_height: self.block_height,
            block_hash: self.block_hash,
            prev_state_root: self.prev_state_root,
            post_state_root: self.post_state_root,
            tx_count: self.tx_count,
            proof_data: self.proof_data@,
            proof_size_bytes: self.proof_size_bytes,
            proving_time_ms: self.proving_time_ms,
            verifier_hash: self.verifier_hash,
        }
    }
}

impl Clone for BlockProof {
    fn clone(&self) -> (r: Self)
        ensures
            r@ == self@,
    {
        BlockProof {
            block_height: self.block_height,
            block_hash: self.block_hash,
            prev_state_root: self.prev_state_root,
            post_state_root: self.post_state_root,
            tx_count: self.tx_count,
            proof_data: copy_bytes(self.proof_data.as_slice()),
            proof_size_bytes: self.proof_size_bytes,
            proving_time_ms: self.proving_time_ms,
            verifier_hash: self.verifier_hash,
        }
    }
}

/// A recursive proof: it attests to block proofs, or to child recursive proofs.
///
/// `merkle_root` is the Merkle root over the hashes of the child proofs. It is also committed
/// inside `proof_data`; a verifier recomputes it from `child_proofs` and compares both.
#[derive(Debug)]
pub struct RecursiveProof {
    /// Height of the first block.
    pub start_height: u64,
    /// Height of the last block.
    pub end_height: u64,
    /// State root before the first block.
    pub start_state_root: [u8; 32],
    /// State root after the last block.
    pub end_state_root: [u8; 32],
    /// Number of blocks.
    pub block_count: u64,
    /// Number of transactions in all blocks.
    pub total_tx_count: u64,
    /// The proof itself.
    pub proof_data: Vec<u8>,
    /// Hashes of the child proofs.
    pub child_proofs: Vec<[u8; 32]>,
    /// Depth of recursion.
    pub depth: u32,
    /// Merkle root over the hashes of the child proofs.
    pub merkle_root: [u8; 32],
}

/// What a recursive proof holds.
pub struct RecursiveProofView {
    pub start_height: u64,
    pub end_height: u64,
    pub start_state_root: [u8; 32],
    pub end_state_root: [u8; 32],
    pub block_count: u64,
    pub total_tx_count: u64,
    pub proof_data: Seq<u8>,
    pub child_proofs: Seq<[u8; 32]>,
    pub depth: u32,
    pub merkle_root: [u8; 32],
}

impl View for RecursiveProof {
    type V = RecursiveProofView;

    open spec fn view(&self) -> RecursiveProofView {
        RecursiveProofView {
            start_height: self.start_height,
            end_height: self.end_height,
            start_state_root: self.start_state_root,
            end_state_root: self.end_state_root,
            block_count: self.block_count,
            total_tx_count: self.total_tx_count,
            proof_data: self.proof_data@,
            child_proofs: self.child_proofs@,
            depth: self.depth,
            merkle_root: self.merkle_root,
        }
    }
}

/// A copy of a list of digests.
fn copy_digests(items: &[[u8; 32]]) -> (out: Vec<[u8; 32]>)
    ensures
        out@ == items@,
{
    let mut out: Vec<[u8; 32]> = Vec::new();
    let mut i: usize = 0;
    while i < items.len()
        invariant
            i <= items.len(),
            out@ == items@.subrange(0, i as int),
        decreases items.len() - i,
    {
        out.push(items[i]);
        i = i + 1;
        assert(out@ =~= items@.subrange(0, i as int));
    }
    assert(out@ =~= items@);
    out
}

impl Clone for RecursiveProof {
    fn clone(&self) -> (r: Self)
        ensures
            r@ == self@,
    {
        RecursiveProof {
            start_height: self.start_height,
            end_height: self.end_height,
            start_state_root: self.start_state_root,
            end_state_root: self.end_state_root,
            block_count: self.block_count,
            total_tx_count: self.total_tx_count,
            proof_data: copy_bytes(self.proof_data.as_slice()),
            child_proofs: copy_digests(self.child_proofs.as_slice()),
            depth: self.depth,
            merkle_root: self.merkle_root,
        }
    }
}

/// Kinds of proofs in the pipeline.
#[derive(Debug, Clone, Copy, PartialEq, Eq, Structural)]
pub enum ProofType {
    /// Single block proof.
    Block,
    /// Recursive (multiple blocks).
    Recursive,
    /// Aggregation of recursive proofs.
    Aggregate,
    /// State diff proof.
    StateTransition,
}

/// Proof verification result.
#[derive(Debug, Clone)]
pub struct VerificationResult {
    /// Whether the proof is accepted.
    pub is_valid: bool,
    /// Kind of the proof.
    pub proof_type: ProofType,
    /// Verification time in milliseconds.
    pub verification_time_ms: u64,
    /// Why the proof is not accepted.
    pub error: Option<String>,
}

/// Whether a result accepts, or rejects with the given report.
pub open spec fn is_verdict(
    r: VerificationResult,
    kind: ProofType,
    valid: bool,
    report: Seq<char>,
) -> bool {
    &&& r.is_valid == valid
    &&& r.proof_type == kind
    &&& r.error is None == valid
    &&& r.error matches Some(text) ==> text@ == report
}

/// The milliseconds since a moment. They depend on the time alone, so that nothing is promised of
/// them.
fn millis_since(start: &std::time::Instant) -> (ms: u64) {
    let spent: std::time::Duration = clock::elapsed(start);
    clock::low_word(clock::as_millis(&spent))
}

// ---------------------------------------------------------------------------
// Stand-in proof data
// ---------------------------------------------------------------------------

/// Block `k` of the hash chain that a seed starts.
pub open spec fn chain_block(seed: Seq<u8>, k: nat) -> Seq<u8>
    decreases k,
{
    if k == 0 {
        hash::blake3_derived("ARC-stark-mock-proof-v1"@, seed)
    } else {
        hash::blake3_digest(chain_block(seed, (k - 1) as nat))
    }
}

/// The first `len` bytes of the hash chain that a seed starts.
pub open spec fn chain_bytes(seed: Seq<u8>, len: nat) -> Seq<u8> {
    Seq::new(len, |i: int| chain_block(seed, (i / 32) as nat)[i % 32])
}

/// Expands a seed to `target_len` bytes by iterated hashing.
fn build_mock_proof_data(seed: &[u8], target_len: usize) -> (out: Vec<u8>)
    requires
        target_len <= usize::MAX - 32,
    ensures
        out@ == chain_bytes(seed@, target_len as nat),
{
    let mut out: Vec<u8> = Vec::new();
    let mut block: [u8; 32] = blake3_derive("ARC-stark-mock-proof-v1", seed);
    let ghost mut k: nat = 0;
    while out.len() < target_len
        invariant
            target_len <= usize::MAX - 32,
            out@.len() == 32 * k,
            out@.len() < target_len + 32,
            block@ == chain_block(seed@, k),
            out@ == chain_bytes(seed@, 32 * k),
        decreases target_len + 32 - out@.len(),
    {
        let ghost before = out@;
        push_bytes(&mut out, &block);
        proof {
            let next = chain_bytes(seed@, 32 * (k + 1));
            assert forall|i: int| 0 <= i < 32 * (k + 1) implies out@[i] == next[i] by {
                if i < 32 * k {
                    assert(before[i] == chain_bytes(seed@, 32 * k)[i]);
                } else {
                    assert(i / 32 == k && i % 32 == i - 32 * k);
                }
            }
            assert(out@ =~= next);
            k = k + 1;
        }
        block = blake3_hash(&block);
    }
    out.truncate(target_len);
    assert(out@ =~= chain_bytes(seed@, target_len as nat));
    out
}

// ---------------------------------------------------------------------------
// Block proofs
// ---------------------------------------------------------------------------

/// The hash by which proof data is verified.
pub open spec fn verifier_digest(data: Seq<u8>) -> Seq<u8> {
    hash::blake3_derived("ARC-stark-verifier-v1"@, data)
}

/// Whether a block proof carries the verifier hash of its data.
pub open spec fn block_valid(p: BlockProofView) -> bool {
    verifier_digest(p.proof_data) == p.verifier_hash@
}

/// What a stand-in proof of a block is derived from.
pub open spec fn block_seed(input: BlockProofInput) -> Seq<u8> {
    input.block_hash@ + input.prev_state_root@ + input.post_state_root@ + encoding::le_bytes(
        input.height as nat,
        8,
    ) + encoding::joined(input.tx_hashes@, input.tx_hashes@.len())
}

/// Whether a proof is about a block: same height, hash, state roots and number of
/// transactions, and a size and a verifier hash that fit its data.
pub open spec fn is_about(p: BlockProofView, input: BlockProofInput) -> bool {
    &&& p.block_height == input.height
    &&& p.block_hash == input.block_hash
    &&& p.prev_state_root == input.prev_state_root
    &&& p.post_state_root == input.post_state_root
    &&& p.tx_count == input.tx_hashes@.len() as u32
    &&& p.proof_size_bytes == p.proof_data.len()
    &&& block_valid(p)
}

/// The hash of a block proof.
pub open spec fn block_proof_digest(p: BlockProofView) -> Seq<u8> {
    hash::blake3_derived("ARC-stark-proof-hash-v1"@, block_proof_input(p))
}

/// What the hash of a block proof covers.
pub open spec fn block_proof_input(p: BlockProofView) -> Seq<u8> {
    encoding::le_bytes(p.block_height as nat, 8) + p.block_hash@ + p.prev_state_root@
        + p.post_state_root@ + encoding::le_bytes(p.tx_count as nat, 4) + p.proof_data
}

impl BlockProof {
    /// Generates a proof for a block without the STARK prover: a stand-in proof. With it, the
    /// proof is made from the commitments that it hands back.
    pub fn prove(input: &BlockProofInput) -> (r: Self)
        ensures
            is_about(r@, *input),
            r.proof_data@ == chain_bytes(block_seed(*input), 256),
    {
        Self::mock_prove(input)
    }

    /// The proof of a block whose STARK commitments the prover has handed back.
    pub fn stwo_prove(input: &BlockProofInput, proved: &StarkCommitments) -> (r: Self)
        ensures
            is_about(r@, *input),
            r.proof_data@ == stwo_air::proof_bytes(
                *proved,
                stwo_air::log_size(stwo_air::block_height_rows(*input)) as u32,
                stwo_air::block_binding(*input, stwo_air::root_bytes(*proved)),
            ),
            proved.commitments@.len() <= u32::MAX ==> stwo_air::block_proof_valid(
                *input,
                r.proof_data@,
            ),
    {
        let start: std::time::Instant = clock::now();
        let (proof_data, proof_size_bytes, _time) = prove_block(input, proved, 0);
        let verifier_hash: [u8; 32] = blake3_derive(
            "ARC-stark-verifier-v1",
            proof_data.as_slice(),
        );
        let proving_time_ms: u64 = millis_since(&start);
        BlockProof {
            block_height: input.height,
            block_hash: input.block_hash,
            prev_state_root: input.prev_state_root,
            post_state_root: input.post_state_root,
            tx_count: input.tx_hashes.len() as u32,
            proof_data,
            proof_size_bytes,
            proving_time_ms,
            verifier_hash,
        }
    }

    /// Verifies the proof data as a STARK receipt that is bound to the block.
    pub fn stwo_verify(&self, input: &BlockProofInput) -> (r: VerificationResult)
        ensures
            is_verdict(
                r,
                ProofType::Block,
                stwo_air::block_proof_valid(*input, self.proof_data@),
                "Stwo proof receipt verification failed"@,
            ),
    {
        let start: std::time::Instant = clock::now();
        let is_valid: bool = verify_block_proof(input, self.proof_data.as_slice());
        let verification_time_ms: u64 = millis_since(&start);
        VerificationResult {
            is_valid,
            proof_type: ProofType::Block,
            verification_time_ms,
            error: if is_valid {
                None
            } else {
                Some("Stwo proof receipt verification failed".to_owned())
            },
        }
    }

    /// Generates a stand-in proof for a block, which is derived from the block data alone.
    pub fn mock_prove(input: &BlockProofInput) -> (r: Self)
        ensures
            is_about(r@, *input),
            r.proof_data@ == chain_bytes(block_seed(*input), 256),
    {
        let start: std::time::Instant = clock::now();
        let mut seed: Vec<u8> = Vec::new();
        push_bytes(&mut seed, &input.block_hash);
        push_bytes(&mut seed, &input.prev_state_root);
        push_bytes(&mut seed, &input.post_state_root);
        push_u64(&mut seed, input.height);
        push_joined(&mut seed, input.tx_hashes.as_slice());
        assert(seed@ =~= block_seed(*input));
        let proof_data: Vec<u8> = build_mock_proof_data(seed.as_slice(), 256);
        let proof_size_bytes: usize = proof_data.len();
        let verifier_hash: [u8; 32] = blake3_derive(
            "ARC-stark-verifier-v1",
            proof_data.as_slice(),
        );
        let proving_time_ms: u64 = millis_since(&start);
        BlockProof {
            block_height: input.height,
            block_hash: input.block_hash,
            prev_state_root: input.prev_state_root,
            post_state_root: input.post_state_root,
            tx_count: input.tx_hashes.len() as u32,
            proof_data,
            proof_size_bytes,
            proving_time_ms,
            verifier_hash,
        }
    }

    /// Verifies the proof: the verifier hash must be that of the proof data.
    pub fn verify(&self) -> (r: VerificationResult)
        ensures
            is_verdict(r, ProofType::Block, block_valid(self@), "verifier hash mismatch"@),
    {
        let start: std::time::Instant = clock::now();
        let expected: [u8; 32] = blake3_derive(
            "ARC-stark-verifier-v1",
            self.proof_data.as_slice(),
        );
        let is_valid: bool = bytes_eq(&expected, &self.verifier_hash);
        let verification_time_ms: u64 = millis_since(&start);
        VerificationResult {
            is_valid,
            proof_type: ProofType::Block,
            verification_time_ms,
            error: if is_valid {
                None
            } else {
                Some("verifier hash mismatch".to_owned())
            },
        }
    }

    /// The hash of the entire proof, by which it is identified.
    pub fn proof_hash(&self) -> (r: [u8; 32])
        ensures
            r@ == block_proof_digest(self@),
    {
        let mut data: Vec<u8> = Vec::new();
        push_u64(&mut data, self.block_height);
        push_bytes(&mut data, &self.block_hash);
        push_bytes(&mut data, &self.prev_state_root);
        push_bytes(&mut data, &self.post_state_root);
        push_u32(&mut data, self.tx_count);
        push_bytes(&mut data, self.proof_data.as_slice());
        assert(data@ =~= encoding::le_bytes(self.block_height as nat, 8) + self.block_hash@
            + self.prev_state_root@ + self.post_state_root@ + encoding::le_bytes(
            self.tx_count as nat,
            4,
        ) + self.proof_data@);
        blake3_derive("ARC-stark-proof-hash-v1", data.as_slice())
    }
}

/// The hash of a proof is reproducible: it depends on the block and the proof data alone, not
/// on how long proving took.
pub proof fn law_proof_hash_is_reproducible(
    a: BlockProofView,
    b: BlockProofView,
    input: BlockProofInput,
)
    requires
        is_about(a, input),
        is_about(b, input),
        a.proof_data == b.proof_data,
    ensures
        block_proof_digest(a) == block_proof_digest(b),
{
}

// ---------------------------------------------------------------------------
// Recursive proof data
// ---------------------------------------------------------------------------

/// Format version of recursive proof data.
pub const RECURSIVE_PROOF_VERSION: u32 = 1;

/// Length of the header of recursive proof data: version (4), Merkle root of the child hashes
/// (32), hash of the state roots (32), number of children (4).
pub const PROOF_DATA_HEADER_LEN: usize = 72;

/// Where the Merkle root begins in recursive proof data.
pub const PROOF_DATA_MERKLE_OFF: usize = 4;

/// Length of recursive proof data.
pub const PROOF_DATA_LEN: usize = 512;

/// Digests as byte strings.
pub open spec fn digest_list(items: Seq<[u8; 32]>) -> Seq<Seq<u8>> {
    items.map_values(|h: [u8; 32]| h@)
}

/// The Merkle root over child hashes.
pub open spec fn children_root(children: Seq<[u8; 32]>) -> Seq<u8> {
    merkle::merkle_root(digest_list(children))
}

/// The hash of two state roots.
pub open spec fn state_digest(start: Seq<u8>, end: Seq<u8>) -> Seq<u8> {
    hash::blake3_digest(start + end)
}

/// The proof data over child hashes and state roots.
pub open spec fn recursive_data(children: Seq<[u8; 32]>, start: Seq<u8>, end: Seq<u8>) -> Seq<
    u8,
> {
    encoding::le_bytes(1, 4) + children_root(children) + state_digest(start, end)
        + encoding::le_bytes((children.len() as u32) as nat, 4) + chain_bytes(
        recursive_seed(children, start, end),
        440,
    )
}

/// What the filling of recursive proof data is derived from: all child hashes and the state roots.
pub open spec fn recursive_seed(children: Seq<[u8; 32]>, start: Seq<u8>, end: Seq<u8>) -> Seq<u8> {
    encoding::joined(children, children.len()) + start + end
}

/// Computes the Merkle root over child hashes.
fn children_root_of(children: &[[u8; 32]]) -> (r: [u8; 32])
    ensures
        r@ == children_root(children@),
{
    let mut leaves: Vec<Hash256> = Vec::new();
    let mut i: usize = 0;
    while i < children.len()
        invariant
            i <= children.len(),
            leaves@.len() == i,
            forall|k: int| 0 <= k < i ==> (#[trigger] leaves@[k])@ == children@[k]@,
        decreases children.len() - i,
    {
        leaves.push(Hash256(children[i]));
        i = i + 1;
    }
    assert(merkle::digests(leaves@) =~= digest_list(children@));
    let tree: MerkleTree = MerkleTree::from_leaves(leaves);
    tree.root().0
}

/// Computes the hash of two state roots.
fn state_digest_of(start: &[u8; 32], end: &[u8; 32]) -> (r: [u8; 32])
    ensures
        r@ == state_digest(start@, end@),
{
    let mut data: Vec<u8> = Vec::new();
    push_bytes(&mut data, start);
    push_bytes(&mut data, end);
    assert(data@ =~= start@ + end@);
    blake3_hash(data.as_slice())
}

/// The version inside proof data.
pub open spec fn data_version(data: Seq<u8>) -> nat {
    encoding::le_value(data.subrange(0, 4))
}

/// The Merkle root inside proof data.
pub open spec fn data_root(data: Seq<u8>) -> Seq<u8> {
    data.subrange(4, 36)
}

/// The hash of the state roots inside proof data.
pub open spec fn data_state(data: Seq<u8>) -> Seq<u8> {
    data.subrange(36, 68)
}

/// The number of children inside proof data.
pub open spec fn data_count(data: Seq<u8>) -> nat {
    encoding::le_value(data.subrange(68, 72))
}

/// What recursive proof data holds.
proof fn lemma_recursive_data(children: Seq<[u8; 32]>, start: Seq<u8>, end: Seq<u8>)
    requires
        children_root(children).len() == 32,
        state_digest(start, end).len() == 32,
    ensures
        ({
            let data = recursive_data(children, start, end);
            &&& data.len() == 512
            &&& data_version(data) == 1
            &&& data_root(data) == children_root(children)
            &&& data_state(data) == state_digest(start, end)
            &&& data_count(data) == children.len() as u32
        }),
{
    let data = recursive_data(children, start, end);
    let count = children.len() as u32;
    encoding::lemma_le_bytes_len(1, 4);
    encoding::lemma_le_bytes_len(count as nat, 4);
    encoding::lemma_le_u32_roundtrip(1);
    encoding::lemma_le_u32_roundtrip(count);
    assert(data.subrange(0, 4) =~= encoding::le_bytes(1, 4));
    assert(data_root(data) =~= children_root(children));
    assert(data_state(data) =~= state_digest(start, end));
    assert(data.subrange(68, 72) =~= encoding::le_bytes(count as nat, 4));
}

/// Builds the proof data of a recursive proof, and the Merkle root that it commits to.
fn build_recursive_proof_data(
    child_hashes: &[[u8; 32]],
    start_state_root: &[u8; 32],
    end_state_root: &[u8; 32],
) -> (r: (Vec<u8>, [u8; 32]))
    ensures
        r.0@ == recursive_data(child_hashes@, start_state_root@, end_state_root@),
        r.1@ == children_root(child_hashes@),
        state_digest(start_state_root@, end_state_root@).len() == 32,
{
    let merkle_root: [u8; 32] = children_root_of(child_hashes);
    let state_hash: [u8; 32] = state_digest_of(start_state_root, end_state_root);
    let mut seed: Vec<u8> = Vec::new();
    push_joined(&mut seed, child_hashes);
    push_bytes(&mut seed, start_state_root);
    push_bytes(&mut seed, end_state_root);
    assert(seed@ =~= encoding::joined(child_hashes@, child_hashes@.len()) + start_state_root@
        + end_state_root@);
    let witness: Vec<u8> = build_mock_proof_data(
        seed.as_slice(),
        PROOF_DATA_LEN - PROOF_DATA_HEADER_LEN,
    );
    let mut data: Vec<u8> = Vec::new();
    push_u32(&mut data, RECURSIVE_PROOF_VERSION);
    push_bytes(&mut data, &merkle_root);
    push_bytes(&mut data, &state_hash);
    push_u32(&mut data, child_hashes.len() as u32);
    push_bytes(&mut data, witness.as_slice());
    assert(data@ =~= recursive_data(child_hashes@, start_state_root@, end_state_root@));
    (data, merkle_root)
}

/// The Merkle root inside proof data that is long enough.
pub fn extract_merkle_root(data: &[u8]) -> (r: Option<[u8; 32]>)
    ensures
        r is Some == (data@.len() >= 72),
        r matches Some(root) ==> root@ == data_root(data@),
{
    if data.len() < PROOF_DATA_HEADER_LEN {
        return None;
    }
    let root: [u8; 32] = first_32(vstd::slice::slice_subrange(data, PROOF_DATA_MERKLE_OFF, 36));
    assert(root@ =~= data_root(data@));
    Some(root)
}

/// The hash of the state roots inside proof data that is long enough.
pub fn extract_state_hash(data: &[u8]) -> (r: Option<[u8; 32]>)
    ensures
        r is Some == (data@.len() >= 72),
        r matches Some(h) ==> h@ == data_state(data@),
{
    if data.len() < PROOF_DATA_HEADER_LEN {
        return None;
    }
    let h: [u8; 32] = first_32(vstd::slice::slice_subrange(data, 36, 68));
    assert(h@ =~= data_state(data@));
    Some(h)
}

/// The number of children inside proof data that is long enough.
pub fn extract_child_count(data: &[u8]) -> (r: Option<u32>)
    ensures
        r is Some == (data@.len() >= 72),
        r matches Some(n) ==> n == data_count(data@),
{
    if data.len() < PROOF_DATA_HEADER_LEN {
        return None;
    }
    Some(read_u32(vstd::slice::slice_subrange(data, 68, 72)))
}

/// The version inside proof data that is long enough.
pub fn extract_version(data: &[u8]) -> (r: Option<u32>)
    ensures
        r is Some == (data@.len() >= 4),
        r matches Some(v) ==> v == data_version(data@),
{
    if data.len() < 4 {
        return None;
    }
    Some(read_u32(vstd::slice::slice_subrange(data, 0, 4)))
}

// ---------------------------------------------------------------------------
// Verification of recursive proofs
// ---------------------------------------------------------------------------

/// A list with a text where a fault is present.
pub open spec fn fault(present: bool, text: Seq<char>) -> Seq<Seq<char>> {
    if present {
        seq![text]
    } else {
        Seq::empty()
    }
}

/// The faults of a recursive proof that its fields show.
pub open spec fn shape_faults(p: RecursiveProofView) -> Seq<Seq<char>> {
    fault(p.start_height > p.end_height, "start_height > end_height"@) + fault(
        p.child_proofs.len() == 0,
        "no child proofs"@,
    ) + fault(p.proof_data.len() == 0, "empty proof data"@) + fault(
        p.block_count == 0,
        "block_count is zero"@,
    )
}

/// The faults that proof data with a full header shows: its version, the Merkle root over the
/// children, the hash of the state roots and the number of children are compared.
pub open spec fn header_faults(p: RecursiveProofView) -> Seq<Seq<char>> {
    let root = children_root(p.child_proofs);
    fault(
        data_version(p.proof_data) != 1,
        "unsupported proof_data version "@ + encoding::decimal(data_version(p.proof_data))
            + " (expected 1)"@,
    ) + fault(
        root != p.merkle_root@,
        "merkle_root field mismatch: child_proofs do not match struct merkle_root"@,
    ) + fault(
        root != data_root(p.proof_data),
        "Merkle root mismatch: child_proofs do not match committed root in proof_data"@,
    ) + fault(
        p.merkle_root@ != data_root(p.proof_data),
        "merkle_root field does not match committed root in proof_data"@,
    ) + fault(
        state_digest(p.start_state_root@, p.end_state_root@) != data_state(p.proof_data),
        "state hash mismatch: start/end state roots do not match committed hash"@,
    ) + fault(
        data_count(p.proof_data) != p.child_proofs.len(),
        "child count mismatch: proof_data says "@ + encoding::decimal(data_count(p.proof_data))
            + " but "@ + encoding::decimal(p.child_proofs.len()) + " child hashes present"@,
    )
}

/// All faults of a recursive proof.
pub open spec fn recursive_faults(p: RecursiveProofView) -> Seq<Seq<char>> {
    shape_faults(p) + if p.proof_data.len() >= 72 {
        header_faults(p)
    } else {
        fault(
            p.proof_data.len() > 0,
            "proof_data too short ("@ + encoding::decimal(p.proof_data.len())
                + " bytes, need at least 72)"@,
        )
    }
}

/// Whether a recursive proof has no faults.
pub open spec fn recursive_valid(p: RecursiveProofView) -> bool {
    recursive_faults(p).len() == 0
}

/// The first `n` texts of a list, with a separator between them.
pub open spec fn joined_texts(s: Seq<Seq<char>>, n: nat) -> Seq<char>
    decreases n,
{
    if n == 0 {
        Seq::empty()
    } else if n == 1 {
        s[0]
    } else {
        joined_texts(s, (n - 1) as nat) + "; "@ + s[n - 1]
    }
}

/// The texts of a list of strings.
pub open spec fn texts(v: Seq<String>) -> Seq<Seq<char>> {
    v.map_values(|s: String| s@)
}

/// Records a fault.
fn note(faults: &mut Vec<String>, present: bool, text: &str)
    ensures
        texts(final(faults)@) == texts(old(faults)@) + fault(present, text@),
{
    let ghost before = faults@;
    if present {
        faults.push(text.to_owned());
        assert(texts(faults@) =~= texts(before).push(text@));
    }
    assert(texts(faults@) =~= texts(before) + fault(present, text@));
}

/// Puts texts together.
fn join_texts(v: &Vec<String>) -> (s: String)
    ensures
        s@ == joined_texts(texts(v@), v@.len()),
{
    if v.len() == 0 {
        return String::new();
    }
    let mut s: String = v[0].as_str().to_owned();
    let mut i: usize = 1;
    assert(texts(v@)[0] == v@[0]@);
    while i < v.len()
        invariant
            1 <= i <= v@.len(),
            s@ == joined_texts(texts(v@), i as nat),
        decreases v@.len() - i,
    {
        assert(texts(v@)[i as int] == v@[i as int]@);
        s = s.concat("; ").concat(v[i].as_str());
        i = i + 1;
    }
    s
}

/// The hash of a recursive proof.
pub open spec fn recursive_proof_digest(p: RecursiveProofView) -> Seq<u8> {
    hash::blake3_derived("ARC-stark-recursive-hash-v1"@, recursive_proof_input(p))
}

/// What the hash of a recursive proof covers.
pub open spec fn recursive_proof_input(p: RecursiveProofView) -> Seq<u8> {
    encoding::le_bytes(p.start_height as nat, 8) + encoding::le_bytes(p.end_height as nat, 8)
        + p.start_state_root@ + p.end_state_root@ + encoding::le_bytes(p.block_count as nat, 8)
        + encoding::le_bytes(p.depth as nat, 4) + p.proof_data
}

impl RecursiveProof {
    /// Verifies the proof: its shape, the Merkle root over its children, the commitment to its
    /// state roots and the number of its children. All faults are reported.
    pub fn verify(&self) -> (r: VerificationResult)
        ensures
            is_verdict(
                r,
                if self.depth > 1 {
                    ProofType::Aggregate
                } else {
                    ProofType::Recursive
                },
                recursive_valid(self@),
                joined_texts(recursive_faults(self@), recursive_faults(self@).len()),
            ),
    {
        let start: std::time::Instant = clock::now();
        let mut faults: Vec<String> = Vec::new();
        assert(texts(faults@) =~= Seq::<Seq<char>>::empty());
        note(&mut faults, self.start_height > self.end_height, "start_height > end_height");
        note(&mut faults, self.child_proofs.len() == 0, "no child proofs");
        note(&mut faults, self.proof_data.len() == 0, "empty proof data");
        note(&mut faults, self.block_count == 0, "block_count is zero");
        assert(texts(faults@) =~= shape_faults(self@));
        self.check_data(&mut faults);
        let is_valid: bool = faults.len() == 0;
        assert(texts(faults@).len() == faults@.len());
        let verification_time_ms: u64 = millis_since(&start);
        VerificationResult {
            is_valid,
            proof_type: if self.depth > 1 {
                ProofType::Aggregate
            } else {
                ProofType::Recursive
            },
            verification_time_ms,
            error: if is_valid {
                None
            } else {
                Some(join_texts(&faults))
            },
        }
    }

    /// Checks the proof data.
    fn check_data(&self, faults: &mut Vec<String>)
        ensures
            texts(final(faults)@) == texts(old(faults)@) + if self.proof_data@.len() >= 72 {
                header_faults(self@)
            } else {
                fault(
                    self.proof_data@.len() > 0,
                    "proof_data too short ("@ + encoding::decimal(self.proof_data@.len())
                        + " bytes, need at least 72)"@,
                )
            },
    {
        let ghost before = texts(faults@);
        let data: &[u8] = self.proof_data.as_slice();
        if data.len() >= PROOF_DATA_HEADER_LEN {
            if let Some(version) = extract_version(data) {
                let v: String = decimal_text(version as u64);
                let text: String = "unsupported proof_data version ".to_owned().concat(
                    v.as_str(),
                ).concat(" (expected 1)");
                note(faults, version != RECURSIVE_PROOF_VERSION, text.as_str());
            }
            let root: [u8; 32] = children_root_of(self.child_proofs.as_slice());
            note(
                faults,
                !bytes_eq(&root, &self.merkle_root),
                "merkle_root field mismatch: child_proofs do not match struct merkle_root",
            );
            if let Some(committed) = extract_merkle_root(data) {
                note(
                    faults,
                    !bytes_eq(&root, &committed),
                    "Merkle root mismatch: child_proofs do not match committed root in proof_data",
                );
                note(
                    faults,
                    !bytes_eq(&self.merkle_root, &committed),
                    "merkle_root field does not match committed root in proof_data",
                );
            }
            let expected: [u8; 32] = state_digest_of(&self.start_state_root, &self.end_state_root);
            if let Some(committed) = extract_state_hash(data) {
                note(
                    faults,
                    !bytes_eq(&expected, &committed),
                    "state hash mismatch: start/end state roots do not match committed hash",
                );
            }
            if let Some(count) = extract_child_count(data) {
                let a: String = decimal_text(count as u64);
                let b: String = decimal_text(self.child_proofs.len() as u64);
                let text: String = "child count mismatch: proof_data says ".to_owned().concat(
                    a.as_str(),
                ).concat(" but ").concat(b.as_str()).concat(" child hashes present");
                note(faults, count as u64 != self.child_proofs.len() as u64, text.as_str());
            }
            assert(texts(faults@) =~= before + header_faults(self@));
        } else {
            let n: String = decimal_text(data.len() as u64);
            let text: String = "proof_data too short (".to_owned().concat(n.as_str()).concat(
                " bytes, need at least 72)",
            );
            note(faults, data.len() > 0, text.as_str());
        }
    }

    /// The hash of the recursive proof.
    pub fn proof_hash(&self) -> (r: [u8; 32])
        ensures
            r@ == recursive_proof_digest(self@),
    {
        let mut data: Vec<u8> = Vec::new();
        push_u64(&mut data, self.start_height);
        push_u64(&mut data, self.end_height);
        push_bytes(&mut data, &self.start_state_root);
        push_bytes(&mut data, &self.end_state_root);
        push_u64(&mut data, self.block_count);
        push_u32(&mut data, self.depth);
        push_bytes(&mut data, self.proof_data.as_slice());
        assert(data@ =~= encoding::le_bytes(self.start_height as nat, 8) + encoding::le_bytes(
            self.end_height as nat,
            8,
        ) + self.start_state_root@ + self.end_state_root@ + encoding::le_bytes(
            self.block_count as nat,
            8,
        ) + encoding::le_bytes(self.depth as nat, 4) + self.proof_data@);
        blake3_derive("ARC-stark-recursive-hash-v1", data.as_slice())
    }

    /// Whether this proof covers the given block height.
    pub fn spans_range(&self, height: u64) -> (r: bool)
        ensures
            r == (self.start_height <= height <= self.end_height),
    {
        height >= self.start_height && height <= self.end_height
    }
}

// ---------------------------------------------------------------------------
// Aggregation
// ---------------------------------------------------------------------------

/// What block proofs hold.
pub open spec fn block_views(proofs: Seq<BlockProof>) -> Seq<BlockProofView> {
    proofs.map_values(|p: BlockProof| p@)
}

/// What recursive proofs hold.
pub open spec fn recursive_views(proofs: Seq<RecursiveProof>) -> Seq<RecursiveProofView> {
    proofs.map_values(|p: RecursiveProof| p@)
}

/// The number of transactions of the first `n` block proofs.
pub open spec fn tx_total(proofs: Seq<BlockProofView>, n: nat) -> nat
    decreases n,
{
    if n == 0 {
        0
    } else {
        tx_total(proofs, (n - 1) as nat) + proofs[n - 1].tx_count as nat
    }
}

/// More proofs have no fewer transactions.
proof fn lemma_tx_total_grows(proofs: Seq<BlockProofView>, a: nat, b: nat)
    requires
        a <= b,
    ensures
        tx_total(proofs, a) <= tx_total(proofs, b),
    decreases b,
{
    if a < b {
        lemma_tx_total_grows(proofs, a, (b - 1) as nat);
    }
}

/// The report of a block proof that fails verification as a child.
pub open spec fn child_report(i: nat, height: nat, how: Seq<char>, error: Seq<char>) -> Seq<char> {
    "child block proof "@ + encoding::decimal(i) + " (height "@ + encoding::decimal(height)
        + ") failed "@ + how + ": "@ + error
}

/// Whether a recursive proof covers the given block proofs, from the first to the last, with
/// their hashes as its children; the proof data is left open.
pub open spec fn covers_blocks(p: RecursiveProofView, proofs: Seq<BlockProofView>) -> bool {
    &&& p.start_height == proofs[0].block_height
    &&& p.end_height == proofs.last().block_height
    &&& p.start_state_root == proofs[0].prev_state_root
    &&& p.end_state_root == proofs.last().post_state_root
    &&& p.block_count == proofs.len()
    &&& p.total_tx_count == tx_total(proofs, proofs.len())
    &&& p.child_proofs.len() == proofs.len()
    &&& forall|i: int|
        0 <= i < proofs.len() ==> (#[trigger] p.child_proofs[i])@ == block_proof_digest(proofs[i])
    &&& p.depth == 1
    &&& p.merkle_root@ == children_root(p.child_proofs)
}

/// Whether a recursive proof aggregates the given block proofs.
pub open spec fn aggregates_blocks(p: RecursiveProofView, proofs: Seq<BlockProofView>) -> bool {
    &&& covers_blocks(p, proofs)
    &&& p.proof_data == recursive_data(
        p.child_proofs,
        p.start_state_root@,
        p.end_state_root@,
    )
}

/// Whether block proof `i` is the first that does not carry the verifier hash of its data.
pub open spec fn first_invalid_block(proofs: Seq<BlockProofView>, i: int) -> bool {
    &&& 0 <= i < proofs.len()
    &&& !block_valid(proofs[i])
    &&& forall|k: int| 0 <= k < i ==> block_valid(#[trigger] proofs[k])
}

/// Whether block proof `i` is the first whose receipt is not bound to its block.
pub open spec fn first_unbound_block(
    proofs: Seq<BlockProofView>,
    inputs: Seq<BlockProofInput>,
    i: int,
) -> bool {
    &&& 0 <= i < proofs.len()
    &&& !stwo_air::block_proof_valid(inputs[i], proofs[i].proof_data)
    &&& forall|k: int|
        0 <= k < i ==> stwo_air::block_proof_valid(
            #[trigger] inputs[k],
            proofs[k].proof_data,
        )
}

/// Whether every block proof's receipt is bound to its block.
pub open spec fn all_bound(proofs: Seq<BlockProofView>, inputs: Seq<BlockProofInput>) -> bool {
    forall|k: int|
        0 <= k < proofs.len() ==> stwo_air::block_proof_valid(
            #[trigger] inputs[k],
            proofs[k].proof_data,
        )
}

/// The only fault that proof data over the children of a proof leaves possible is one of shape.
proof fn lemma_aggregate_faults(p: RecursiveProofView)
    requires
        0 < p.child_proofs.len() <= u32::MAX,
        p.block_count > 0,
        p.merkle_root@ == children_root(p.child_proofs),
        p.proof_data == recursive_data(p.child_proofs, p.start_state_root@, p.end_state_root@),
        state_digest(p.start_state_root@, p.end_state_root@).len() == 32,
    ensures
        recursive_faults(p) == fault(
            p.start_height > p.end_height,
            "start_height > end_height"@,
        ),
{
    lemma_recursive_data(p.child_proofs, p.start_state_root@, p.end_state_root@);
    assert(header_faults(p) =~= Seq::<Seq<char>>::empty());
    assert(recursive_faults(p) =~= fault(
        p.start_height > p.end_height,
        "start_height > end_height"@,
    ));
}

/// The text of `child_report`.
fn child_report_text(i: usize, height: u64, how: &str, error: &str) -> (s: String)
    ensures
        s@ == child_report(i as nat, height as nat, how@, error@),
{
    let a: String = decimal_text(i as u64);
    let b: String = decimal_text(height);
    "child block proof ".to_owned().concat(a.as_str()).concat(" (height ").concat(
        b.as_str(),
    ).concat(") failed ").concat(how).concat(": ").concat(error)
}

/// The text of a report on lists of different lengths.
pub open spec fn count_report(proofs: nat, inputs: nat) -> Seq<char> {
    "proof count ("@ + encoding::decimal(proofs) + ") does not match input count ("@
        + encoding::decimal(inputs) + ")"@
}

/// The text of `count_report`.
fn count_report_text(proofs: usize, inputs: usize) -> (s: String)
    ensures
        s@ == count_report(proofs as nat, inputs as nat),
{
    let a: String = decimal_text(proofs as u64);
    let b: String = decimal_text(inputs as u64);
    "proof count (".to_owned().concat(a.as_str()).concat(
        ") does not match input count (",
    ).concat(b.as_str()).concat(")")
}

/// The number of transactions in block proofs.
fn sum_transactions(proofs: &[BlockProof]) -> (n: u64)
    requires
        tx_total(block_views(proofs@), proofs@.len()) <= u64::MAX,
    ensures
        n == tx_total(block_views(proofs@), proofs@.len()),
{
    let mut n: u64 = 0;
    let mut i: usize = 0;
    while i < proofs.len()
        invariant
            i <= proofs.len(),
            tx_total(block_views(proofs@), proofs@.len()) <= u64::MAX,
            n == tx_total(block_views(proofs@), i as nat),
        decreases proofs.len() - i,
    {
        proof {
            lemma_tx_total_grows(block_views(proofs@), (i + 1) as nat, proofs@.len());
            assert(block_views(proofs@)[i as int] == proofs@[i as int]@);
        }
        n = n + proofs[i].tx_count as u64;
        i = i + 1;
    }
    n
}

/// The hashes of block proofs.
fn hash_blocks(proofs: &[BlockProof]) -> (hashes: Vec<[u8; 32]>)
    ensures
        hashes@.len() == proofs@.len(),
        forall|i: int|
            0 <= i < proofs@.len() ==> (#[trigger] hashes@[i])@ == block_proof_digest(
                block_views(proofs@)[i],
            ),
{
    let mut hashes: Vec<[u8; 32]> = Vec::new();
    let mut i: usize = 0;
    while i < proofs.len()
        invariant
            i <= proofs.len(),
            hashes@.len() == i,
            forall|k: int|
                0 <= k < i ==> (#[trigger] hashes@[k])@ == block_proof_digest(
                    block_views(proofs@)[k],
                ),
        decreases proofs.len() - i,
    {
        hashes.push(proofs[i].proof_hash());
        assert(block_views(proofs@)[i as int] == proofs@[i as int]@);
        i = i + 1;
    }
    hashes
}

/// The first block proof that is not bound to its block, as a report.
fn find_unbound(proofs: &[BlockProof], inputs: &[BlockProofInput]) -> (e: Option<String>)
    requires
        proofs@.len() == inputs@.len(),
    ensures
        match e {
            None => all_bound(block_views(proofs@), inputs@),
            Some(text) => exists|i: int| #[trigger]
                first_unbound_block(block_views(proofs@), inputs@, i) && text@ == child_report(
                    i as nat,
                    proofs@[i].block_height as nat,
                    "Stwo verification"@,
                    "Stwo proof receipt verification failed"@,
                ),
        },
{
    let ghost views = block_views(proofs@);
    let mut i: usize = 0;
    while i < proofs.len()
        invariant
            i <= proofs.len(),
            proofs@.len() == inputs@.len(),
            views == block_views(proofs@),
            forall|k: int|
                0 <= k < i ==> stwo_air::block_proof_valid(
                    #[trigger] inputs@[k],
                    views[k].proof_data,
                ),
        decreases proofs.len() - i,
    {
        let result: VerificationResult = proofs[i].stwo_verify(&inputs[i]);
        assert(views[i as int] == proofs@[i as int]@);
        if let Some(error) = result.error {
            assert(first_unbound_block(views, inputs@, i as int));
            return Some(
                child_report_text(i, proofs[i].block_height, "Stwo verification", error.as_str()),
            );
        }
        i = i + 1;
    }
    None
}

/// Puts together the recursive proof of verified block proofs.
fn aggregate(proofs: &[BlockProof]) -> (p: RecursiveProof)
    requires
        proofs@.len() > 0,
        tx_total(block_views(proofs@), proofs@.len()) <= u64::MAX,
    ensures
        aggregates_blocks(p@, block_views(proofs@)),
        proofs@.len() <= u32::MAX ==> recursive_faults(p@) == fault(
            p.start_height > p.end_height,
            "start_height > end_height"@,
        ),
{
    let last: usize = proofs.len() - 1;
    let total_tx_count: u64 = sum_transactions(proofs);
    let child_proofs: Vec<[u8; 32]> = hash_blocks(proofs);
    let (proof_data, merkle_root) = build_recursive_proof_data(
        child_proofs.as_slice(),
        &proofs[0].prev_state_root,
        &proofs[last].post_state_root,
    );
    assert(block_views(proofs@)[0] == proofs@[0]@);
    assert(block_views(proofs@).last() == proofs@[last as int]@);
    let p: RecursiveProof = RecursiveProof {
        start_height: proofs[0].block_height,
        end_height: proofs[last].block_height,
        start_state_root: proofs[0].prev_state_root,
        end_state_root: proofs[last].post_state_root,
        block_count: proofs.len() as u64,
        total_tx_count,
        proof_data,
        child_proofs,
        depth: 1,
        merkle_root,
    };
    proof {
        if proofs@.len() <= u32::MAX {
            lemma_aggregate_faults(p@);
        }
    }
    p
}

/// The number of blocks of the first `n` recursive proofs.
pub open spec fn block_total(proofs: Seq<RecursiveProofView>, n: nat) -> nat
    decreases n,
{
    if n == 0 {
        0
    } else {
        block_total(proofs, (n - 1) as nat) + proofs[n - 1].block_count as nat
    }
}

/// The number of transactions of the first `n` recursive proofs.
pub open spec fn deep_tx_total(proofs: Seq<RecursiveProofView>, n: nat) -> nat
    decreases n,
{
    if n == 0 {
        0
    } else {
        deep_tx_total(proofs, (n - 1) as nat) + proofs[n - 1].total_tx_count as nat
    }
}

/// The depth of the deepest of the first `n` recursive proofs.
pub open spec fn max_depth(proofs: Seq<RecursiveProofView>, n: nat) -> u32
    decreases n,
{
    if n == 0 {
        0
    } else if proofs[n - 1].depth > max_depth(proofs, (n - 1) as nat) {
        proofs[n - 1].depth
    } else {
        max_depth(proofs, (n - 1) as nat)
    }
}

/// More proofs have no fewer blocks and transactions, and are no less deep.
proof fn lemma_totals_grow(proofs: Seq<RecursiveProofView>, a: nat, b: nat)
    requires
        a <= b,
    ensures
        block_total(proofs, a) <= block_total(proofs, b),
        deep_tx_total(proofs, a) <= deep_tx_total(proofs, b),
    decreases b,
{
    if a < b {
        lemma_totals_grow(proofs, a, (b - 1) as nat);
    }
}

/// Whether a recursive proof aggregates the given recursive proofs, one level deeper.
pub open spec fn aggregates_recursive(
    p: RecursiveProofView,
    proofs: Seq<RecursiveProofView>,
) -> bool {
    &&& p.start_height == proofs[0].start_height
    &&& p.end_height == proofs.last().end_height
    &&& p.start_state_root == proofs[0].start_state_root
    &&& p.end_state_root == proofs.last().end_state_root
    &&& p.block_count == block_total(proofs, proofs.len())
    &&& p.total_tx_count == deep_tx_total(proofs, proofs.len())
    &&& p.child_proofs.len() == proofs.len()
    &&& forall|i: int|
        0 <= i < proofs.len() ==> (#[trigger] p.child_proofs[i])@ == recursive_proof_digest(
            proofs[i],
        )
    &&& p.depth == max_depth(proofs, proofs.len()) + 1
    &&& p.merkle_root@ == children_root(p.child_proofs)
    &&& p.proof_data == recursive_data(
        p.child_proofs,
        p.start_state_root@,
        p.end_state_root@,
    )
}

/// Whether recursive proof `i` is the first with faults.
pub open spec fn first_faulty(proofs: Seq<RecursiveProofView>, i: int) -> bool {
    &&& 0 <= i < proofs.len()
    &&& !recursive_valid(proofs[i])
    &&& forall|k: int| 0 <= k < i ==> recursive_valid(#[trigger] proofs[k])
}

/// The report of a recursive proof that fails verification as a child.
pub open spec fn deep_report(i: nat, p: RecursiveProofView) -> Seq<char> {
    "child recursive proof "@ + encoding::decimal(i) + " (heights "@ + encoding::decimal(
        p.start_height as nat,
    ) + ".."@ + encoding::decimal(p.end_height as nat) + ") failed verification: "@
        + joined_texts(recursive_faults(p), recursive_faults(p).len())
}

impl RecursiveProof {
    /// Aggregates block proofs into a recursive proof. Each of them is verified first; the
    /// first that fails is reported.
    pub fn from_block_proofs(proofs: &[BlockProof]) -> (r: Result<Self, String>)
        requires
            tx_total(block_views(proofs@), proofs@.len()) <= u64::MAX,
        ensures
            match r {
                Ok(p) => {
                    &&& proofs@.len() > 0
                    &&& forall|i: int|
                        0 <= i < proofs@.len() ==> block_valid(#[trigger] block_views(proofs@)[i])
                    &&& aggregates_blocks(p@, block_views(proofs@))
                    &&& proofs@.len() <= u32::MAX ==> recursive_faults(p@) == fault(
                        p.start_height > p.end_height,
                        "start_height > end_height"@,
                    )
                },
                Err(e) => if proofs@.len() == 0 {
                    e@ == "cannot create recursive proof from empty slice"@
                } else {
                    exists|i: int| #[trigger]
                        first_invalid_block(block_views(proofs@), i) && e@ == child_report(
                            i as nat,
                            proofs@[i].block_height as nat,
                            "verification"@,
                            "verifier hash mismatch"@,
                        )
                },
            },
    {
        if proofs.len() == 0 {
            return Err("cannot create recursive proof from empty slice".to_owned());
        }
        let ghost views = block_views(proofs@);
        let mut i: usize = 0;
        while i < proofs.len()
            invariant
                i <= proofs.len(),
                proofs@.len() > 0,
                views == block_views(proofs@),
                forall|k: int| 0 <= k < i ==> block_valid(#[trigger] views[k]),
            decreases proofs.len() - i,
        {
            let result: VerificationResult = proofs[i].verify();
            assert(views[i as int] == proofs@[i as int]@);
            if let Some(error) = result.error {
                assert(first_invalid_block(views, i as int));
                return Err(
                    child_report_text(i, proofs[i].block_height, "verification", error.as_str()),
                );
            }
            i = i + 1;
        }
        Ok(aggregate(proofs))
    }

    /// Aggregates block proofs whose receipts are verified against their blocks; the first
    /// that fails is reported.
    pub fn from_block_proofs_with_inputs(
        proofs: &[BlockProof],
        inputs: &[BlockProofInput],
    ) -> (r: Result<Self, String>)
        requires
            tx_total(block_views(proofs@), proofs@.len()) <= u64::MAX,
        ensures
            match r {
                Ok(p) => {
                    &&& proofs@.len() > 0
                    &&& proofs@.len() == inputs@.len()
                    &&& all_bound(block_views(proofs@), inputs@)
                    &&& aggregates_blocks(p@, block_views(proofs@))
                    &&& proofs@.len() <= u32::MAX ==> recursive_faults(p@) == fault(
                        p.start_height > p.end_height,
                        "start_height > end_height"@,
                    )
                },
                Err(e) => if proofs@.len() == 0 {
                    e@ == "cannot create recursive proof from empty slice"@
                } else if proofs@.len() != inputs@.len() {
                    e@ == count_report(proofs@.len(), inputs@.len())
                } else {
                    exists|i: int| #[trigger]
                        first_unbound_block(block_views(proofs@), inputs@, i) && e@
                            == child_report(
                            i as nat,
                            proofs@[i].block_height as nat,
                            "Stwo verification"@,
                            "Stwo proof receipt verification failed"@,
                        )
                },
            },
    {
        if proofs.len() == 0 {
            return Err("cannot create recursive proof from empty slice".to_owned());
        }
        if proofs.len() != inputs.len() {
            return Err(count_report_text(proofs.len(), inputs.len()));
        }
        if let Some(e) = find_unbound(proofs, inputs) {
            return Err(e);
        }
        Ok(aggregate(proofs))
    }

    /// Aggregates recursive proofs into a deeper one. Each of them is verified first; the first
    /// that fails is reported.
    pub fn from_recursive_proofs(proofs: &[RecursiveProof]) -> (r: Result<Self, String>)
        requires
            block_total(recursive_views(proofs@), proofs@.len()) <= u64::MAX,
            deep_tx_total(recursive_views(proofs@), proofs@.len()) <= u64::MAX,
            max_depth(recursive_views(proofs@), proofs@.len()) < u32::MAX,
        ensures
            match r {
                Ok(p) => {
                    &&& proofs@.len() > 0
                    &&& forall|i: int|
                        0 <= i < proofs@.len() ==> recursive_valid(
                            #[trigger] recursive_views(proofs@)[i],
                        )
                    &&& aggregates_recursive(p@, recursive_views(proofs@))
                    &&& proofs@.len() <= u32::MAX ==> recursive_faults(p@) == fault(
                        p.start_height > p.end_height,
                        "start_height > end_height"@,
                    )
                },
                Err(e) => if proofs@.len() == 0 {
                    e@ == "cannot create recursive proof from empty slice"@
                } else {
                    exists|i: int| #[trigger]
                        first_faulty(recursive_views(proofs@), i) && e@ == deep_report(
                            i as nat,
                            proofs@[i]@,
                        )
                },
            },
    {
        if proofs.len() == 0 {
            return Err("cannot create recursive proof from empty slice".to_owned());
        }
        let ghost views = recursive_views(proofs@);
        let mut i: usize = 0;
        while i < proofs.len()
            invariant
                i <= proofs.len(),
                proofs@.len() > 0,
                views == recursive_views(proofs@),
                forall|k: int| 0 <= k < i ==> recursive_valid(#[trigger] views[k]),
            decreases proofs.len() - i,
        {
            let result: VerificationResult = proofs[i].verify();
            assert(views[i as int] == proofs@[i as int]@);
            if let Some(error) = result.error {
                assert(first_faulty(views, i as int));
                let a: String = decimal_text(i as u64);
                let b: String = decimal_text(proofs[i].start_height);
                let c: String = decimal_text(proofs[i].end_height);
                return Err(
                    "child recursive proof ".to_owned().concat(a.as_str()).concat(
                        " (heights ",
                    ).concat(b.as_str()).concat("..").concat(c.as_str()).concat(
                        ") failed verification: ",
                    ).concat(error.as_str()),
                );
            }
            i = i + 1;
        }
        let mut block_count: u64 = 0;
        let mut total_tx_count: u64 = 0;
        let mut depth: u32 = 0;
        let mut child_proofs: Vec<[u8; 32]> = Vec::new();
        let mut j: usize = 0;
        while j < proofs.len()
            invariant
                j <= proofs.len(),
                views == recursive_views(proofs@),
                block_total(views, proofs@.len()) <= u64::MAX,
                deep_tx_total(views, proofs@.len()) <= u64::MAX,
                block_count == block_total(views, j as nat),
                total_tx_count == deep_tx_total(views, j as nat),
                depth == max_depth(views, j as nat),
                child_proofs@.len() == j,
                forall|k: int|
                    0 <= k < j ==> (#[trigger] child_proofs@[k])@ == recursive_proof_digest(
                        views[k],
                    ),
            decreases proofs.len() - j,
        {
            proof {
                lemma_totals_grow(views, (j + 1) as nat, proofs@.len());
                assert(views[j as int] == proofs@[j as int]@);
            }
            block_count = block_count + proofs[j].block_count;
            total_tx_count = total_tx_count + proofs[j].total_tx_count;
            if proofs[j].depth > depth {
                depth = proofs[j].depth;
            }
            child_proofs.push(proofs[j].proof_hash());
            j = j + 1;
        }
        let last: usize = proofs.len() - 1;
        let (proof_data, merkle_root) = build_recursive_proof_data(
            child_proofs.as_slice(),
            &proofs[0].start_state_root,
            &proofs[last].end_state_root,
        );
        assert(views[0] == proofs@[0]@);
        assert(views.last() == proofs@[last as int]@);
        let p: RecursiveProof = RecursiveProof {
            start_height: proofs[0].start_height,
            end_height: proofs[last].end_height,
            start_state_root: proofs[0].start_state_root,
            end_state_root: proofs[last].end_state_root,
            block_count,
            total_tx_count,
            proof_data,
            child_proofs,
            depth: depth + 1,
            merkle_root,
        };
        proof {
            if proofs@.len() <= u32::MAX {
                lemma_totals_grow(views, 1, proofs@.len());
                assert(recursive_valid(views[0]));
                assert(block_total(views, 1) == block_total(views, 0) + views[0].block_count);
                if views[0].block_count == 0 {
                    assert(recursive_faults(views[0]).len() >= 1);
                }
                lemma_aggregate_faults(p@);
            }
        }
        Ok(p)
    }
}

// ---------------------------------------------------------------------------
// Inner-circuit recursion
// ---------------------------------------------------------------------------

/// The state roots before the given blocks.
pub open spec fn start_states(proofs: Seq<BlockProofView>) -> Seq<[u8; 32]> {
    proofs.map_values(|p: BlockProofView| p.prev_state_root)
}

/// The state roots after the given blocks.
pub open spec fn end_states(proofs: Seq<BlockProofView>) -> Seq<[u8; 32]> {
    proofs.map_values(|p: BlockProofView| p.post_state_root)
}

/// Whether the recursive verifier is handed the given block proofs: their hashes, their state
/// roots, the Merkle root over the hashes, and one sibling each that is derived from that root.
pub open spec fn is_verifier_input(
    input: RecursiveVerifierInput,
    proofs: Seq<BlockProofView>,
) -> bool {
    &&& input.child_hashes@.len() == proofs.len()
    &&& forall|i: int|
        0 <= i < proofs.len() ==> (#[trigger] input.child_hashes@[i])@ == block_proof_digest(
            proofs[i],
        )
    &&& input.child_start_states@ == start_states(proofs)
    &&& input.child_end_states@ == end_states(proofs)
    &&& input.expected_merkle_root@ == children_root(input.child_hashes@)
    &&& input.merkle_siblings@.len() == proofs.len()
    &&& forall|i: int|
        0 <= i < proofs.len() ==> {
            &&& (#[trigger] input.merkle_siblings@[i])@.len() == 1
            &&& input.merkle_siblings@[i]@[0]@ == hash::blake3_derived(
                "ARC-merkle-sibling-v1"@,
                input.expected_merkle_root@,
            )
        }
}

/// The outcome of checking block proofs before they are proved recursively.
pub open spec fn inner_refusal(
    proofs: Seq<BlockProofView>,
    inputs: Seq<BlockProofInput>,
    e: Seq<char>,
) -> bool {
    if proofs.len() == 0 {
        e == "cannot create inner-circuit recursive proof from empty slice"@
    } else if proofs.len() != inputs.len() {
        e == count_report(proofs.len(), inputs.len())
    } else {
        exists|i: int| #[trigger]
            first_unbound_block(proofs, inputs, i) && e == child_report(
                i as nat,
                proofs[i].block_height as nat,
                "Stwo verification"@,
                "Stwo proof receipt verification failed"@,
            )
    }
}

/// Whether block proofs can be proved recursively.
pub open spec fn inner_ready(proofs: Seq<BlockProofView>, inputs: Seq<BlockProofInput>) -> bool {
    proofs.len() > 0 && proofs.len() == inputs.len() && all_bound(proofs, inputs)
}

impl RecursiveProof {
    /// Verifies block proofs against their blocks and prepares the input of the recursive
    /// verifier.
    pub fn inner_circuit_input(proofs: &[BlockProof], inputs: &[BlockProofInput]) -> (r: Result<
        RecursiveVerifierInput,
        String,
    >)
        ensures
            match r {
                Ok(v) => inner_ready(block_views(proofs@), inputs@) && is_verifier_input(
                    v,
                    block_views(proofs@),
                ),
                Err(e) => inner_refusal(block_views(proofs@), inputs@, e@),
            },
    {
        let ghost views = block_views(proofs@);
        if proofs.len() == 0 {
            return Err("cannot create inner-circuit recursive proof from empty slice".to_owned());
        }
        if proofs.len() != inputs.len() {
            return Err(count_report_text(proofs.len(), inputs.len()));
        }
        if let Some(e) = find_unbound(proofs, inputs) {
            proof {
                let i = choose|i: int| #[trigger]
                    first_unbound_block(views, inputs@, i) && e@ == child_report(
                        i as nat,
                        proofs@[i].block_height as nat,
                        "Stwo verification"@,
                        "Stwo proof receipt verification failed"@,
                    );
                assert(views[i] == proofs@[i]@);
                assert(first_unbound_block(views, inputs@, i));
            }
            return Err(e);
        }
        let child_hashes: Vec<[u8; 32]> = hash_blocks(proofs);
        let expected_merkle_root: [u8; 32] = children_root_of(child_hashes.as_slice());
        let sibling: [u8; 32] = blake3_derive("ARC-merkle-sibling-v1", &expected_merkle_root);
        let mut child_start_states: Vec<[u8; 32]> = Vec::new();
        let mut child_end_states: Vec<[u8; 32]> = Vec::new();
        let mut merkle_siblings: Vec<Vec<[u8; 32]>> = Vec::new();
        let mut i: usize = 0;
        while i < proofs.len()
            invariant
                i <= proofs.len(),
                views == block_views(proofs@),
                child_start_states@.len() == i,
                child_end_states@.len() == i,
                merkle_siblings@.len() == i,
                forall|k: int|
                    0 <= k < i ==> #[trigger] child_start_states@[k] == views[k].prev_state_root,
                forall|k: int|
                    0 <= k < i ==> #[trigger] child_end_states@[k] == views[k].post_state_root,
                forall|k: int|
                    0 <= k < i ==> {
                        &&& (#[trigger] merkle_siblings@[k])@.len() == 1
                        &&& merkle_siblings@[k]@[0]@ == sibling@
                    },
            decreases proofs.len() - i,
        {
            assert(views[i as int] == proofs@[i as int]@);
            child_start_states.push(proofs[i].prev_state_root);
            child_end_states.push(proofs[i].post_state_root);
            let mut path: Vec<[u8; 32]> = Vec::new();
            path.push(sibling);
            merkle_siblings.push(path);
            i = i + 1;
        }
        assert(child_start_states@ =~= start_states(views));
        assert(child_end_states@ =~= end_states(views));
        Ok(
            RecursiveVerifierInput {
                child_hashes,
                child_start_states,
                child_end_states,
                merkle_siblings,
                expected_merkle_root,
            },
        )
    }

    /// Aggregates block proofs with a STARK proof of their verification, whose commitments the
    /// prover has handed back. The receipt of that proof is the proof data.
    pub fn from_block_proofs_inner_circuit(
        proofs: &[BlockProof],
        inputs: &[BlockProofInput],
        proved: &StarkCommitments,
    ) -> (r: Result<Self, String>)
        requires
            tx_total(block_views(proofs@), proofs@.len()) <= u64::MAX,
            proved.commitments@.len() <= u32::MAX,
        ensures
            match r {
                Ok(p) => {
                    &&& inner_ready(block_views(proofs@), inputs@)
                    &&& covers_blocks(p@, block_views(proofs@))
                    &&& p.proof_data@ == stwo_air::proof_bytes(
                        *proved,
                        stwo_air::log_size(proofs@.len()) as u32,
                        stwo_air::children_binding(
                            p.merkle_root@,
                            p.child_proofs@,
                            start_states(block_views(proofs@)),
                            end_states(block_views(proofs@)),
                            stwo_air::root_bytes(*proved),
                        ),
                    )
                },
                Err(e) => inner_refusal(block_views(proofs@), inputs@, e@),
            },
    {
        let input: RecursiveVerifierInput = match Self::inner_circuit_input(proofs, inputs) {
            Ok(v) => v,
            Err(e) => {
                return Err(e);
            },
        };
        let last: usize = proofs.len() - 1;
        let total_tx_count: u64 = sum_transactions(proofs);
        let (proof_data, _size, _time) = prove_recursive(&input, proved, 0);
        if !verify_recursive_proof(&input, proof_data.as_slice()) {
            return Err("inner-circuit recursive proof failed inline verification".to_owned());
        }
        assert(block_views(proofs@)[0] == proofs@[0]@);
        assert(block_views(proofs@).last() == proofs@[last as int]@);
        Ok(
            RecursiveProof {
                start_height: proofs[0].block_height,
                end_height: proofs[last].block_height,
                start_state_root: proofs[0].prev_state_root,
                end_state_root: proofs[last].post_state_root,
                block_count: proofs.len() as u64,
                total_tx_count,
                proof_data,
                child_proofs: input.child_hashes,
                depth: 1,
                merkle_root: input.expected_merkle_root,
            },
        )
    }
}

// ---------------------------------------------------------------------------
// Prover configuration
// ---------------------------------------------------------------------------

/// Hash function used inside the proof circuit.
#[derive(Debug, Clone, Copy, PartialEq, Eq, Structural)]
pub enum ProofHashType {
    /// Poseidon: fast in-circuit, algebraic hash.
    Poseidon,
    /// BLAKE3: fast out-circuit, used for commitment hashing.
    Blake3,
    /// Keccak-256: EVM-compatible, used for bridge verification.
    Keccak256,
}

/// Prover configuration: security parameters and performance knobs.
#[derive(Debug, Clone, Copy)]
pub struct ProverConfig {
    /// Maximum number of constraints.
    pub max_constraints: u64,
    /// Field size in bits.
    pub field_size_bits: u32,
    /// Hash function used inside the proof circuit.
    pub hash_function: ProofHashType,
    /// Number of block proofs accumulated before generating a recursive proof.
    pub recursion_threshold: u32,
    /// Target proof size in bytes.
    pub target_proof_size: usize,
    /// Whether proving runs on a GPU.
    pub gpu_acceleration: bool,
}

impl ProverConfig {
    /// Default configuration without the STARK prover: balanced security and performance, over the
    /// Goldilocks field.
    pub fn default_config() -> (c: Self)
        ensures
            c == (ProverConfig {
                max_constraints: 1048576,
                field_size_bits: 64,
                hash_function: ProofHashType::Poseidon,
                recursion_threshold: 8,
                target_proof_size: 512,
                gpu_acceleration: false,
            }),
    {
        ProverConfig {
            max_constraints: 1048576,
            field_size_bits: 64,
            hash_function: ProofHashType::Poseidon,
            recursion_threshold: 8,
            target_proof_size: 512,
            gpu_acceleration: false,
        }
    }

    /// Default configuration with the STARK prover: balanced security and performance, over the
    /// Mersenne-31 field.
    pub fn stwo_config(gpu_acceleration: bool) -> (c: Self)
        ensures
            c == (ProverConfig {
                max_constraints: 1048576,
                field_size_bits: 31,
                hash_function: ProofHashType::Poseidon,
                recursion_threshold: 8,
                target_proof_size: 512,
                gpu_acceleration,
            }),
    {
        ProverConfig {
            max_constraints: 1048576,
            field_size_bits: 31,
            hash_function: ProofHashType::Poseidon,
            recursion_threshold: 8,
            target_proof_size: 512,
            gpu_acceleration,
        }
    }

    /// Fast configuration: lower security, faster proving (testnets).
    pub fn fast_config() -> (c: Self)
        ensures
            c == (ProverConfig {
                max_constraints: 65536,
                field_size_bits: 64,
                hash_function: ProofHashType::Blake3,
                recursion_threshold: 4,
                target_proof_size: 256,
                gpu_acceleration: false,
            }),
    {
        ProverConfig {
            max_constraints: 65536,
            field_size_bits: 64,
            hash_function: ProofHashType::Blake3,
            recursion_threshold: 4,
            target_proof_size: 256,
            gpu_acceleration: false,
        }
    }

    /// Production configuration: full security, larger proofs.
    pub fn production_config() -> (c: Self)
        ensures
            c == (ProverConfig {
                max_constraints: 4194304,
                field_size_bits: 64,
                hash_function: ProofHashType::Poseidon,
                recursion_threshold: 16,
                target_proof_size: 1024,
                gpu_acceleration: true,
            }),
    {
        ProverConfig {
            max_constraints: 4194304,
            field_size_bits: 64,
            hash_function: ProofHashType::Poseidon,
            recursion_threshold: 16,
            target_proof_size: 1024,
            gpu_acceleration: true,
        }
    }
}

// ---------------------------------------------------------------------------
// Proving pipeline
// ---------------------------------------------------------------------------

/// Proving statistics, tracked by the pipeline. Means and ratios are kept as the integers that
/// they are quotients of.
#[derive(Debug, Clone, Copy)]
pub struct ProvingStats {
    /// Number of blocks proven.
    pub blocks_proven: u64,
    /// Number of recursive proofs generated.
    pub recursive_proofs_generated: u64,
    /// Time spent proving, in milliseconds.
    pub total_proving_time_ms: u64,
    /// Time spent proving when the last block was proven; divided by `blocks_proven`, the mean
    /// time of a block proof.
    pub block_proof_time_sum_ms: u64,
    /// Time that the last recursive proof took, in milliseconds.
    pub last_recursive_proof_time_ms: u64,
    /// Bytes of all block proofs.
    pub total_proof_bytes: u64,
    /// Bytes of the block proofs of the last batch.
    pub batch_proof_bytes: usize,
    /// Raw bytes of the blocks of the last batch; the compression ratio is the quotient of
    /// `batch_proof_bytes` and this.
    pub batch_raw_bytes: usize,
}

/// The statistics before anything is proven.
pub open spec fn nothing_proven() -> ProvingStats {
    ProvingStats {
        blocks_proven: 0,
        recursive_proofs_generated: 0,
        total_proving_time_ms: 0,
        block_proof_time_sum_ms: 0,
        last_recursive_proof_time_ms: 0,
        total_proof_bytes: 0,
        batch_proof_bytes: 0,
        batch_raw_bytes: 0,
    }
}

impl Default for ProvingStats {
    fn default() -> (s: Self)
        ensures
            s == nothing_proven(),
    {
        ProvingStats {
            blocks_proven: 0,
            recursive_proofs_generated: 0,
            total_proving_time_ms: 0,
            block_proof_time_sum_ms: 0,
            last_recursive_proof_time_ms: 0,
            total_proof_bytes: 0,
            batch_proof_bytes: 0,
            batch_raw_bytes: 0,
        }
    }
}

/// The bytes of the first `n` block proofs.
pub open spec fn bytes_total(proofs: Seq<BlockProofView>, n: nat) -> nat
    decreases n,
{
    if n == 0 {
        0
    } else {
        bytes_total(proofs, (n - 1) as nat) + proofs[n - 1].proof_size_bytes as nat
    }
}

/// A time after the first `n` times are added to it, modulo 2^64.
pub open spec fn time_total(start: u64, times: Seq<u64>, n: nat) -> u64
    decreases n,
{
    if n == 0 {
        start
    } else {
        time_total(start, times, (n - 1) as nat).wrapping_add(times[n - 1])
    }
}

/// The statistics after blocks were proven, each in its time.
pub open spec fn stats_with(
    s: ProvingStats,
    inputs: Seq<BlockProofInput>,
    proofs: Seq<BlockProofView>,
    times: Seq<u64>,
) -> ProvingStats {
    let n = inputs.len();
    if n == 0 {
        s
    } else {
        ProvingStats {
            blocks_proven: (s.blocks_proven + n) as u64,
            total_proving_time_ms: time_total(s.total_proving_time_ms, times, n),
            block_proof_time_sum_ms: time_total(s.total_proving_time_ms, times, n),
            total_proof_bytes: (s.total_proof_bytes + bytes_total(proofs, n)) as u64,
            batch_proof_bytes: bytes_total(proofs, n) as usize,
            batch_raw_bytes: raw_total(inputs, n) as usize,
            ..s
        }
    }
}

/// More proofs have no fewer bytes.
proof fn lemma_bytes_total_grows(proofs: Seq<BlockProofView>, a: nat, b: nat)
    requires
        a <= b,
    ensures
        bytes_total(proofs, a) <= bytes_total(proofs, b),
    decreases b,
{
    if a < b {
        lemma_bytes_total_grows(proofs, a, (b - 1) as nat);
    }
}

/// The bytes of proofs of one size.
proof fn lemma_bytes_of_equals(proofs: Seq<BlockProofView>, size: usize, n: nat)
    requires
        n <= proofs.len(),
        forall|i: int| 0 <= i < n ==> (#[trigger] proofs[i]).proof_size_bytes == size,
    ensures
        bytes_total(proofs, n) == size * n,
    decreases n,
{
    if n > 0 {
        lemma_bytes_of_equals(proofs, size, (n - 1) as nat);
        assert(proofs[n - 1].proof_size_bytes == size);
        assert(size * (n - 1) + size == size * n) by (nonlinear_arith);
    } else {
        assert(size * n == 0) by (nonlinear_arith)
            requires
                n == 0,
        ;
    }
}

/// The raw size of a block: its hashes, transaction hashes and state diffs.
pub open spec fn raw_size(input: BlockProofInput) -> nat {
    104 + 32 * input.tx_hashes@.len() + 96 * input.state_diffs@.len()
}

/// The raw size of the first `n` blocks.
pub open spec fn raw_total(inputs: Seq<BlockProofInput>, n: nat) -> nat
    decreases n,
{
    if n == 0 {
        0
    } else {
        raw_total(inputs, (n - 1) as nat) + raw_size(inputs[n - 1])
    }
}

/// More blocks have no smaller raw size, and every block has at least the size of its hashes.
proof fn lemma_raw_total_grows(inputs: Seq<BlockProofInput>, a: nat, b: nat)
    requires
        a <= b,
    ensures
        raw_total(inputs, a) + 104 * (b - a) <= raw_total(inputs, b),
    decreases b,
{
    if a < b {
        lemma_raw_total_grows(inputs, a, (b - 1) as nat);
    }
}

/// Proving pipeline: batches blocks into proofs and recursively aggregates.
pub struct ProvingPipeline {
    config: ProverConfig,
    pending_blocks: Vec<BlockProofInput>,
    completed_proofs: Vec<BlockProof>,
    recursive_proofs: Vec<RecursiveProof>,
    stats: ProvingStats,
}

impl ProvingPipeline {
    /// The configuration.
    pub closed spec fn settings(&self) -> ProverConfig {
        self.config
    }

    /// The blocks that wait to be proven, oldest first.
    pub closed spec fn pending(&self) -> Seq<BlockProofInput> {
        self.pending_blocks@
    }

    /// The block proofs that wait to be aggregated, oldest first.
    pub closed spec fn completed(&self) -> Seq<BlockProofView> {
        block_views(self.completed_proofs@)
    }

    /// The recursive proofs, oldest first.
    pub closed spec fn recursive(&self) -> Seq<RecursiveProofView> {
        recursive_views(self.recursive_proofs@)
    }

    /// The statistics.
    pub closed spec fn totals(&self) -> ProvingStats {
        self.stats
    }

    /// Creates a pipeline.
    pub fn new(config: ProverConfig) -> (p: Self)
        ensures
            p.settings() == config,
            p.pending() == Seq::<BlockProofInput>::empty(),
            p.completed() == Seq::<BlockProofView>::empty(),
            p.recursive() == Seq::<RecursiveProofView>::empty(),
            p.totals() == nothing_proven(),
    {
        let p: ProvingPipeline = ProvingPipeline {
            config,
            pending_blocks: Vec::new(),
            completed_proofs: Vec::new(),
            recursive_proofs: Vec::new(),
            stats: ProvingStats::default(),
        };
        assert(p.completed() =~= Seq::<BlockProofView>::empty());
        assert(p.recursive() =~= Seq::<RecursiveProofView>::empty());
        p
    }

    /// Submits a block to the proving queue.
    pub fn submit_block(&mut self, input: BlockProofInput)
        ensures
            final(self).pending() == old(self).pending().push(input),
            final(self).settings() == old(self).settings(),
            final(self).completed() == old(self).completed(),
            final(self).recursive() == old(self).recursive(),
            final(self).totals() == old(self).totals(),
    {
        self.pending_blocks.push(input);
    }

    /// Hands out the pending blocks, oldest first, for proving elsewhere. None stays pending.
    pub fn take_pending(&mut self) -> (r: Vec<BlockProofInput>)
        ensures
            r@ == old(self).pending(),
            final(self).pending() == Seq::<BlockProofInput>::empty(),
            final(self).settings() == old(self).settings(),
            final(self).completed() == old(self).completed(),
            final(self).recursive() == old(self).recursive(),
            final(self).totals() == old(self).totals(),
    {
        let mut r: Vec<BlockProofInput> = Vec::new();
        std::mem::swap(&mut r, &mut self.pending_blocks);
        assert(self.pending() =~= Seq::<BlockProofInput>::empty());
        r
    }

    /// Appends the proofs of a batch of blocks to those that wait to be aggregated, and counts
    /// them, their bytes and the milliseconds that each of them took.
    pub fn accept_proofs(&mut self, inputs: &[BlockProofInput], proofs: &[BlockProof], times: &[u64])
        requires
            inputs.len() == proofs.len(),
            inputs.len() == times.len(),
            old(self).totals().blocks_proven + inputs.len() <= u64::MAX,
            old(self).totals().total_proof_bytes + bytes_total(
                block_views(proofs@),
                proofs@.len(),
            ) <= u64::MAX,
            bytes_total(block_views(proofs@), proofs@.len()) <= usize::MAX,
            raw_total(inputs@, inputs@.len()) <= usize::MAX,
        ensures
            final(self).completed() == old(self).completed() + block_views(proofs@),
            final(self).totals() == stats_with(
                old(self).totals(),
                inputs@,
                block_views(proofs@),
                times@,
            ),
            final(self).pending() == old(self).pending(),
            final(self).settings() == old(self).settings(),
            final(self).recursive() == old(self).recursive(),
    {
        let ghost before = self.completed_proofs@;
        let ghost views = block_views(proofs@);
        let mut time: u64 = self.stats.total_proving_time_ms;
        let mut bytes: usize = 0;
        let mut raw: usize = 0;
        let mut i: usize = 0;
        assert(block_views(self.completed_proofs@) =~= block_views(before) + views.take(0));
        while i < inputs.len()
            invariant
                i <= inputs.len(),
                inputs.len() == proofs.len(),
                inputs.len() == times.len(),
                views == block_views(proofs@),
                bytes_total(views, proofs@.len()) <= usize::MAX,
                raw_total(inputs@, inputs@.len()) <= usize::MAX,
                time == time_total(old(self).stats.total_proving_time_ms, times@, i as nat),
                bytes == bytes_total(views, i as nat),
                raw == raw_total(inputs@, i as nat),
                block_views(self.completed_proofs@) == block_views(before) + views.take(i as int),
                self.pending_blocks == old(self).pending_blocks,
                self.config == old(self).config,
                self.recursive_proofs == old(self).recursive_proofs,
                self.stats == old(self).stats,
            decreases inputs.len() - i,
        {
            proof {
                lemma_bytes_total_grows(views, (i + 1) as nat, proofs@.len());
                lemma_raw_total_grows(inputs@, (i + 1) as nat, inputs@.len());
                assert(raw_size(inputs@[i as int]) <= usize::MAX);
                assert(views[i as int] == proofs@[i as int]@);
            }
            time = time.wrapping_add(times[i]);
            bytes = bytes + proofs[i].proof_size_bytes;
            raw = raw + (104 + inputs[i].tx_hashes.len() * 32 + inputs[i].state_diffs.len() * 96);
            let ghost completed = self.completed_proofs@;
            self.completed_proofs.push(proofs[i].clone());
            assert(block_views(self.completed_proofs@) =~= block_views(completed).push(
                views[i as int],
            ));
            assert(block_views(self.completed_proofs@) =~= block_views(before) + views.take(
                i + 1,
            ));
            i = i + 1;
        }
        assert(views.take(i as int) =~= views);
        if i > 0 {
            self.stats.blocks_proven = self.stats.blocks_proven + i as u64;
            self.stats.total_proving_time_ms = time;
            self.stats.block_proof_time_sum_ms = time;
            self.stats.total_proof_bytes = self.stats.total_proof_bytes + bytes as u64;
            self.stats.batch_proof_bytes = bytes;
            self.stats.batch_raw_bytes = raw;
        }
    }

    /// Proves all pending blocks, in order, and appends the proofs to those that wait to be
    /// aggregated. Returns the new proofs. The times in the statistics are whatever the clock
    /// says, added modulo 2^64.
    pub fn prove_pending(&mut self) -> (r: Vec<BlockProof>)
        requires
            old(self).totals().blocks_proven + old(self).pending().len() <= u64::MAX,
            old(self).totals().total_proof_bytes + 256 * old(self).pending().len() <= u64::MAX,
            raw_total(old(self).pending(), old(self).pending().len()) <= usize::MAX,
            256 * old(self).pending().len() <= usize::MAX,
        ensures
            r@.len() == old(self).pending().len(),
            forall|i: int|
                0 <= i < r@.len() ==> {
                    &&& is_about((#[trigger] r@[i])@, old(self).pending()[i])
                    &&& r@[i].proof_data@ == chain_bytes(block_seed(old(self).pending()[i]), 256)
                },
            final(self).pending() == Seq::<BlockProofInput>::empty(),
            final(self).completed() == old(self).completed() + block_views(r@),
            final(self).settings() == old(self).settings(),
            final(self).recursive() == old(self).recursive(),
            final(self).totals().blocks_proven == old(self).totals().blocks_proven
                + old(self).pending().len(),
            final(self).totals().total_proof_bytes == old(self).totals().total_proof_bytes + 256
                * old(self).pending().len(),
            final(self).totals().recursive_proofs_generated == old(self).totals().recursive_proofs_generated,
            final(self).totals().last_recursive_proof_time_ms == old(self).totals().last_recursive_proof_time_ms,
            if old(self).pending().len() == 0 {
                final(self).totals() == old(self).totals()
            } else {
                &&& final(self).totals().block_proof_time_sum_ms == final(self).totals().total_proving_time_ms
                &&& final(self).totals().batch_proof_bytes == 256 * old(self).pending().len()
                &&& final(self).totals().batch_raw_bytes == raw_total(
                    old(self).pending(),
                    old(self).pending().len(),
                )
            },
    {
        let batch: Vec<BlockProofInput> = self.take_pending();
        let ghost inputs = batch@;
        let mut new_proofs: Vec<BlockProof> = Vec::new();
        let mut times: Vec<u64> = Vec::new();
        let mut i: usize = 0;
        while i < batch.len()
            invariant
                i <= batch@.len(),
                batch@ == inputs,
                new_proofs@.len() == i,
                times@.len() == i,
                forall|k: int|
                    0 <= k < i ==> {
                        &&& is_about((#[trigger] new_proofs@[k])@, inputs[k])
                        &&& new_proofs@[k].proof_data@ == chain_bytes(block_seed(inputs[k]), 256)
                        &&& new_proofs@[k].proof_size_bytes == 256
                    },
            decreases batch@.len() - i,
        {
            let start: std::time::Instant = clock::now();
            let p: BlockProof = BlockProof::prove(&batch[i]);
            let elapsed: u64 = millis_since(&start);
            new_proofs.push(p);
            times.push(elapsed);
            i = i + 1;
        }
        proof {
            let views = block_views(new_proofs@);
            assert forall|k: int| 0 <= k < views.len() implies (#[trigger] views[k]).proof_size_bytes
                == 256 by {
                assert(views[k] == new_proofs@[k]@);
            }
            lemma_bytes_of_equals(views, 256, views.len());
        }
        self.accept_proofs(batch.as_slice(), new_proofs.as_slice(), times.as_slice());
        new_proofs
    }

    /// Aggregates the oldest `recursion_threshold` waiting proofs, if there are so many. Where
    /// there are not, or one of them fails verification, nothing changes.
    pub fn try_recursive(&mut self) -> (r: Option<RecursiveProof>)
        requires
            old(self).totals().recursive_proofs_generated < u64::MAX,
            tx_total(old(self).completed(), old(self).completed().len()) <= u64::MAX,
        ensures
            ({
                let n = old(self).settings().recursion_threshold as int;
                let batch = old(self).completed().subrange(0, n);
                let ready = 0 < n <= old(self).completed().len() && forall|i: int|
                    0 <= i < n ==> block_valid(#[trigger] old(self).completed()[i]);
                &&& final(self).settings() == old(self).settings()
                &&& final(self).pending() == old(self).pending()
                &&& r is Some == ready
                &&& match r {
                    None => {
                        &&& final(self).completed() == old(self).completed()
                        &&& final(self).recursive() == old(self).recursive()
                        &&& final(self).totals() == old(self).totals()
                    },
                    Some(p) => {
                        &&& aggregates_blocks(p@, batch)
                        &&& recursive_faults(p@) == fault(
                            p.start_height > p.end_height,
                            "start_height > end_height"@,
                        )
                        &&& final(self).completed() == old(self).completed().subrange(
                            n,
                            old(self).completed().len() as int,
                        )
                        &&& final(self).recursive() == old(self).recursive().push(p@)
                        &&& final(self).totals().recursive_proofs_generated == old(self).totals().recursive_proofs_generated + 1
                        &&& final(self).totals().blocks_proven == old(self).totals().blocks_proven
                        &&& final(self).totals().total_proof_bytes == old(self).totals().total_proof_bytes
                        &&& final(self).totals().block_proof_time_sum_ms == old(self).totals().block_proof_time_sum_ms
                        &&& final(self).totals().batch_proof_bytes == old(self).totals().batch_proof_bytes
                        &&& final(self).totals().batch_raw_bytes == old(self).totals().batch_raw_bytes
                        &&& final(self).totals().total_proving_time_ms == old(self).totals().total_proving_time_ms.wrapping_add(
                            final(self).totals().last_recursive_proof_time_ms,
                        )
                    },
                }
            }),
    {
        let threshold: usize = self.config.recursion_threshold as usize;
        if self.completed_proofs.len() < threshold {
            return None;
        }
        let start: std::time::Instant = clock::now();
        let ghost all = self.completed_proofs@;
        let ghost views = block_views(all);
        let ghost n = threshold as int;
        let batch: &[BlockProof] = vstd::slice::slice_subrange(
            self.completed_proofs.as_slice(),
            0,
            threshold,
        );
        proof {
            assert(block_views(batch@) =~= views.subrange(0, n));
            lemma_tx_total_prefix(views, views.subrange(0, n), n as nat);
            lemma_tx_total_grows(views, n as nat, views.len());
            assert forall|i: int| 0 <= i < n implies views[i] == #[trigger] block_views(
                batch@,
            )[i] by {}
        }
        let recursive: RecursiveProof = match RecursiveProof::from_block_proofs(batch) {
            Ok(p) => p,
            Err(_) => {
                proof {
                    if n > 0 {
                        let i = choose|i: int| #[trigger]
                            first_invalid_block(block_views(batch@), i);
                        assert(!block_valid(views[i]));
                    }
                }
                return None;
            },
        };
        proof {
            assert forall|i: int| 0 <= i < n implies block_valid(#[trigger] views[i]) by {
                assert(block_views(batch@)[i] == views[i]);
            }
        }
        let elapsed: u64 = millis_since(&start);
        self.stats.recursive_proofs_generated = self.stats.recursive_proofs_generated + 1;
        self.stats.total_proving_time_ms = self.stats.total_proving_time_ms.wrapping_add(elapsed);
        self.stats.last_recursive_proof_time_ms = elapsed;
        let rest: Vec<BlockProof> = self.completed_proofs.split_off(threshold);
        self.completed_proofs = rest;
        let ghost older = self.recursive_proofs@;
        self.recursive_proofs.push(recursive.clone());
        assert(block_views(self.completed_proofs@) =~= views.subrange(n, views.len() as int));
        assert(recursive_views(self.recursive_proofs@) =~= recursive_views(older).push(
            recursive@,
        ));
        Some(recursive)
    }

    /// The latest recursive proof, if any.
    pub fn latest_recursive_proof(&self) -> (r: Option<&RecursiveProof>)
        ensures
            r is Some == (self.recursive().len() > 0),
            r matches Some(p) ==> p@ == self.recursive().last(),
    {
        if self.recursive_proofs.len() == 0 {
            None
        } else {
            Some(&self.recursive_proofs[self.recursive_proofs.len() - 1])
        }
    }

    /// The proving statistics.
    pub fn stats(&self) -> (r: &ProvingStats)
        ensures
            *r == self.totals(),
    {
        &self.stats
    }

    /// How many blocks are pending.
    pub fn pending_count(&self) -> (n: usize)
        ensures
            n == self.pending().len(),
    {
        self.pending_blocks.len()
    }

    /// How many proven blocks wait to be recursively aggregated.
    pub fn blocks_behind(&self) -> (n: u64)
        ensures
            n == self.completed().len(),
    {
        self.completed_proofs.len() as u64
    }
}

/// A total depends on the proofs that it counts alone.
proof fn lemma_tx_total_prefix(a: Seq<BlockProofView>, b: Seq<BlockProofView>, n: nat)
    requires
        n <= a.len(),
        n <= b.len(),
        forall|i: int| 0 <= i < n ==> a[i] == b[i],
    ensures
        tx_total(a, n) == tx_total(b, n),
    decreases n,
{
    if n > 0 {
        lemma_tx_total_prefix(a, b, (n - 1) as nat);
    }
}

// ---------------------------------------------------------------------------
// What proofs bind
// ---------------------------------------------------------------------------

/// The stand-in proof starts with the digest of its seed, and each 32 bytes after that are the
/// digest of the 32 bytes before them.
pub proof fn law_chains_hash_on(seed: Seq<u8>, len: nat, k: int)
    requires
        hash::digests_have_32_bytes(),
        hash::blake3_derived("ARC-stark-mock-proof-v1"@, seed).len() == 32,
        0 <= k,
        32 * k + 32 <= len,
    ensures
        chain_bytes(seed, len).len() == len,
        k == 0 ==> chain_bytes(seed, len).subrange(0, 32) == hash::blake3_derived(
            "ARC-stark-mock-proof-v1"@,
            seed,
        ),
        k > 0 ==> chain_bytes(seed, len).subrange(32 * k, 32 * k + 32) == hash::blake3_digest(
            chain_bytes(seed, len).subrange(32 * k - 32, 32 * k),
        ),
{
    let data = chain_bytes(seed, len);
    lemma_chain_piece(seed, len, k);
    if k > 0 {
        lemma_chain_piece(seed, len, k - 1);
        assert(32 * (k - 1) + 32 == 32 * k && 32 * (k - 1) == 32 * k - 32);
    }
}

proof fn lemma_chain_piece(seed: Seq<u8>, len: nat, k: int)
    requires
        hash::digests_have_32_bytes(),
        hash::blake3_derived("ARC-stark-mock-proof-v1"@, seed).len() == 32,
        0 <= k,
        32 * k + 32 <= len,
    ensures
        chain_bytes(seed, len).subrange(32 * k, 32 * k + 32) == chain_block(seed, k as nat),
{
    let data = chain_bytes(seed, len);
    let piece = data.subrange(32 * k, 32 * k + 32);
    let block = chain_block(seed, k as nat);
    assert(block.len() == 32);
    assert forall|i: int| 0 <= i < 32 implies #[trigger] piece[i] == block[i] by {
        assert((32 * k + i) / 32 == k && (32 * k + i) % 32 == i);
    }
    assert(piece =~= block);
}

/// A shorter stand-in proof is the beginning of a longer one.
pub proof fn law_chains_extend(seed: Seq<u8>, short: nat, long: nat)
    requires
        short <= long,
    ensures
        chain_bytes(seed, long).take(short as int) == chain_bytes(seed, short),
{
    assert(chain_bytes(seed, long).take(short as int) =~= chain_bytes(seed, short));
}

/// A stand-in proof belongs to one seed, unless the digests of two seeds collide.
pub proof fn law_chains_bind_their_seed(a: Seq<u8>, b: Seq<u8>, len: nat)
    requires
        len >= 32,
        hash::digests_have_32_bytes(),
        hash::blake3_derived("ARC-stark-mock-proof-v1"@, a).len() == 32,
        hash::blake3_derived("ARC-stark-mock-proof-v1"@, b).len() == 32,
        chain_bytes(a, len) == chain_bytes(b, len),
    ensures
        a == b || hash::derived_collides("ARC-stark-mock-proof-v1"@, a, b),
{
    lemma_chain_piece(a, len, 0);
    lemma_chain_piece(b, len, 0);
}

/// The seed of a block determines its hash, its state roots, its height and all its transaction
/// hashes.
pub proof fn law_block_seeds_are_injective(a: BlockProofInput, b: BlockProofInput)
    requires
        block_seed(a) == block_seed(b),
    ensures
        stwo_air::same_block(a, b),
        a.tx_hashes@.len() == b.tx_hashes@.len(),
        forall|i: int|
            0 <= i < a.tx_hashes@.len() ==> (#[trigger] a.tx_hashes@[i])@ == b.tx_hashes@[i]@,
{
    let ja = encoding::joined(a.tx_hashes@, a.tx_hashes@.len());
    let jb = encoding::joined(b.tx_hashes@, b.tx_hashes@.len());
    assert(block_seed(a) =~= stwo_air::block_preimage(a, ja));
    assert(block_seed(b) =~= stwo_air::block_preimage(b, jb));
    stwo_air::law_block_preimage_is_injective(a, b, ja, jb);
    encoding::law_joined_injective(a.tx_hashes@, b.tx_hashes@);
}

/// The proof data that a verifier hash fits is single, unless the digests of two proofs collide.
pub proof fn law_verifier_hashes_bind_proof_data(a: BlockProofView, b: BlockProofView)
    requires
        block_valid(a),
        block_valid(b),
        a.verifier_hash@ == b.verifier_hash@,
    ensures
        a.proof_data == b.proof_data || hash::derived_collides(
            "ARC-stark-verifier-v1"@,
            a.proof_data,
            b.proof_data,
        ),
{
}

/// Whether two block proofs agree in all that their hash covers.
pub open spec fn same_block_proof(a: BlockProofView, b: BlockProofView) -> bool {
    &&& a.block_height == b.block_height
    &&& a.block_hash@ == b.block_hash@
    &&& a.prev_state_root@ == b.prev_state_root@
    &&& a.post_state_root@ == b.post_state_root@
    &&& a.tx_count == b.tx_count
    &&& a.proof_data == b.proof_data
}

/// The hash of a block proof belongs to one height, block hash, pair of state roots, number of
/// transactions and proof, unless the digests of what is hashed collide.
pub proof fn law_proof_hashes_bind_block_proofs(a: BlockProofView, b: BlockProofView)
    requires
        block_proof_digest(a) == block_proof_digest(b),
    ensures
        same_block_proof(a, b) || hash::derived_collides(
            "ARC-stark-proof-hash-v1"@,
            block_proof_input(a),
            block_proof_input(b),
        ),
{
    if block_proof_input(a) == block_proof_input(b) {
        encoding::law_le_u64_injective(a.block_height, b.block_height);
        encoding::law_le_u32_injective(a.tx_count, b.tx_count);
        let ha = encoding::le_bytes(a.block_height as nat, 8);
        let hb = encoding::le_bytes(b.block_height as nat, 8);
        let ca = encoding::le_bytes(a.tx_count as nat, 4);
        let cb = encoding::le_bytes(b.tx_count as nat, 4);
        let pa = ha + a.block_hash@ + a.prev_state_root@;
        let pb = hb + b.block_hash@ + b.prev_state_root@;
        encoding::lemma_split(
            pa + a.post_state_root@ + ca,
            a.proof_data,
            pb + b.post_state_root@ + cb,
            b.proof_data,
        );
        encoding::lemma_split(pa + a.post_state_root@, ca, pb + b.post_state_root@, cb);
        encoding::lemma_split(pa, a.post_state_root@, pb, b.post_state_root@);
        encoding::lemma_split(
            ha + a.block_hash@,
            a.prev_state_root@,
            hb + b.block_hash@,
            b.prev_state_root@,
        );
        encoding::lemma_split(ha, a.block_hash@, hb, b.block_hash@);
    }
}

/// The hash of a recursive proof belongs to one range of heights, pair of state roots, number of
/// blocks, depth and proof, unless the digests of what is hashed collide.
pub proof fn law_proof_hashes_bind_recursive_proofs(a: RecursiveProofView, b: RecursiveProofView)
    requires
        recursive_proof_digest(a) == recursive_proof_digest(b),
    ensures
        ({
            &&& a.start_height == b.start_height
            &&& a.end_height == b.end_height
            &&& a.start_state_root@ == b.start_state_root@
            &&& a.end_state_root@ == b.end_state_root@
            &&& a.block_count == b.block_count
            &&& a.depth == b.depth
            &&& a.proof_data == b.proof_data
        }) || hash::derived_collides(
            "ARC-stark-recursive-hash-v1"@,
            recursive_proof_input(a),
            recursive_proof_input(b),
        ),
{
    if recursive_proof_input(a) == recursive_proof_input(b) {
        encoding::law_le_u64_injective(a.start_height, b.start_height);
        encoding::law_le_u64_injective(a.end_height, b.end_height);
        encoding::law_le_u64_injective(a.block_count, b.block_count);
        encoding::law_le_u32_injective(a.depth, b.depth);
        let sa = encoding::le_bytes(a.start_height as nat, 8);
        let sb = encoding::le_bytes(b.start_height as nat, 8);
        let ea = encoding::le_bytes(a.end_height as nat, 8);
        let eb = encoding::le_bytes(b.end_height as nat, 8);
        let ca = encoding::le_bytes(a.block_count as nat, 8);
        let cb = encoding::le_bytes(b.block_count as nat, 8);
        let da = encoding::le_bytes(a.depth as nat, 4);
        let db = encoding::le_bytes(b.depth as nat, 4);
        let pa = sa + ea + a.start_state_root@;
        let pb = sb + eb + b.start_state_root@;
        encoding::lemma_split(
            pa + a.end_state_root@ + ca + da,
            a.proof_data,
            pb + b.end_state_root@ + cb + db,
            b.proof_data,
        );
        encoding::lemma_split(
            pa + a.end_state_root@ + ca,
            da,
            pb + b.end_state_root@ + cb,
            db,
        );
        encoding::lemma_split(pa + a.end_state_root@, ca, pb + b.end_state_root@, cb);
        encoding::lemma_split(pa, a.end_state_root@, pb, b.end_state_root@);
        encoding::lemma_split(sa + ea, a.start_state_root@, sb + eb, b.start_state_root@);
        encoding::lemma_split(sa, ea, sb, eb);
    }
}

/// The digest of two state roots belongs to both of them, unless the digests of what is hashed
/// collide.
pub proof fn law_state_digests_bind_both_roots(
    start_a: Seq<u8>,
    end_a: Seq<u8>,
    start_b: Seq<u8>,
    end_b: Seq<u8>,
)
    requires
        start_a.len() == start_b.len(),
        state_digest(start_a, end_a) == state_digest(start_b, end_b),
    ensures
        (start_a == start_b && end_a == end_b) || hash::collides(start_a + end_a, start_b + end_b),
{
    if start_a + end_a == start_b + end_b {
        encoding::lemma_split(start_a, end_a, start_b, end_b);
    }
}

/// Recursive proof data has 512 bytes, and reads back as its version, the Merkle root of the child
/// hashes, the digest of the state roots, the number of children, and a filling that is derived
/// from all child hashes and the state roots.
pub proof fn law_recursive_data_reads_back(children: Seq<[u8; 32]>, start: Seq<u8>, end: Seq<u8>)
    requires
        children_root(children).len() == 32,
        state_digest(start, end).len() == 32,
        children.len() <= u32::MAX,
    ensures
        ({
            let data = recursive_data(children, start, end);
            &&& data.len() == 512
            &&& encoding::le_value(data.subrange(0, 4)) == 1
            &&& data.subrange(4, 36) == merkle::merkle_root(digest_list(children))
            &&& data.subrange(36, 68) == hash::blake3_digest(start + end)
            &&& encoding::le_value(data.subrange(68, 72)) == children.len()
            &&& data.subrange(72, 512) == chain_bytes(recursive_seed(children, start, end), 440)
        }),
{
    lemma_recursive_data(children, start, end);
    let data = recursive_data(children, start, end);
    assert(data_version(data) == 1 && data_root(data) == children_root(children) && data_state(data)
        == state_digest(start, end) && data_count(data) == children.len());
    let filling = chain_bytes(recursive_seed(children, start, end), 440);
    let head = encoding::le_bytes(1, 4) + children_root(children) + state_digest(start, end)
        + encoding::le_bytes((children.len() as u32) as nat, 4);
    assert(data =~= head + filling);
    assert(data.subrange(72, 512) =~= filling);
}

/// What the filling is derived from determines the child hashes and the state roots.
pub proof fn law_recursive_seeds_are_injective(
    a: Seq<[u8; 32]>,
    start_a: Seq<u8>,
    end_a: Seq<u8>,
    b: Seq<[u8; 32]>,
    start_b: Seq<u8>,
    end_b: Seq<u8>,
)
    requires
        start_a.len() == 32,
        end_a.len() == 32,
        start_b.len() == 32,
        end_b.len() == 32,
        recursive_seed(a, start_a, end_a) == recursive_seed(b, start_b, end_b),
    ensures
        start_a == start_b,
        end_a == end_b,
        a.len() == b.len(),
        forall|i: int| 0 <= i < a.len() ==> (#[trigger] a[i])@ == b[i]@,
{
    let ja = encoding::joined(a, a.len());
    let jb = encoding::joined(b, b.len());
    assert((ja + start_a + end_a).len() == ja.len() + 64);
    assert((jb + start_b + end_b).len() == jb.len() + 64);
    encoding::lemma_split(ja + start_a, end_a, jb + start_b, end_b);
    encoding::lemma_split(ja, start_a, jb, start_b);
    encoding::law_joined_injective(a, b);
}

/// Recursive proof data belongs to one list of child hashes and one pair of state roots, unless the
/// digests of two seeds collide.
pub proof fn law_recursive_data_binds_children(
    a: Seq<[u8; 32]>,
    start_a: Seq<u8>,
    end_a: Seq<u8>,
    b: Seq<[u8; 32]>,
    start_b: Seq<u8>,
    end_b: Seq<u8>,
)
    requires
        hash::digests_have_32_bytes(),
        children_root(a).len() == 32,
        children_root(b).len() == 32,
        a.len() <= u32::MAX,
        b.len() <= u32::MAX,
        start_a.len() == 32,
        end_a.len() == 32,
        start_b.len() == 32,
        end_b.len() == 32,
        hash::blake3_derived(
            "ARC-stark-mock-proof-v1"@,
            recursive_seed(a, start_a, end_a),
        ).len() == 32,
        hash::blake3_derived(
            "ARC-stark-mock-proof-v1"@,
            recursive_seed(b, start_b, end_b),
        ).len() == 32,
        recursive_data(a, start_a, end_a) == recursive_data(b, start_b, end_b),
    ensures
        ({
            &&& start_a == start_b
            &&& end_a == end_b
            &&& a.len() == b.len()
            &&& forall|i: int| 0 <= i < a.len() ==> (#[trigger] a[i])@ == b[i]@
        }) || hash::derived_collides(
            "ARC-stark-mock-proof-v1"@,
            recursive_seed(a, start_a, end_a),
            recursive_seed(b, start_b, end_b),
        ),
{
    law_recursive_data_reads_back(a, start_a, end_a);
    law_recursive_data_reads_back(b, start_b, end_b);
    law_chains_bind_their_seed(
        recursive_seed(a, start_a, end_a),
        recursive_seed(b, start_b, end_b),
        440,
    );
    if recursive_seed(a, start_a, end_a) == recursive_seed(b, start_b, end_b) {
        law_recursive_seeds_are_injective(a, start_a, end_a, b, start_b, end_b);
    }
}

/// A recursive proof verifies exactly where its heights are in order, it has blocks and children,
/// and its data carries the version, the Merkle root of its children, which is also its own, the
/// digest of its state roots and the number of its children.
pub proof fn law_valid_recursive_proofs(p: RecursiveProofView)
    ensures
        recursive_valid(p) <==> {
            &&& p.start_height <= p.end_height
            &&& p.child_proofs.len() > 0
            &&& p.block_count > 0
            &&& p.proof_data.len() >= 72
            &&& encoding::le_value(p.proof_data.subrange(0, 4)) == 1
            &&& p.merkle_root@ == merkle::merkle_root(digest_list(p.child_proofs))
            &&& p.proof_data.subrange(4, 36) == merkle::merkle_root(digest_list(p.child_proofs))
            &&& p.proof_data.subrange(36, 68) == hash::blake3_digest(
                p.start_state_root@ + p.end_state_root@,
            )
            &&& encoding::le_value(p.proof_data.subrange(68, 72)) == p.child_proofs.len()
        },
{
}

/// Each fault of a recursive proof is reported once and in order: the number of reports is the
/// number of conditions that fail.
pub proof fn law_shape_faults_are_counted(p: RecursiveProofView)
    ensures
        shape_faults(p).len() == (if p.start_height > p.end_height { 1int } else { 0 }) + (
        if p.child_proofs.len() == 0 { 1int } else { 0 }) + (if p.proof_data.len() == 0 {
            1int
        } else {
            0
        }) + (if p.block_count == 0 { 1int } else { 0 }),
{
}

/// The transactions of two lists of block proofs add up, and a single proof counts its own.
pub proof fn law_transactions_add_up(a: Seq<BlockProofView>, b: Seq<BlockProofView>, n: nat)
    requires
        n <= b.len(),
    ensures
        tx_total(a + b, a.len() + n) == tx_total(a, a.len()) + tx_total(b, n),
        bytes_total(a + b, a.len() + n) == bytes_total(a, a.len()) + bytes_total(b, n),
        n == 1 ==> tx_total(b, n) == b[0].tx_count && bytes_total(b, n) == b[0].proof_size_bytes,
    decreases n,
{
    if n == 0 {
        lemma_tx_total_prefix(a + b, a, a.len());
        lemma_bytes_total_prefix(a + b, a, a.len());
    } else {
        law_transactions_add_up(a, b, (n - 1) as nat);
        assert((a + b)[a.len() + n - 1] == b[n - 1]);
    }
}

proof fn lemma_bytes_total_prefix(a: Seq<BlockProofView>, b: Seq<BlockProofView>, n: nat)
    requires
        n <= a.len(),
        n <= b.len(),
        forall|i: int| 0 <= i < n ==> a[i] == b[i],
    ensures
        bytes_total(a, n) == bytes_total(b, n),
    decreases n,
{
    if n > 0 {
        lemma_bytes_total_prefix(a, b, (n - 1) as nat);
    }
}

/// The blocks and the transactions of two lists of recursive proofs add up; the depth is the largest
/// of all.
pub proof fn law_recursive_totals_add_up(
    a: Seq<RecursiveProofView>,
    b: Seq<RecursiveProofView>,
    n: nat,
)
    requires
        n <= b.len(),
    ensures
        block_total(a + b, a.len() + n) == block_total(a, a.len()) + block_total(b, n),
        deep_tx_total(a + b, a.len() + n) == deep_tx_total(a, a.len()) + deep_tx_total(b, n),
        n == 1 ==> block_total(b, n) == b[0].block_count && deep_tx_total(b, n)
            == b[0].total_tx_count,
    decreases n,
{
    if n == 0 {
        lemma_recursive_totals_prefix(a + b, a, a.len());
    } else {
        law_recursive_totals_add_up(a, b, (n - 1) as nat);
        assert((a + b)[a.len() + n - 1] == b[n - 1]);
    }
}

proof fn lemma_recursive_totals_prefix(
    a: Seq<RecursiveProofView>,
    b: Seq<RecursiveProofView>,
    n: nat,
)
    requires
        n <= a.len(),
        n <= b.len(),
        forall|i: int| 0 <= i < n ==> a[i] == b[i],
    ensures
        block_total(a, n) == block_total(b, n),
        deep_tx_total(a, n) == deep_tx_total(b, n),
    decreases n,
{
    if n > 0 {
        lemma_recursive_totals_prefix(a, b, (n - 1) as nat);
    }
}

/// The depth of a list of recursive proofs is that of one of them, and none is deeper.
pub proof fn law_depth_is_the_largest(proofs: Seq<RecursiveProofView>, n: nat)
    requires
        n <= proofs.len(),
    ensures
        forall|i: int| 0 <= i < n ==> (#[trigger] proofs[i]).depth <= max_depth(proofs, n),
        n > 0 ==> exists|i: int|
            0 <= i < n && (#[trigger] proofs[i]).depth == max_depth(proofs, n),
        n == 0 ==> max_depth(proofs, n) == 0,
    decreases n,
{
    if n > 0 {
        law_depth_is_the_largest(proofs, (n - 1) as nat);
        if proofs[n - 1].depth <= max_depth(proofs, (n - 1) as nat) {
            if n > 1 {
                let i = choose|i: int|
                    0 <= i < n - 1 && (#[trigger] proofs[i]).depth == max_depth(
                        proofs,
                        (n - 1) as nat,
                    );
                assert(proofs[i].depth == max_depth(proofs, n));
            } else {
                assert(proofs[0].depth == 0);
            }
        } else {
            assert(proofs[n - 1].depth == max_depth(proofs, n));
        }
    }
}

/// The raw sizes of two lists of blocks add up; a block counts its hashes, its height, 32 bytes for
/// each transaction and 96 for each state diff.
pub proof fn law_raw_sizes_add_up(a: Seq<BlockProofInput>, b: Seq<BlockProofInput>, n: nat)
    requires
        n <= b.len(),
    ensures
        raw_total(a + b, a.len() + n) == raw_total(a, a.len()) + raw_total(b, n),
        n == 1 ==> raw_total(b, n) == 32 * 3 + 8 + 32 * b[0].tx_hashes@.len() + 96
            * b[0].state_diffs@.len(),
    decreases n,
{
    if n == 0 {
        lemma_raw_total_prefix(a + b, a, a.len());
    } else {
        law_raw_sizes_add_up(a, b, (n - 1) as nat);
        assert((a + b)[a.len() + n - 1] == b[n - 1]);
    }
}

proof fn lemma_raw_total_prefix(a: Seq<BlockProofInput>, b: Seq<BlockProofInput>, n: nat)
    requires
        n <= a.len(),
        n <= b.len(),
        forall|i: int| 0 <= i < n ==> a[i] == b[i],
    ensures
        raw_total(a, n) == raw_total(b, n),
    decreases n,
{
    if n > 0 {
        lemma_raw_total_prefix(a, b, (n - 1) as nat);
    }
}

/// A recursive proof that covers two lists of block proofs covers the same proofs, one by one,
/// unless the digests of two of them collide.
pub proof fn law_aggregates_bind_their_blocks(
    p: RecursiveProofView,
    a: Seq<BlockProofView>,
    b: Seq<BlockProofView>,
    i: int,
)
    requires
        covers_blocks(p, a),
        covers_blocks(p, b),
        0 <= i < a.len(),
    ensures
        a.len() == b.len(),
        same_block_proof(a[i], b[i]) || hash::derived_collides(
            "ARC-stark-proof-hash-v1"@,
            block_proof_input(a[i]),
            block_proof_input(b[i]),
        ),
{
    assert(p.child_proofs[i]@ == block_proof_digest(a[i]));
    assert(p.child_proofs[i]@ == block_proof_digest(b[i]));
    law_proof_hashes_bind_block_proofs(a[i], b[i]);
}

/// A recursive proof over block proofs runs from the first to the last of them: it starts at the
/// height and the state before the first and ends at the height and the state after the last.
pub proof fn law_aggregates_span_their_blocks(p: RecursiveProofView, proofs: Seq<BlockProofView>)
    requires
        proofs.len() > 0,
        covers_blocks(p, proofs),
    ensures
        p.start_height == proofs[0].block_height,
        p.start_state_root == proofs[0].prev_state_root,
        p.end_height == proofs[proofs.len() - 1].block_height,
        p.end_state_root == proofs[proofs.len() - 1].post_state_root,
        p.block_count == proofs.len(),
        p.depth == 1,
{
}

/// A recursive proof over recursive proofs runs from the first to the last of them, is one deeper
/// than the deepest, and names each by its hash.
pub proof fn law_deep_aggregates_span_their_proofs(
    p: RecursiveProofView,
    proofs: Seq<RecursiveProofView>,
    i: int,
)
    requires
        0 <= i < proofs.len(),
        aggregates_recursive(p, proofs),
    ensures
        p.start_height == proofs[0].start_height,
        p.start_state_root == proofs[0].start_state_root,
        p.end_height == proofs[proofs.len() - 1].end_height,
        p.end_state_root == proofs[proofs.len() - 1].end_state_root,
        p.depth > proofs[i].depth,
        p.child_proofs[i]@ == recursive_proof_digest(proofs[i]),
{
    law_depth_is_the_largest(proofs, proofs.len());
}

/// The children of a verifier input chain on: its start and end states are those of the block
/// proofs, one by one.
pub proof fn law_verifier_inputs_hold_all_states(
    input: RecursiveVerifierInput,
    proofs: Seq<BlockProofView>,
    i: int,
)
    requires
        is_verifier_input(input, proofs),
        0 <= i < proofs.len(),
    ensures
        input.child_start_states@.len() == proofs.len(),
        input.child_end_states@.len() == proofs.len(),
        input.child_start_states@[i] == proofs[i].prev_state_root,
        input.child_end_states@[i] == proofs[i].post_state_root,
        input.child_hashes@[i]@ == block_proof_digest(proofs[i]),
        input.expected_merkle_root@ == merkle::merkle_root(digest_list(input.child_hashes@)),
        input.merkle_siblings@[i]@.len() == 1,
        input.merkle_siblings@[i]@[0]@ == hash::blake3_derived(
            "ARC-merkle-sibling-v1"@,
            merkle::merkle_root(digest_list(input.child_hashes@)),
        ),
{
}

/// The proof of a block carries its height, its hash, both its state roots and the number of its
/// transactions, and verifies.
pub proof fn law_proofs_carry_their_block(p: BlockProofView, input: BlockProofInput)
    requires
        is_about(p, input),
    ensures
        p.block_height == input.height,
        p.block_hash == input.block_hash,
        p.prev_state_root == input.prev_state_root,
        p.post_state_root == input.post_state_root,
        input.tx_hashes@.len() <= u32::MAX ==> p.tx_count == input.tx_hashes@.len(),
        p.proof_size_bytes == p.proof_data.len(),
        p.verifier_hash@ == hash::blake3_derived("ARC-stark-verifier-v1"@, p.proof_data),
{
}

/// Recursive proofs fold on: aggregating block proofs in two parts and then the two recursive proofs
/// covers as many blocks and transactions, from the same start to the same end, as aggregating all
/// block proofs at once, one level deeper.
pub proof fn law_folding_in_parts_covers_the_same(
    a: Seq<BlockProofView>,
    b: Seq<BlockProofView>,
    pa: RecursiveProofView,
    pb: RecursiveProofView,
    deep: RecursiveProofView,
    flat: RecursiveProofView,
)
    requires
        a.len() > 0,
        b.len() > 0,
        aggregates_blocks(pa, a),
        aggregates_blocks(pb, b),
        aggregates_recursive(deep, seq![pa, pb]),
        aggregates_blocks(flat, a + b),
    ensures
        deep.start_height == flat.start_height,
        deep.end_height == flat.end_height,
        deep.start_state_root == flat.start_state_root,
        deep.end_state_root == flat.end_state_root,
        deep.block_count == flat.block_count,
        deep.total_tx_count == flat.total_tx_count,
        deep.depth == flat.depth + 1,
{
    let both = seq![pa, pb];
    law_transactions_add_up(a, b, b.len());
    reveal_with_fuel(block_total, 3);
    reveal_with_fuel(deep_tx_total, 3);
    reveal_with_fuel(max_depth, 3);
    assert(both[0] == pa && both[1] == pb);
    assert((a + b)[0] == a[0] && (a + b).last() == b.last());
}

/// The first proof that fails is reported: those before it are valid.
pub proof fn law_the_first_invalid_proof_is_single(proofs: Seq<BlockProofView>, i: int, j: int)
    requires
        first_invalid_block(proofs, i),
        first_invalid_block(proofs, j),
    ensures
        i == j,
        !block_valid(proofs[i]),
{
    if i < j {
        assert(block_valid(proofs[i]));
    } else if j < i {
        assert(block_valid(proofs[j]));
    }
}

/// A verdict is an error exactly where the proof is not valid, and the error is then the report.
pub proof fn law_verdicts(
    r: VerificationResult,
    kind: ProofType,
    valid: bool,
    report: Seq<char>,
)
    requires
        is_verdict(r, kind, valid, report),
    ensures
        r.is_valid <==> valid,
        r.proof_type == kind,
        valid ==> r.error is None,
        !valid ==> r.error is Some && r.error->0@ == report,
{
}

/// The report on a child tells which one it is, its height, and the error.
pub proof fn law_child_reports_tell_the_child(
    i: nat,
    height: nat,
    error: Seq<char>,
    other: nat,
    other_height: nat,
    other_error: Seq<char>,
    how: Seq<char>,
)
    requires
        child_report(i, height, how, error) == child_report(other, other_height, how, other_error),
    ensures
        i == other,
        height == other_height,
        error == other_error,
{
    let head = "child block proof "@;
    let mid = " (height "@;
    let end = ") failed "@;
    let colon = ": "@;
    reveal_strlit(" (height ");
    reveal_strlit(") failed ");
    let tail = end + how + colon;
    let da = encoding::decimal(i);
    let db = encoding::decimal(other);
    let ha = encoding::decimal(height);
    let hb = encoding::decimal(other_height);
    let xa = ha + (tail + error);
    let xb = hb + (tail + other_error);
    assert(child_report(i, height, how, error) =~= head + (da + (mid + xa)));
    assert(child_report(other, other_height, how, other_error) =~= head + (db + (mid + xb)));
    encoding::lemma_split(head, da + (mid + xa), head, db + (mid + xb));
    assert((mid + xa)[0] == ' ' && (mid + xb)[0] == ' ');
    encoding::law_numbers_end_with_their_digits(i, mid + xa, other, mid + xb);
    encoding::lemma_split(mid, xa, mid, xb);
    assert((tail + error)[0] == ')' && (tail + other_error)[0] == ')');
    encoding::law_numbers_end_with_their_digits(height, tail + error, other_height, tail + other_error);
    encoding::lemma_split(tail, error, tail, other_error);
}

/// The report on a count tells both numbers.
pub proof fn law_count_reports_tell_both_numbers(
    proofs: nat,
    inputs: nat,
    other_proofs: nat,
    other_inputs: nat,
)
    requires
        count_report(proofs, inputs) == count_report(other_proofs, other_inputs),
    ensures
        proofs == other_proofs,
        inputs == other_inputs,
{
    let head = "proof count ("@;
    let mid = ") does not match input count ("@;
    let end = ")"@;
    reveal_strlit(") does not match input count (");
    reveal_strlit(")");
    let da = encoding::decimal(proofs);
    let db = encoding::decimal(other_proofs);
    let ea = encoding::decimal(inputs);
    let eb = encoding::decimal(other_inputs);
    let xa = ea + end;
    let xb = eb + end;
    assert(count_report(proofs, inputs) =~= head + (da + (mid + xa)));
    assert(count_report(other_proofs, other_inputs) =~= head + (db + (mid + xb)));
    encoding::lemma_split(head, da + (mid + xa), head, db + (mid + xb));
    assert((mid + xa)[0] == ')' && (mid + xb)[0] == ')');
    encoding::law_numbers_end_with_their_digits(proofs, mid + xa, other_proofs, mid + xb);
    encoding::lemma_split(mid, xa, mid, xb);
    encoding::law_numbers_end_with_their_digits(inputs, end, other_inputs, end);
}

/// The report on a recursive child tells which one it is, its range and all its faults.
pub proof fn law_deep_reports_tell_the_child(
    i: nat,
    p: RecursiveProofView,
    other: nat,
    q: RecursiveProofView,
)
    requires
        deep_report(i, p) == deep_report(other, q),
    ensures
        i == other,
        p.start_height == q.start_height,
        p.end_height == q.end_height,
        joined_texts(recursive_faults(p), recursive_faults(p).len()) == joined_texts(
            recursive_faults(q),
            recursive_faults(q).len(),
        ),
{
    let f = joined_texts(recursive_faults(p), recursive_faults(p).len());
    let g = joined_texts(recursive_faults(q), recursive_faults(q).len());
    assert(deep_report(i, p) == deep_text(i, p.start_height as nat, p.end_height as nat, f));
    assert(deep_report(other, q) == deep_text(
        other,
        q.start_height as nat,
        q.end_height as nat,
        g,
    ));
    lemma_deep_texts(
        i,
        p.start_height as nat,
        p.end_height as nat,
        f,
        other,
        q.start_height as nat,
        q.end_height as nat,
        g,
    );
}

spec fn deep_text(i: nat, start: nat, end: nat, faults: Seq<char>) -> Seq<char> {
    "child recursive proof "@ + encoding::decimal(i) + " (heights "@ + encoding::decimal(start)
        + ".."@ + encoding::decimal(end) + ") failed verification: "@ + faults
}

#[verifier::spinoff_prover]
#[verifier::rlimit(60)]
proof fn lemma_deep_texts(
    i: nat,
    start: nat,
    end: nat,
    f: Seq<char>,
    j: nat,
    other_start: nat,
    other_end: nat,
    g: Seq<char>,
)
    requires
        deep_text(i, start, end, f) == deep_text(j, other_start, other_end, g),
    ensures
        i == j,
        start == other_start,
        end == other_end,
        f == g,
{
    let head = "child recursive proof "@;
    let mid = " (heights "@;
    let dots = ".."@;
    let close = ") failed verification: "@;
    reveal_strlit(" (heights ");
    reveal_strlit("..");
    reveal_strlit(") failed verification: ");
    let ta = close + f;
    let tb = close + g;
    let na = encoding::decimal(end) + ta;
    let nb = encoding::decimal(other_end) + tb;
    let ea = dots + na;
    let eb = dots + nb;
    let ma = encoding::decimal(start) + ea;
    let mb = encoding::decimal(other_start) + eb;
    let sa = mid + ma;
    let sb = mid + mb;
    assert(deep_text(i, start, end, f) =~= head + (encoding::decimal(i) + sa));
    assert(deep_text(j, other_start, other_end, g) =~= head + (encoding::decimal(j) + sb));
    encoding::lemma_split(head, encoding::decimal(i) + sa, head, encoding::decimal(j) + sb);
    assert(sa[0] == ' ' && sb[0] == ' ');
    encoding::law_numbers_end_with_their_digits(i, sa, j, sb);
    encoding::lemma_split(mid, ma, mid, mb);
    assert(ea[0] == '.' && eb[0] == '.');
    encoding::law_numbers_end_with_their_digits(start, ea, other_start, eb);
    encoding::lemma_split(dots, na, dots, nb);
    assert(ta[0] == ')' && tb[0] == ')');
    encoding::law_numbers_end_with_their_digits(end, ta, other_end, tb);
    encoding::lemma_split(close, f, close, g);
}

proof fn lemma_joined_texts_prefix(a: Seq<Seq<char>>, b: Seq<Seq<char>>, n: nat)
    requires
        n <= a.len(),
        n <= b.len(),
        forall|i: int| 0 <= i < n ==> a[i] == b[i],
    ensures
        joined_texts(a, n) == joined_texts(b, n),
    decreases n,
{
    if n > 1 {
        lemma_joined_texts_prefix(a, b, (n - 1) as nat);
    }
}

/// All faults are reported in turn: one more comes behind a semicolon, and a single one stands alone.
pub proof fn law_reports_join_every_fault(s: Seq<Seq<char>>, t: Seq<char>)
    ensures
        joined_texts(seq![t], 1) == t,
        s.len() > 0 ==> joined_texts(s.push(t), s.len() + 1) == joined_texts(s, s.len()) + "; "@
            + t,
{
    lemma_joined_texts_prefix(s.push(t), s, s.len());
}

/// Data that is too short to be read is reported with its length, after what is wrong with the shape.
pub proof fn law_short_data_is_reported(p: RecursiveProofView)
    ensures
        0 < p.proof_data.len() < 72 ==> recursive_faults(p) == shape_faults(p).push(
            "proof_data too short ("@ + encoding::decimal(p.proof_data.len())
                + " bytes, need at least 72)"@,
        ),
        p.proof_data.len() == 0 ==> recursive_faults(p) == shape_faults(p),
{
    if p.proof_data.len() < 72 {
        let text = "proof_data too short ("@ + encoding::decimal(p.proof_data.len())
            + " bytes, need at least 72)"@;
        if p.proof_data.len() > 0 {
            assert(recursive_faults(p) =~= shape_faults(p).push(text));
        } else {
            assert(recursive_faults(p) =~= shape_faults(p));
        }
    }
}

/// At most one recursive proof is the first faulty one, and at most one block the first unbound one;
/// the proof found is at fault, and none before it is.
pub proof fn law_the_first_fault_is_single(
    deep: Seq<RecursiveProofView>,
    proofs: Seq<BlockProofView>,
    inputs: Seq<BlockProofInput>,
    i: int,
    j: int,
    k: int,
)
    requires
        0 <= k < i,
    ensures
        first_faulty(deep, i) && first_faulty(deep, j) ==> i == j,
        first_faulty(deep, i) ==> recursive_faults(deep[i]).len() > 0 && recursive_faults(
            deep[k],
        ).len() == 0,
        first_unbound_block(proofs, inputs, i) && first_unbound_block(proofs, inputs, j) ==> i == j,
        first_unbound_block(proofs, inputs, i) ==> !stwo_air::block_proof_valid(
            inputs[i],
            proofs[i].proof_data,
        ) && stwo_air::block_proof_valid(inputs[k], proofs[k].proof_data),
{
    if first_faulty(deep, i) {
        assert(recursive_valid(deep[k]));
    }
}

/// Inputs are ready for the inner circuit exactly where nothing is refused: there are proofs, each
/// has an input, and each is a receipt that is bound to its input.
pub proof fn law_ready_inputs_are_bound(
    proofs: Seq<BlockProofView>,
    inputs: Seq<BlockProofInput>,
    i: int,
)
    ensures
        inner_ready(proofs, inputs) && 0 <= i < proofs.len() ==> stwo_air::block_proof_valid(
            inputs[i],
            proofs[i].proof_data,
        ),
        inner_ready(proofs, inputs) ==> proofs.len() > 0 && inputs.len() == proofs.len(),
        inner_ready(proofs, inputs) ==> forall|e: Seq<char>| !inner_refusal(proofs, inputs, e),
        !inner_ready(proofs, inputs) ==> exists|e: Seq<char>| inner_refusal(proofs, inputs, e),
{
    if inner_ready(proofs, inputs) {
        assert forall|e: Seq<char>| !inner_refusal(proofs, inputs, e) by {
            if inner_refusal(proofs, inputs, e) {
                let k = choose|k: int| #[trigger] first_unbound_block(proofs, inputs, k);
                assert(stwo_air::block_proof_valid(inputs[k], proofs[k].proof_data));
            }
        }
    } else if proofs.len() == 0 {
        assert(inner_refusal(
            proofs,
            inputs,
            "cannot create inner-circuit recursive proof from empty slice"@,
        ));
    } else if proofs.len() != inputs.len() {
        assert(inner_refusal(proofs, inputs, count_report(proofs.len(), inputs.len())));
    } else {
        let k = choose|k: int|
            0 <= k < proofs.len() && !stwo_air::block_proof_valid(
                #[trigger] inputs[k],
                proofs[k].proof_data,
            );
        let f = lemma_first_unbound(proofs, inputs, k);
        assert(inner_refusal(
            proofs,
            inputs,
            child_report(
                f as nat,
                proofs[f].block_height as nat,
                "Stwo verification"@,
                "Stwo proof receipt verification failed"@,
            ),
        ));
    }
}

proof fn lemma_first_unbound(
    proofs: Seq<BlockProofView>,
    inputs: Seq<BlockProofInput>,
    k: int,
) -> (f: int)
    requires
        0 <= k < proofs.len(),
        proofs.len() == inputs.len(),
        !stwo_air::block_proof_valid(inputs[k], proofs[k].proof_data),
    ensures
        first_unbound_block(proofs, inputs, f),
    decreases k,
{
    if first_unbound_block(proofs, inputs, k) {
        k
    } else {
        let j = choose|j: int|
            0 <= j < k && !stwo_air::block_proof_valid(
                #[trigger] inputs[j],
                proofs[j].proof_data,
            );
        lemma_first_unbound(proofs, inputs, j)
    }
}

/// What is aggregated is valid: a recursive proof over block proofs or over recursive proofs passes
/// verification, where its range is in order.
pub proof fn law_aggregates_are_valid(
    p: RecursiveProofView,
    blocks: Seq<BlockProofView>,
    deep: Seq<RecursiveProofView>,
)
    requires
        aggregates_blocks(p, blocks) && blocks.len() > 0 || aggregates_recursive(p, deep)
            && deep.len() > 0,
        p.child_proofs.len() <= u32::MAX,
        p.block_count > 0,
        p.start_height <= p.end_height,
        hash::digests_have_32_bytes(),
    ensures
        recursive_valid(p),
{
    lemma_aggregate_faults(p);
}

proof fn lemma_time_total_joins(start: u64, a: Seq<u64>, b: Seq<u64>, n: nat)
    requires
        n <= b.len(),
    ensures
        time_total(start, a + b, a.len() + n) == time_total(time_total(start, a, a.len()), b, n),
    decreases n,
{
    if n > 0 {
        lemma_time_total_joins(start, a, b, (n - 1) as nat);
        assert((a + b)[a.len() + n - 1] == b[n - 1]);
    } else {
        lemma_time_total_prefix(start, a + b, a, a.len());
    }
}

proof fn lemma_time_total_prefix(start: u64, a: Seq<u64>, b: Seq<u64>, n: nat)
    requires
        n <= a.len(),
        n <= b.len(),
        forall|i: int| 0 <= i < n ==> a[i] == b[i],
    ensures
        time_total(start, a, n) == time_total(start, b, n),
    decreases n,
{
    if n > 0 {
        lemma_time_total_prefix(start, a, b, (n - 1) as nat);
    }
}

/// Statistics add up: batches that are counted one after the other give the totals of all their blocks
/// counted at once; what is said of a batch is said of the last one.
pub proof fn law_proving_statistics_add_up(
    s: ProvingStats,
    inputs_a: Seq<BlockProofInput>,
    proofs_a: Seq<BlockProofView>,
    times_a: Seq<u64>,
    inputs_b: Seq<BlockProofInput>,
    proofs_b: Seq<BlockProofView>,
    times_b: Seq<u64>,
)
    requires
        inputs_a.len() > 0,
        proofs_a.len() == inputs_a.len(),
        times_a.len() == inputs_a.len(),
        inputs_b.len() > 0,
        proofs_b.len() == inputs_b.len(),
        times_b.len() == inputs_b.len(),
        s.blocks_proven + inputs_a.len() + inputs_b.len() <= u64::MAX,
        s.total_proof_bytes + bytes_total(proofs_a, proofs_a.len()) + bytes_total(
            proofs_b,
            proofs_b.len(),
        ) <= u64::MAX,
        bytes_total(proofs_b, proofs_b.len()) <= usize::MAX,
        raw_total(inputs_b, inputs_b.len()) <= usize::MAX,
    ensures
        ({
            let first = stats_with(s, inputs_a, proofs_a, times_a);
            let both = stats_with(first, inputs_b, proofs_b, times_b);
            let at_once = stats_with(s, inputs_a + inputs_b, proofs_a + proofs_b, times_a + times_b);
            &&& both.blocks_proven == at_once.blocks_proven
            &&& both.total_proof_bytes == at_once.total_proof_bytes
            &&& both.total_proving_time_ms == at_once.total_proving_time_ms
            &&& both.block_proof_time_sum_ms == both.total_proving_time_ms
            &&& both.batch_proof_bytes == bytes_total(proofs_b, proofs_b.len())
            &&& both.batch_raw_bytes == raw_total(inputs_b, inputs_b.len())
            &&& both.recursive_proofs_generated == s.recursive_proofs_generated
            &&& both.last_recursive_proof_time_ms == s.last_recursive_proof_time_ms
        }),
{
    law_transactions_add_up(proofs_a, proofs_b, proofs_b.len());
    lemma_time_total_joins(s.total_proving_time_ms, times_a, times_b, times_b.len());
}

/// One block counts once, with the bytes of its proof and its time; no block changes nothing.
pub proof fn law_one_block_is_counted(
    s: ProvingStats,
    input: BlockProofInput,
    p: BlockProofView,
    time: u64,
)
    requires
        s.blocks_proven < u64::MAX,
        s.total_proof_bytes + p.proof_size_bytes <= u64::MAX,
        s.total_proving_time_ms + time <= u64::MAX,
    ensures
        ({
            let after = stats_with(s, seq![input], seq![p], seq![time]);
            &&& after.blocks_proven == s.blocks_proven + 1
            &&& after.total_proof_bytes == s.total_proof_bytes + p.proof_size_bytes
            &&& after.total_proving_time_ms == s.total_proving_time_ms + time
            &&& after.batch_proof_bytes == p.proof_size_bytes
        }),
        stats_with(s, Seq::empty(), Seq::empty(), Seq::empty()) == s,
        nothing_proven().blocks_proven == 0,
        nothing_proven().recursive_proofs_generated == 0,
        nothing_proven().total_proof_bytes == 0,
        nothing_proven().total_proving_time_ms == 0,
{
    reveal_with_fuel(bytes_total, 2);
    reveal_with_fuel(time_total, 2);
    assert(seq![p][0] == p);
    assert(seq![time][0] == time);
}

} // verus!
