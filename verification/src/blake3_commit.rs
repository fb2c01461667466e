//! BLAKE3 commitments to transactions.

use vstd::prelude::*;

use crate::encoding::push_bytes;
use crate::hash;
use crate::hash::{blake3_derive, hash_bytes, Hash256};
use crate::parallel::par_map;

pub mod domains;

verus! {

/// A BLAKE3-based transaction commitment.
#[derive(Clone, Debug)]
pub struct TransactionCommitment {
    /// The BLAKE3 hash of the domain tag and the serialized transaction data.
    pub hash: Hash256,
    /// Domain separation tag so different transaction types never collide.
    pub domain: u8,
}

/// The digest that commits to a transaction of a domain.
pub open spec fn commitment_digest(domain: u8, data: Seq<u8>) -> Seq<u8> {
    hash::blake3_derived("ARC-chain-tx-v1"@, seq![domain] + data)
}

/// Transactions of different domains are hashed from different bytes.
pub proof fn law_domains_hash_different_bytes(a: u8, b: u8, x: Seq<u8>, y: Seq<u8>)
    requires
        a != b,
    ensures
        seq![a] + x != seq![b] + y,
{
    assert((seq![a] + x)[0] == a);
    assert((seq![b] + y)[0] == b);
}

/// Commits to a single transaction.
pub fn commit_transaction(domain: u8, data: &[u8]) -> (c: TransactionCommitment)
    ensures
        c.hash@ == commitment_digest(domain, data@),
        c.domain == domain,
{
    let mut bytes: Vec<u8> = Vec::new();
    bytes.push(domain);
    push_bytes(&mut bytes, data);
    assert(bytes@ =~= seq![domain] + data@);
    TransactionCommitment {
        hash: Hash256(blake3_derive("ARC-chain-tx-v1", bytes.as_slice())),
        domain,
    }
}

/// Commits to many transactions in parallel; the commitments come in the order of the
/// transactions.
pub fn batch_commit_parallel(transactions: &[(u8, &[u8])]) -> (out: Vec<TransactionCommitment>)
    ensures
        out@.len() == transactions@.len(),
        forall|i: int|
            0 <= i < out@.len() ==> {
                &&& (#[trigger] out@[i]).hash@ == commitment_digest(
                    transactions@[i].0,
                    transactions@[i].1@,
                )
                &&& out@[i].domain == transactions@[i].0
            },
{
    let f = |tx: &(u8, &[u8])| -> (c: TransactionCommitment)
        ensures
            c.hash@ == commitment_digest(tx.0, tx.1@),
            c.domain == tx.0,
        { commit_transaction(tx.0, tx.1) };
    par_map(transactions, f)
}

/// Commits to raw bytes without domain separation.
pub fn commit_raw(data: &[u8]) -> (h: Hash256)
    ensures
        h@ == hash::blake3_digest(data@),
{
    hash_bytes(data)
}

/// Commits to many byte strings in parallel; the hashes come in the order of the strings.
pub fn batch_commit_raw_parallel(items: &[&[u8]]) -> (out: Vec<Hash256>)
    ensures
        out@.len() == items@.len(),
        forall|i: int|
            0 <= i < out@.len() ==> (#[trigger] out@[i])@ == hash::blake3_digest(items@[i]@),
{
    let f = |data: &&[u8]| -> (h: Hash256)
        ensures
            h@ == hash::blake3_digest(data@),
        { hash_bytes(data) };
    par_map(items, f)
}

/// The commitment to a transaction belongs to one domain and one byte string, unless the digests of
/// what is hashed collide.
pub proof fn law_commitments_bind_domain_and_data(a: u8, x: Seq<u8>, b: u8, y: Seq<u8>)
    requires
        commitment_digest(a, x) == commitment_digest(b, y),
    ensures
        (a == b && x == y) || hash::derived_collides(
            "ARC-chain-tx-v1"@,
            seq![a] + x,
            seq![b] + y,
        ),
{
    if seq![a] + x == seq![b] + y {
        crate::encoding::lemma_split(seq![a], x, seq![b], y);
        assert(seq![a][0] == seq![b][0]);
    }
}

} // verus!
