//! ZK Rollup framework.
//!
//! Provides types and logic for batching layer-2 transactions, computing
//! state transitions, verifying rollup proofs, sequencing
//! batches, and handling fraud proofs / dispute resolution.

use vstd::arithmetic::power2::*;
use vstd::prelude::*;

use crate::encoding;
use crate::encoding::{bytes_eq, copy_bytes, first_32, push_u64, read_u64};
use crate::hash;
use crate::hash::{blake3_hash, hash_bytes, hash_pair, Hash256};
use crate::merkle;
use crate::merkle::search_key;

verus! {

// ---------------------------------------------------------------------------
// Core types
// ---------------------------------------------------------------------------

/// The kind of zero-knowledge proof used by the rollup.
#[derive(Clone, Copy, Debug, PartialEq, Eq, Structural)]
pub enum RollupProofType {
    STARK,
    SNARK,
    PLONK,
    Groth16,
}

/// A single transaction within a rollup batch.
#[derive(Clone, Debug)]
pub struct RollupTx {
    pub from: [u8; 32],
    pub to: [u8; 32],
    pub amount: u64,
    pub nonce: u64,
    pub signature: Vec<u8>,
}

/// A proof attesting to the validity of a rollup batch.
#[derive(Clone, Debug)]
pub struct RollupProof {
    pub proof_data: Vec<u8>,
    pub public_inputs: Vec<u64>,
    pub verification_key_hash: [u8; 32],
    pub proof_type: RollupProofType,
}

/// A batch of rollup transactions together with pre/post state roots.
#[derive(Clone, Debug)]
pub struct RollupBatch {
    pub batch_id: u64,
    pub transactions: Vec<RollupTx>,
    pub pre_state_root: [u8; 32],
    pub post_state_root: [u8; 32],
    pub rollup_proof: Option<RollupProof>,
}

/// Configuration for the rollup.
#[derive(Clone, Copy, Debug)]
pub struct RollupConfig {
    pub max_batch_size: usize,
    pub proof_type: RollupProofType,
    pub state_tree_depth: u8,
    pub challenge_period_blocks: u64,
}

impl Default for RollupConfig {
    fn default() -> (c: Self)
        ensures
            c == (RollupConfig {
                max_batch_size: 1000,
                proof_type: RollupProofType::PLONK,
                state_tree_depth: 20,
                challenge_period_blocks: 100,
            }),
    {
        RollupConfig {
            max_batch_size: 1000,
            proof_type: RollupProofType::PLONK,
            state_tree_depth: 20,
            challenge_period_blocks: 100,
        }
    }
}

/// An L1 batch submission record.
#[derive(Clone, Debug)]
pub struct BatchSubmission {
    pub batch: RollupBatch,
    pub l1_block_number: u64,
    pub submitter: [u8; 32],
    pub bond_amount: u64,
}

/// A fraud proof challenging a specific batch.
#[derive(Clone, Debug)]
pub struct FraudProof {
    pub batch_id: u64,
    pub invalid_tx_index: u32,
    pub expected_root: [u8; 32],
    pub actual_root: [u8; 32],
    pub witness: Vec<u8>,
}

/// Outcome of a dispute resolution.
#[derive(Clone, Copy, Debug, PartialEq, Eq, Structural)]
pub enum DisputeResolution {
    ProverSlashed,
    ChallengerRewarded,
    NoFraud,
}

// ---------------------------------------------------------------------------
// Accounts
// ---------------------------------------------------------------------------

/// A single account inside the rollup state.
#[derive(Clone, Copy, Debug, PartialEq, Eq, Structural)]
pub struct RollupAccount {
    pub balance: u64,
    pub nonce: u64,
}

impl Default for RollupAccount {
    fn default() -> (a: Self)
        ensures
            a == empty_account(),
    {
        RollupAccount { balance: 0, nonce: 0 }
    }
}

/// The account of an address that was never seen.
pub open spec fn empty_account() -> RollupAccount {
    RollupAccount { balance: 0, nonce: 0 }
}

/// The accounts by address.
pub type Accounts = Map<Seq<u8>, RollupAccount>;

/// The account at an address.
pub open spec fn account_at(m: Accounts, addr: Seq<u8>) -> RollupAccount {
    if m.dom().contains(addr) {
        m[addr]
    } else {
        empty_account()
    }
}

/// The sum of two amounts, or the largest amount where it does not fit.
pub open spec fn capped_sum(a: u64, b: u64) -> u64 {
    if a + b > u64::MAX {
        u64::MAX
    } else {
        (a + b) as u64
    }
}

/// Whether the sender of a transaction can pay and bears its nonce.
pub open spec fn tx_valid(m: Accounts, tx: RollupTx) -> bool {
    &&& account_at(m, tx.from@).balance >= tx.amount
    &&& account_at(m, tx.from@).nonce == tx.nonce
}

/// The accounts after the sender's account is opened.
pub open spec fn opened(m: Accounts, addr: Seq<u8>) -> Accounts {
    m.insert(addr, account_at(m, addr))
}

/// The accounts after the sender of a valid transaction paid.
pub open spec fn debited(m: Accounts, tx: RollupTx) -> Accounts {
    m.insert(
        tx.from@,
        RollupAccount {
            balance: (account_at(m, tx.from@).balance - tx.amount) as u64,
            nonce: (account_at(m, tx.from@).nonce + 1) as u64,
        },
    )
}

/// The accounts after an address received an amount.
pub open spec fn credited(m: Accounts, addr: Seq<u8>, amount: u64) -> Accounts {
    m.insert(
        addr,
        RollupAccount {
            balance: capped_sum(account_at(m, addr).balance, amount),
            nonce: account_at(m, addr).nonce,
        },
    )
}

/// The accounts after a transaction: a transaction that is not valid only opens its sender's
/// account.
pub open spec fn tx_applied(m: Accounts, tx: RollupTx) -> Accounts {
    if tx_valid(m, tx) {
        credited(debited(m, tx), tx.to@, tx.amount)
    } else {
        opened(m, tx.from@)
    }
}

/// The accounts after the first `k` transactions.
pub open spec fn txs_applied(m: Accounts, txs: Seq<RollupTx>, k: nat) -> Accounts
    decreases k,
{
    if k == 0 {
        m
    } else {
        tx_applied(txs_applied(m, txs, (k - 1) as nat), txs[k - 1])
    }
}

/// Whether transaction `i` is valid after those before it.
pub open spec fn valid_at(m: Accounts, txs: Seq<RollupTx>, i: nat) -> bool {
    tx_valid(txs_applied(m, txs, i), txs[i as int])
}

/// Whether the first `k` transactions are valid, each after those before it.
pub open spec fn txs_valid(m: Accounts, txs: Seq<RollupTx>, k: nat) -> bool {
    forall|i: nat| i < k ==> #[trigger] valid_at(m, txs, i)
}

/// Whether transaction `i` is the first one that is not valid.
pub open spec fn first_invalid(m: Accounts, txs: Seq<RollupTx>, i: nat) -> bool {
    &&& i < txs.len()
    &&& txs_valid(m, txs, i)
    &&& !valid_at(m, txs, i)
}

/// Whether no transaction that is carried out exhausts its sender's nonces.
pub open spec fn nonces_fit(m: Accounts, txs: Seq<RollupTx>) -> bool {
    forall|i: nat|
        i < txs.len() && txs_valid(m, txs, i) && #[trigger] valid_at(m, txs, i)
            ==> txs[i as int].nonce < u64::MAX
}

/// The accounts after a batch: the transactions up to the first that is not valid, that one
/// included.
pub open spec fn batch_applied(m: Accounts, txs: Seq<RollupTx>, after: Accounts) -> bool {
    if txs_valid(m, txs, txs.len()) {
        after == txs_applied(m, txs, txs.len())
    } else {
        exists|i: nat|
            #[trigger] first_invalid(m, txs, i) && after == txs_applied(m, txs, i + 1)
    }
}

// ---------------------------------------------------------------------------
// State roots
// ---------------------------------------------------------------------------

/// The smallest power of two that is at least `n`, from the power `p` on.
pub open spec fn power_from(n: nat, p: nat) -> nat
    decreases
            (if p >= n {
                0int
            } else {
                n - p
            }),
{
    if p >= n || p == 0 {
        p
    } else {
        power_from(n, 2 * p)
    }
}

/// The smallest power of two that is at least `n`.
pub open spec fn next_power(n: nat) -> nat {
    power_from(n, 1)
}

/// The leaf of an account: the hash of its address, balance and nonce.
pub open spec fn account_leaf(addr: Seq<u8>, account: RollupAccount) -> Seq<u8> {
    hash::blake3_digest(leaf_preimage(addr, account))
}

/// What the leaf of an account hashes.
pub open spec fn leaf_preimage(addr: Seq<u8>, account: RollupAccount) -> Seq<u8> {
    addr + encoding::le_bytes(account.balance as nat, 8) + encoding::le_bytes(
        account.nonce as nat,
        8,
    )
}

/// What a leaf hashes determines the account: its address, its balance and its nonce.
pub proof fn law_leaf_preimage_is_injective(
    addr_a: Seq<u8>,
    a: RollupAccount,
    addr_b: Seq<u8>,
    b: RollupAccount,
)
    ensures
        leaf_preimage(addr_a, a) == leaf_preimage(addr_b, b) <==> addr_a == addr_b && a == b,
        leaf_preimage(addr_a, a).len() == addr_a.len() + 16,
{
    encoding::law_le_u64_injective(a.balance, b.balance);
    encoding::law_le_u64_injective(a.nonce, b.nonce);
    if leaf_preimage(addr_a, a) == leaf_preimage(addr_b, b) {
        let x = encoding::le_bytes(a.balance as nat, 8);
        let y = encoding::le_bytes(b.balance as nat, 8);
        let v = encoding::le_bytes(a.nonce as nat, 8);
        let w = encoding::le_bytes(b.nonce as nat, 8);
        assert((addr_a + x + v).len() == addr_a.len() + 16);
        assert((addr_b + y + w).len() == addr_b.len() + 16);
        encoding::lemma_split(addr_a + x, v, addr_b + y, w);
        encoding::lemma_split(addr_a, x, addr_b, y);
    }
}

/// The leaf of an account belongs to its address, balance and nonce alone, unless the digests of
/// what is hashed collide.
pub proof fn law_leaves_bind_accounts(
    addr_a: Seq<u8>,
    a: RollupAccount,
    addr_b: Seq<u8>,
    b: RollupAccount,
)
    requires
        account_leaf(addr_a, a) == account_leaf(addr_b, b),
    ensures
        (addr_a == addr_b && a == b) || hash::collides(
            leaf_preimage(addr_a, a),
            leaf_preimage(addr_b, b),
        ),
{
    law_leaf_preimage_is_injective(addr_a, a, addr_b, b);
}

/// A valid transaction changes what its sender's leaf hashes, even where it changes no balance.
pub proof fn law_transactions_change_the_senders_leaf(m: Accounts, tx: RollupTx)
    requires
        tx_valid(m, tx),
        tx.nonce < u64::MAX,
    ensures
        leaf_preimage(tx.from@, account_at(m, tx.from@)) != leaf_preimage(
            tx.from@,
            account_at(tx_applied(m, tx), tx.from@),
        ),
{
    law_leaf_preimage_is_injective(
        tx.from@,
        account_at(m, tx.from@),
        tx.from@,
        account_at(tx_applied(m, tx), tx.from@),
    );
}

/// A row filled up with zero digests to the next power of two.
pub open spec fn filled(row: Seq<Seq<u8>>) -> Seq<Seq<u8>> {
    Seq::new(
        next_power(row.len()),
        |i: int|
            if i < row.len() {
                row[i]
            } else {
                hash::zero_digest()
            },
    )
}

/// The digest to which a row reduces by hashing pairs.
pub open spec fn halved_root(row: Seq<Seq<u8>>) -> Seq<u8>
    decreases row.len(),
{
    if row.len() <= 1 {
        row[0]
    } else {
        halved_root(merkle::parents(row))
    }
}

/// The state root of accounts in the order of their addresses.
pub open spec fn entries_root(keys: Seq<[u8; 32]>, accounts: Seq<RollupAccount>) -> Seq<u8> {
    if keys.len() == 0 {
        hash::zero_digest()
    } else {
        halved_root(
            filled(Seq::new(keys.len(), |i: int| account_leaf(keys[i]@, accounts[i]))),
        )
    }
}

proof fn lemma_power_from(n: nat, e: nat)
    requires
        forall|k: nat| k < e ==> #[trigger] pow2(k) < n,
        n > 0,
    ensures
        power_from(n, pow2(e)) >= n,
        exists|k: nat| power_from(n, pow2(e)) == #[trigger] pow2(k),
        forall|k: nat| #[trigger] pow2(k) >= n ==> pow2(k) >= power_from(n, pow2(e)),
    decreases
            (if pow2(e) >= n {
                0int
            } else {
                n - pow2(e)
            }),
{
    lemma_pow2_pos(e);
    lemma_pow2_unfold(e + 1);
    if pow2(e) >= n {
        assert forall|k: nat| #[trigger] pow2(k) >= n implies pow2(k) >= pow2(e) by {
            if k > e {
                lemma_pow2_strictly_increases(e, k);
            } else if k < e {
                assert(pow2(k) < n);
            }
        }
    } else {
        assert forall|k: nat| k < e + 1 implies #[trigger] pow2(k) < n by {
            if k < e {
                assert(pow2(k) < n);
            }
        }
        lemma_power_from(n, e + 1);
    }
}

proof fn lemma_next_power(n: nat)
    requires
        n > 0,
    ensures
        next_power(n) >= n,
        exists|k: nat| next_power(n) == #[trigger] pow2(k),
        forall|k: nat| #[trigger] pow2(k) >= n ==> pow2(k) >= next_power(n),
{
    lemma2_to64();
    lemma_power_from(n, 0);
}

/// Whether `n` is a power of two.
spec fn is_power(n: nat) -> bool {
    exists|k: nat| n == #[trigger] pow2(k)
}

/// Tests whether a number is a power of two.
fn is_power_of_two(n: usize) -> (r: bool)
    requires
        n > 0,
    ensures
        r == is_power(n as nat),
{
    let mut m: usize = n;
    let ghost mut e: nat = 0;
    proof {
        lemma2_to64();
        assert(m * pow2(0) == n);
    }
    while m % 2 == 0
        invariant
            m > 0,
            m * pow2(e) == n,
        decreases m,
    {
        proof {
            lemma_pow2_unfold(e + 1);
            assert((m / 2) * pow2(e + 1) == m * pow2(e)) by (nonlinear_arith)
                requires
                    m % 2 == 0,
                    pow2(e + 1) == 2 * pow2(e),
            ;
            e = e + 1;
        }
        m = m / 2;
    }
    proof {
        if m == 1 {
            assert(n == pow2(e));
        } else if is_power(n as nat) {
            let k = choose|k: nat| n as nat == #[trigger] pow2(k);
            lemma_odd_power(m as nat, e, k);
        }
    }
    m == 1
}

proof fn lemma_odd_power(m: nat, e: nat, k: nat)
    requires
        m % 2 == 1,
        m * pow2(e) == pow2(k),
    ensures
        m == 1,
    decreases e,
{
    lemma2_to64();
    lemma_pow2_pos(e);
    if e == 0 {
        assert(m * 1 == m);
        if k > 0 {
            lemma_pow2_unfold(k);
            assert(pow2(k) % 2 == 0);
        }
    } else {
        lemma_pow2_unfold(e);
        let p = pow2((e - 1) as nat);
        assert(m * (2 * p) == 2 * (m * p)) by (nonlinear_arith);
        if k == 0 {
            assert(2 * (m * p) == 1);
        } else {
            lemma_pow2_unfold(k);
            lemma_odd_power(m, (e - 1) as nat, (k - 1) as nat);
        }
    }
}

/// A power of two above one is even, and its half is a power of two.
proof fn lemma_power_halves(n: nat)
    requires
        is_power(n),
        n > 1,
    ensures
        n % 2 == 0,
        is_power(n / 2),
{
    lemma2_to64();
    let k = choose|k: nat| n == #[trigger] pow2(k);
    if k == 0 {
        assert(pow2(0) == 1);
    }
    lemma_pow2_unfold(k);
    assert(n / 2 == pow2((k - 1) as nat));
}

// ---------------------------------------------------------------------------
// Rollup state
// ---------------------------------------------------------------------------

/// The full rollup state: an in-memory account table, sorted by address, with a Merkle-ised root.
#[derive(Debug)]
pub struct RollupState {
    keys: Vec<[u8; 32]>,
    accounts: Vec<RollupAccount>,
}

/// The place of an address among keys.
pub open spec fn key_place(keys: Seq<[u8; 32]>, addr: Seq<u8>) -> int {
    choose|i: int| 0 <= i < keys.len() && (#[trigger] keys[i])@ == addr
}

/// Whether an address is among keys.
pub open spec fn has_key(keys: Seq<[u8; 32]>, addr: Seq<u8>) -> bool {
    exists|i: int| 0 <= i < keys.len() && (#[trigger] keys[i])@ == addr
}

/// The accounts that keys and accounts, place by place, make up.
pub open spec fn table(keys: Seq<[u8; 32]>, accounts: Seq<RollupAccount>) -> Accounts {
    Map::new(|a: Seq<u8>| has_key(keys, a), |a: Seq<u8>| accounts[key_place(keys, a)])
}

proof fn lemma_table_at(keys: Seq<[u8; 32]>, accounts: Seq<RollupAccount>, i: int)
    requires
        merkle::sorted_keys(keys),
        0 <= i < keys.len(),
    ensures
        table(keys, accounts).dom().contains(keys[i]@),
        table(keys, accounts)[keys[i]@] == accounts[i],
{
    let j = key_place(keys, keys[i]@);
    assert(has_key(keys, keys[i]@));
    merkle::lemma_sorted_unique(keys, i, j);
}

proof fn lemma_table_update(
    keys: Seq<[u8; 32]>,
    accounts: Seq<RollupAccount>,
    i: int,
    a: RollupAccount,
)
    requires
        merkle::sorted_keys(keys),
        keys.len() == accounts.len(),
        0 <= i < keys.len(),
    ensures
        table(keys, accounts.update(i, a)) == table(keys, accounts).insert(keys[i]@, a),
{
    let before = table(keys, accounts).insert(keys[i]@, a);
    let after = table(keys, accounts.update(i, a));
    assert forall|x: Seq<u8>| after.dom().contains(x) implies after[x] == before[x] by {
        let j = key_place(keys, x);
        assert(keys[j]@ == x);
        if j != i {
            if x == keys[i]@ {
                merkle::lemma_sorted_unique(keys, i, j);
            }
        }
    }
    assert(has_key(keys, keys[i]@));
    assert(after =~= before);
}

proof fn lemma_table_insert(
    keys: Seq<[u8; 32]>,
    accounts: Seq<RollupAccount>,
    i: int,
    k: [u8; 32],
    a: RollupAccount,
)
    requires
        merkle::sorted_keys(keys),
        merkle::sorted_keys(keys.insert(i, k)),
        keys.len() == accounts.len(),
        0 <= i <= keys.len(),
        !has_key(keys, k@),
    ensures
        table(keys.insert(i, k), accounts.insert(i, a)) == table(keys, accounts).insert(k@, a),
{
    let keys2 = keys.insert(i, k);
    let accounts2 = accounts.insert(i, a);
    let before = table(keys, accounts).insert(k@, a);
    let after = table(keys2, accounts2);
    assert forall|x: Seq<u8>| after.dom().contains(x) == before.dom().contains(x) by {
        if has_key(keys, x) {
            let j = key_place(keys, x);
            let j2 = if j < i {
                j
            } else {
                j + 1
            };
            assert(keys2[j2]@ == x);
        }
        if x == k@ {
            assert(keys2[i]@ == x);
        }
        if has_key(keys2, x) {
            let j2 = key_place(keys2, x);
            if j2 != i {
                let j = if j2 < i {
                    j2
                } else {
                    j2 - 1
                };
                assert(keys[j]@ == x);
            }
        }
    }
    assert forall|x: Seq<u8>| after.dom().contains(x) implies after[x] == before[x] by {
        if x == k@ {
            lemma_table_at(keys2, accounts2, i);
            assert(keys2[i] == k);
        } else {
            let j = key_place(keys, x);
            assert(keys[j]@ == x);
            let j2 = if j < i {
                j
            } else {
                j + 1
            };
            assert(keys2[j2] == keys[j]);
            lemma_table_at(keys2, accounts2, j2);
            lemma_table_at(keys, accounts, j);
        }
    }
    assert(after =~= before);
}

/// Sorted tables of the same accounts are the same: the state root depends on the accounts alone.
pub proof fn law_state_root_depends_on_accounts_alone(
    keys1: Seq<[u8; 32]>,
    accounts1: Seq<RollupAccount>,
    keys2: Seq<[u8; 32]>,
    accounts2: Seq<RollupAccount>,
)
    requires
        merkle::sorted_keys(keys1),
        merkle::sorted_keys(keys2),
        keys1.len() == accounts1.len(),
        keys2.len() == accounts2.len(),
        table(keys1, accounts1) == table(keys2, accounts2),
    ensures
        entries_root(keys1, accounts1) == entries_root(keys2, accounts2),
{
    lemma_same_prefix(keys1, accounts1, keys2, accounts2, keys1.len());
    lemma_same_prefix(keys2, accounts2, keys1, accounts1, keys2.len());
    let leaves1 = Seq::new(keys1.len(), |i: int| account_leaf(keys1[i]@, accounts1[i]));
    let leaves2 = Seq::new(keys2.len(), |i: int| account_leaf(keys2[i]@, accounts2[i]));
    assert forall|i: int| 0 <= i < keys1.len() implies leaves1[i] == leaves2[i] by {
        assert(keys1[i]@ == keys2[i]@);
        lemma_table_at(keys1, accounts1, i);
        lemma_table_at(keys2, accounts2, i);
    }
    assert(leaves1 =~= leaves2);
}

proof fn lemma_same_prefix(
    keys1: Seq<[u8; 32]>,
    accounts1: Seq<RollupAccount>,
    keys2: Seq<[u8; 32]>,
    accounts2: Seq<RollupAccount>,
    n: nat,
)
    requires
        merkle::sorted_keys(keys1),
        merkle::sorted_keys(keys2),
        keys1.len() == accounts1.len(),
        keys2.len() == accounts2.len(),
        table(keys1, accounts1) == table(keys2, accounts2),
        n <= keys1.len(),
    ensures
        n <= keys2.len(),
        forall|i: int| 0 <= i < n ==> (#[trigger] keys1[i])@ == keys2[i]@,
    decreases n,
{
    if n > 0 {
        let l = n - 1;
        lemma_same_prefix(keys1, accounts1, keys2, accounts2, l as nat);
        // The l-th key of each table stands at some place of the other.
        lemma_table_at(keys1, accounts1, l);
        assert(has_key(keys2, keys1[l]@));
        let j = key_place(keys2, keys1[l]@);
        assert(keys2[j]@ == keys1[l]@);
        if j < l {
            assert(keys1[j]@ == keys2[j]@);
            merkle::lemma_sorted_unique(keys1, j, l);
        }
        if j > l {
            lemma_table_at(keys2, accounts2, l);
            assert(has_key(keys1, keys2[l]@));
            let i = key_place(keys1, keys2[l]@);
            assert(keys1[i]@ == keys2[l]@);
            assert(encoding::lex_lt(keys2[l]@, keys2[j]@));
            if i < l {
                assert(keys1[i]@ == keys2[i]@);
                merkle::lemma_sorted_unique(keys2, i, l);
            } else if i == l {
                merkle::lemma_sorted_unique(keys2, j, l);
            } else {
                assert(encoding::lex_lt(keys1[l]@, keys1[i]@));
                encoding::lemma_lex_transitive(keys1[l]@, keys1[i]@, keys1[l]@);
                encoding::lemma_lex_irreflexive(keys1[l]@);
            }
        }
    }
}

impl Clone for RollupState {
    fn clone(&self) -> (r: Self)
        ensures
            r.key_list() == self.key_list(),
            r.account_list() == self.account_list(),
            r.wf() == self.wf(),
    {
        let mut keys: Vec<[u8; 32]> = Vec::new();
        let mut accounts: Vec<RollupAccount> = Vec::new();
        let mut i: usize = 0;
        while i < self.keys.len()
            invariant
                i <= self.keys.len(),
                keys@ == self.keys@.take(i as int),
            decreases self.keys.len() - i,
        {
            keys.push(self.keys[i]);
            assert(keys@ =~= self.keys@.take(i + 1));
            i = i + 1;
        }
        assert(keys@ =~= self.keys@);
        let mut j: usize = 0;
        while j < self.accounts.len()
            invariant
                j <= self.accounts.len(),
                accounts@ == self.accounts@.take(j as int),
            decreases self.accounts.len() - j,
        {
            accounts.push(self.accounts[j]);
            assert(accounts@ =~= self.accounts@.take(j + 1));
            j = j + 1;
        }
        assert(accounts@ =~= self.accounts@);
        RollupState { keys, accounts }
    }
}

impl View for RollupState {
    type V = Accounts;

    open spec fn view(&self) -> Accounts {
        table(self.key_list(), self.account_list())
    }
}

impl RollupState {
    /// The addresses, in increasing order.
    pub closed spec fn key_list(&self) -> Seq<[u8; 32]> {
        self.keys@
    }

    /// The accounts, in the order of their addresses.
    pub closed spec fn account_list(&self) -> Seq<RollupAccount> {
        self.accounts@
    }

    /// The addresses are sorted and each has an account.
    pub open spec fn wf(&self) -> bool {
        &&& merkle::sorted_keys(self.key_list())
        &&& self.key_list().len() == self.account_list().len()
    }

    /// The state root.
    pub open spec fn root(&self) -> Seq<u8> {
        entries_root(self.key_list(), self.account_list())
    }

    pub fn new() -> (s: Self)
        ensures
            s.wf(),
            s@ == Accounts::empty(),
            s.key_list() == Seq::<[u8; 32]>::empty(),
    {
        let s: RollupState = RollupState { keys: Vec::new(), accounts: Vec::new() };
        assert(s@ =~= Accounts::empty());
        s
    }

    /// The account at an address; an empty one where there is none.
    pub fn get_account(&self, addr: &[u8; 32]) -> (a: RollupAccount)
        requires
            self.wf(),
        ensures
            a == account_at(self@, addr@),
    {
        let (i, found) = search_key(&self.keys, addr);
        if found {
            proof {
                lemma_table_at(self.keys@, self.accounts@, i as int);
            }
            self.accounts[i]
        } else {
            proof {
                self.lemma_absent(addr@);
            }
            RollupAccount::default()
        }
    }

    /// An address that is neither below nor above a key is no key.
    proof fn lemma_absent(&self, addr: Seq<u8>)
        requires
            forall|i: int|
                0 <= i < self.keys@.len() ==> encoding::lex_lt(#[trigger] self.keys@[i]@, addr)
                    || encoding::lex_lt(addr, self.keys@[i]@),
        ensures
            !has_key(self.keys@, addr),
    {
        encoding::lemma_lex_irreflexive(addr);
    }

    /// Sets the account at an address.
    fn set_account(&mut self, addr: &[u8; 32], account: RollupAccount)
        requires
            old(self).wf(),
        ensures
            final(self).wf(),
            final(self)@ == old(self)@.insert(addr@, account),
    {
        let ghost before = *self;
        let (i, found) = search_key(&self.keys, addr);
        if found {
            self.accounts[i] = account;
            proof {
                lemma_table_update(before.keys@, before.accounts@, i as int, account);
            }
        } else {
            self.keys.insert(i, *addr);
            self.accounts.insert(i, account);
            proof {
                before.lemma_absent(addr@);
                assert forall|x: int, y: int| 0 <= x < y < self.keys@.len() implies encoding::lex_lt(
                    #[trigger] self.keys@[x]@,
                    #[trigger] self.keys@[y]@,
                ) by {
                    let a = if x < i {
                        x
                    } else {
                        x - 1
                    };
                    let b = if y < i {
                        y
                    } else {
                        y - 1
                    };
                    if x != i {
                        assert(self.keys@[x] == before.keys@[a]);
                    }
                    if y != i {
                        assert(self.keys@[y] == before.keys@[b]);
                    }
                }
                lemma_table_insert(before.keys@, before.accounts@, i as int, *addr, account);
            }
        }
    }

    /// Credit an account (used for genesis / deposits).
    pub fn credit(&mut self, addr: [u8; 32], amount: u64)
        requires
            old(self).wf(),
        ensures
            final(self).wf(),
            final(self)@ == credited(old(self)@, addr@, amount),
    {
        let account: RollupAccount = self.get_account(&addr);
        self.set_account(
            &addr,
            RollupAccount {
                balance: account.balance.saturating_add(amount),
                nonce: account.nonce,
            },
        );
    }

    /// Compute a deterministic state root.
    ///
    /// Accounts are sorted by address, hashed pairwise into a Merkle tree.
    pub fn compute_state_root(&self) -> (root: [u8; 32])
        requires
            self.wf(),
        ensures
            root@ == self.root(),
    {
        if self.keys.len() == 0 {
            let zero: [u8; 32] = [0u8; 32];
            assert(zero@ =~= hash::zero_digest());
            return zero;
        }
        let ghost row = Seq::new(
            self.keys@.len(),
            |i: int| account_leaf(self.keys@[i]@, self.accounts@[i]),
        );
        let mut leaves: Vec<Hash256> = Vec::new();
        let mut i: usize = 0;
        assert(merkle::digests(leaves@) =~= row.take(0));
        while i < self.keys.len()
            invariant
                self.wf(),
                i <= self.keys.len(),
                leaves.len() == i,
                row == Seq::new(
                    self.keys@.len(),
                    |i: int| account_leaf(self.keys@[i]@, self.accounts@[i]),
                ),
                merkle::digests(leaves@) == row.take(i as int),
            decreases self.keys.len() - i,
        {
            let mut buf: Vec<u8> = copy_bytes(&self.keys[i]);
            push_u64(&mut buf, self.accounts[i].balance);
            push_u64(&mut buf, self.accounts[i].nonce);
            leaves.push(hash_bytes(&buf));
            assert(merkle::digests(leaves@) =~= row.take(i + 1));
            i = i + 1;
        }
        let ghost n = row.len();
        let ghost np = next_power(n);
        proof {
            lemma_next_power(n);
            assert(is_power(np));
            assert(row.take(i as int) =~= row);
        }
        let mut ready: bool = is_power_of_two(leaves.len());
        while !ready
            invariant
                n > 0,
                np == next_power(n),
                is_power(np),
                n == row.len(),
                n <= leaves.len() <= np,
                ready == is_power(leaves.len() as nat),
                forall|k: nat| #[trigger] pow2(k) >= n ==> pow2(k) >= np,
                merkle::digests(leaves@) == Seq::new(
                    leaves@.len(),
                    |i: int|
                        if i < n {
                            row[i]
                        } else {
                            hash::zero_digest()
                        },
                ),
            decreases np - leaves.len(),
        {
            let ghost shorter = merkle::digests(leaves@);
            leaves.push(Hash256::zero());
            proof {
                let longer = merkle::digests(leaves@);
                let want = Seq::new(
                    leaves@.len(),
                    |i: int|
                        if i < n {
                            row[i]
                        } else {
                            hash::zero_digest()
                        },
                );
                assert forall|i: int| 0 <= i < longer.len() implies #[trigger] longer[i]
                    == want[i] by {
                    if i < shorter.len() {
                        assert(longer[i] == shorter[i]);
                    }
                }
                assert(longer =~= want);
            }
            ready = is_power_of_two(leaves.len());
        }
        proof {
            let k = choose|k: nat| leaves.len() as nat == #[trigger] pow2(k);
            assert(pow2(k) >= np);
            assert(merkle::digests(leaves@) =~= filled(row));
        }
        while leaves.len() > 1
            invariant
                leaves.len() > 0,
                is_power(leaves.len() as nat),
                halved_root(merkle::digests(leaves@)) == halved_root(filled(row)),
            decreases leaves.len(),
        {
            proof {
                lemma_power_halves(leaves.len() as nat);
            }
            let ghost below = merkle::digests(leaves@);
            let mut next: Vec<Hash256> = Vec::new();
            let mut j: usize = 0;
            while j < leaves.len() / 2
                invariant
                    leaves.len() % 2 == 0,
                    j <= leaves.len() / 2,
                    below == merkle::digests(leaves@),
                    next.len() == j,
                    merkle::digests(next@) == merkle::parents(below).take(j as int),
                decreases leaves.len() / 2 - j,
            {
                next.push(hash_pair(&leaves[2 * j], &leaves[2 * j + 1]));
                assert(merkle::digests(next@) =~= merkle::parents(below).take(j + 1));
                j = j + 1;
            }
            assert(merkle::parents(below).take(j as int) =~= merkle::parents(below));
            assert(next.len() == leaves.len() / 2);
            leaves = next;
        }
        assert(merkle::digests(leaves@)[0] == leaves@[0]@);
        leaves[0].0
    }

    /// Carries out one transaction, or opens its sender's account where it is not valid.
    fn apply_tx(&mut self, tx: &RollupTx) -> (done: bool)
        requires
            old(self).wf(),
            tx_valid(old(self)@, *tx) ==> tx.nonce < u64::MAX,
        ensures
            final(self).wf(),
            done == tx_valid(old(self)@, *tx),
            final(self)@ == tx_applied(old(self)@, *tx),
    {
        let sender: RollupAccount = self.get_account(&tx.from);
        if sender.balance < tx.amount || sender.nonce != tx.nonce {
            self.set_account(&tx.from, sender);
            return false;
        }
        self.set_account(
            &tx.from,
            RollupAccount { balance: sender.balance - tx.amount, nonce: sender.nonce + 1 },
        );
        self.credit(tx.to, tx.amount);
        true
    }

    /// Apply a batch of transactions, returning the new state root.
    ///
    /// Returns `Err` with the index of the first invalid transaction; what came before it stays
    /// applied.
    pub fn apply_batch(&mut self, txs: &[RollupTx]) -> (r: Result<[u8; 32], usize>)
        requires
            old(self).wf(),
            nonces_fit(old(self)@, txs@),
        ensures
            final(self).wf(),
            applies(*old(self), txs@, r, *final(self)),
            batch_applied(old(self)@, txs@, final(self)@),
    {
        let ghost start = self@;
        let mut i: usize = 0;
        while i < txs.len()
            invariant
                self.wf(),
                start == old(self)@,
                i <= txs.len(),
                nonces_fit(start, txs@),
                txs_valid(start, txs@, i as nat),
                self@ == txs_applied(start, txs@, i as nat),
            decreases txs.len() - i,
        {
            proof {
                assert(valid_at(start, txs@, i as nat) == tx_valid(self@, txs@[i as int]));
            }
            if !self.apply_tx(&txs[i]) {
                assert(first_invalid(start, txs@, i as nat));
                return Err(i);
            }
            i = i + 1;
        }
        Ok(self.compute_state_root())
    }

    /// Verify that a batch produces the claimed state transition.
    pub fn verify_batch(&self, batch: &RollupBatch) -> (r: Result<bool, String>)
        requires
            self.wf(),
            self.root() == batch.pre_state_root@ ==> nonces_fit(self@, batch.transactions@),
        ensures
            match r {
                Ok(holds) => verdict(self@, *batch) == Ok::<bool, Seq<char>>(holds),
                Err(text) => verdict(self@, *batch) == Err::<bool, Seq<char>>(text@),
            },
    {
        proof {
            law_roots_follow_accounts(*self);
        }
        let current_root: [u8; 32] = self.compute_state_root();
        if !bytes_eq(&current_root, &batch.pre_state_root) {
            return Err("pre-state root mismatch".to_owned());
        }
        let mut copy: RollupState = self.clone();
        match copy.apply_batch(&batch.transactions) {
            Ok(root) => {
                proof {
                    law_roots_follow_accounts(copy);
                }
                Ok(bytes_eq(&root, &batch.post_state_root))
            },
            Err(idx) => {
                proof {
                    lemma_first_invalid(self@, batch.transactions@, idx as nat);
                }
                let number: String = encoding::decimal_text(idx as u64);
                Err("invalid transaction at index ".to_owned().concat(number.as_str()))
            },
        }
    }
}

/// What applying a batch to a state returns and leaves.
pub open spec fn applies(
    before: RollupState,
    txs: Seq<RollupTx>,
    r: Result<[u8; 32], usize>,
    after: RollupState,
) -> bool {
    match r {
        Ok(root) => {
            &&& txs_valid(before@, txs, txs.len())
            &&& after@ == txs_applied(before@, txs, txs.len())
            &&& root@ == after.root()
        },
        Err(i) => {
            &&& first_invalid(before@, txs, i as nat)
            &&& after@ == txs_applied(before@, txs, (i + 1) as nat)
        },
    }
}

impl Default for RollupState {
    fn default() -> (s: Self)
        ensures
            s.wf(),
            s@ == Accounts::empty(),
    {
        RollupState::new()
    }
}

/// States with the same accounts have the same root.
pub proof fn law_equal_accounts_equal_roots(a: RollupState, b: RollupState)
    requires
        a.wf(),
        b.wf(),
        a@ == b@,
    ensures
        a.root() == b.root(),
{
    law_state_root_depends_on_accounts_alone(
        a.key_list(),
        a.account_list(),
        b.key_list(),
        b.account_list(),
    );
}

/// The root of the states that hold these accounts.
pub open spec fn root_of(m: Accounts) -> Seq<u8> {
    (choose|s: RollupState| #[trigger] s.wf() && s@ == m).root()
}

/// A state's root is that of its accounts, whatever led to them.
pub proof fn law_roots_follow_accounts(s: RollupState)
    requires
        s.wf(),
    ensures
        s.root() == root_of(s@),
{
    let t = choose|t: RollupState| #[trigger] t.wf() && t@ == s@;
    assert(t.wf() && t@ == s@);
    law_equal_accounts_equal_roots(s, t);
}

/// What verifying a batch against accounts comes to: whether the claimed post-state root is the
/// one reached, or why the batch does not apply.
pub open spec fn verdict(m: Accounts, batch: RollupBatch) -> Result<bool, Seq<char>> {
    let txs = batch.transactions@;
    if root_of(m) != batch.pre_state_root@ {
        Err("pre-state root mismatch"@)
    } else if txs_valid(m, txs, txs.len()) {
        Ok(root_of(txs_applied(m, txs, txs.len())) == batch.post_state_root@)
    } else {
        let i = choose|i: nat| first_invalid(m, txs, i);
        Err("invalid transaction at index "@ + encoding::decimal(i))
    }
}

proof fn lemma_first_invalid(m: Accounts, txs: Seq<RollupTx>, i: nat)
    requires
        first_invalid(m, txs, i),
    ensures
        !txs_valid(m, txs, txs.len()),
        i == choose|i: nat| first_invalid(m, txs, i),
{
    let j = choose|j: nat| first_invalid(m, txs, j);
    assert(!valid_at(m, txs, i));
    if i < j {
        assert(valid_at(m, txs, i));
    } else if j < i {
        assert(valid_at(m, txs, j));
    }
}

// ---------------------------------------------------------------------------
// Conservation
// ---------------------------------------------------------------------------

/// What an address pays in the first `k` transactions.
pub open spec fn paid(txs: Seq<RollupTx>, addr: Seq<u8>, k: nat) -> nat
    decreases k,
{
    if k == 0 {
        0
    } else {
        paid(txs, addr, (k - 1) as nat) + if txs[k - 1].from@ == addr {
            txs[k - 1].amount as nat
        } else {
            0
        }
    }
}

/// What an address receives in the first `k` transactions.
pub open spec fn received(txs: Seq<RollupTx>, addr: Seq<u8>, k: nat) -> nat
    decreases k,
{
    if k == 0 {
        0
    } else {
        received(txs, addr, (k - 1) as nat) + if txs[k - 1].to@ == addr {
            txs[k - 1].amount as nat
        } else {
            0
        }
    }
}

/// How many of the first `k` transactions an address sends.
pub open spec fn sent(txs: Seq<RollupTx>, addr: Seq<u8>, k: nat) -> nat
    decreases k,
{
    if k == 0 {
        0
    } else {
        sent(txs, addr, (k - 1) as nat) + if txs[k - 1].from@ == addr {
            1nat
        } else {
            0
        }
    }
}

/// The sum of all balances.
pub open spec fn total(m: Accounts) -> nat
    decreases m.dom().len(),
{
    if m.dom().finite() && m.dom().len() > 0 {
        let a = m.dom().choose();
        m[a].balance as nat + total(m.remove(a))
    } else {
        0
    }
}

proof fn lemma_total_remove(m: Accounts, k: Seq<u8>)
    requires
        m.dom().finite(),
        m.dom().contains(k),
    ensures
        total(m) == m[k].balance + total(m.remove(k)),
    decreases m.dom().len(),
{
    let a = m.dom().choose();
    assert(m.dom().contains(a));
    assert(m.remove(a).dom() =~= m.dom().remove(a));
    assert(m.remove(k).dom() =~= m.dom().remove(k));
    if a != k {
        lemma_total_remove(m.remove(a), k);
        lemma_total_remove(m.remove(k), a);
        assert(m.remove(a).remove(k) =~= m.remove(k).remove(a));
    }
}

/// Setting an account changes the sum by the change of its balance.
proof fn lemma_total_insert(m: Accounts, k: Seq<u8>, account: RollupAccount)
    requires
        m.dom().finite(),
    ensures
        m.insert(k, account).dom().finite(),
        total(m.insert(k, account)) == total(m) - account_at(m, k).balance + account.balance,
{
    let after = m.insert(k, account);
    assert(after.dom() =~= m.dom().insert(k));
    lemma_total_remove(after, k);
    if m.dom().contains(k) {
        lemma_total_remove(m, k);
        assert(after.remove(k) =~= m.remove(k));
    } else {
        assert(after.remove(k) =~= m);
    }
}

/// Two balances together are at most the sum of all.
proof fn lemma_total_bounds(m: Accounts, a: Seq<u8>, b: Seq<u8>)
    requires
        m.dom().finite(),
        a != b,
    ensures
        account_at(m, a).balance + account_at(m, b).balance <= total(m),
{
    if m.dom().contains(a) {
        lemma_total_remove(m, a);
        assert(m.remove(a).dom() =~= m.dom().remove(a));
        if m.dom().contains(b) {
            lemma_total_remove(m.remove(a), b);
        }
    } else if m.dom().contains(b) {
        lemma_total_remove(m, b);
    }
}

/// A state holds finitely many accounts.
pub proof fn law_states_are_finite(s: RollupState)
    ensures
        s@.dom().finite(),
{
    let addresses = s.key_list().map_values(|k: [u8; 32]| k@);
    assert(s@.dom() =~= addresses.to_set()) by {
        assert forall|a: Seq<u8>| s@.dom().contains(a) == addresses.contains(a) by {
            if has_key(s.key_list(), a) {
                let i = key_place(s.key_list(), a);
                assert(s.key_list()[i]@ == a);
                assert(addresses[i] == a);
            }
            if addresses.contains(a) {
                let i = choose|i: int| 0 <= i < addresses.len() && addresses[i] == a;
                assert(s.key_list()[i]@ == a);
            }
        }
    }
    vstd::seq_lib::seq_to_set_is_finite(addresses);
}

/// A batch of valid transactions changes each balance by what the address receives less what it
/// pays, each nonce by the number of transactions it sends where the nonces suffice, and leaves the
/// sum of all balances as it was, where that sum is an amount. The next transaction, if it is not
/// valid, changes nothing.
pub proof fn law_batches_conserve(m: Accounts, txs: Seq<RollupTx>, k: nat, addr: Seq<u8>)
    requires
        m.dom().finite(),
        total(m) <= u64::MAX,
        k <= txs.len(),
        txs_valid(m, txs, k),
    ensures
        account_at(txs_applied(m, txs, k), addr).balance == account_at(m, addr).balance + received(
            txs,
            addr,
            k,
        ) - paid(txs, addr, k),
        nonces_fit(m, txs) ==> account_at(txs_applied(m, txs, k), addr).nonce == account_at(
            m,
            addr,
        ).nonce + sent(txs, addr, k),
        txs_applied(m, txs, k).dom().finite(),
        total(txs_applied(m, txs, k)) == total(m),
        first_invalid(m, txs, k) ==> {
            &&& account_at(txs_applied(m, txs, k + 1), addr) == account_at(
                txs_applied(m, txs, k),
                addr,
            )
            &&& total(txs_applied(m, txs, k + 1)) == total(m)
        },
    decreases k,
{
    let here = txs_applied(m, txs, k);
    if k > 0 {
        let l = (k - 1) as nat;
        assert(txs_valid(m, txs, l)) by {
            assert forall|i: nat| i < l implies #[trigger] valid_at(m, txs, i) by {}
        }
        law_batches_conserve(m, txs, l, addr);
        let before = txs_applied(m, txs, l);
        let tx = txs[l as int];
        assert(valid_at(m, txs, l));
        let mid = debited(before, tx);
        if tx.from@ != tx.to@ {
            lemma_total_bounds(before, tx.from@, tx.to@);
        }
        lemma_total_insert(before, tx.from@, mid[tx.from@]);
        lemma_total_insert(mid, tx.to@, here[tx.to@]);
    }
    if first_invalid(m, txs, k) {
        assert(!valid_at(m, txs, k));
        lemma_total_insert(here, txs[k as int].from@, account_at(here, txs[k as int].from@));
    }
}

/// A valid transaction from an address to itself changes its nonce alone.
pub proof fn law_self_transfers_change_the_nonce(m: Accounts, tx: RollupTx, other: Seq<u8>)
    requires
        tx_valid(m, tx),
        tx.from@ == tx.to@,
        tx.nonce < u64::MAX,
        other != tx.from@,
    ensures
        account_at(tx_applied(m, tx), tx.from@).balance == account_at(m, tx.from@).balance,
        account_at(tx_applied(m, tx), tx.from@).nonce == account_at(m, tx.from@).nonce + 1,
        account_at(tx_applied(m, tx), other) == account_at(m, other),
{
}

/// A valid transaction between two different accounts moves its amount from one to the other,
/// where the receiver's balance does not overflow, and touches no third account.
pub proof fn law_transactions_move_money(m: Accounts, tx: RollupTx, other: Seq<u8>)
    requires
        tx_valid(m, tx),
        tx.from@ != tx.to@,
        account_at(m, tx.to@).balance + tx.amount <= u64::MAX,
        other != tx.from@,
        other != tx.to@,
    ensures
        account_at(tx_applied(m, tx), tx.from@).balance + account_at(
            tx_applied(m, tx),
            tx.to@,
        ).balance == account_at(m, tx.from@).balance + account_at(m, tx.to@).balance,
        account_at(tx_applied(m, tx), tx.from@).nonce == (account_at(m, tx.from@).nonce + 1) as u64,
        account_at(tx_applied(m, tx), tx.to@).nonce == account_at(m, tx.to@).nonce,
        account_at(tx_applied(m, tx), other) == account_at(m, other),
{
}

// ---------------------------------------------------------------------------
// Verifier
// ---------------------------------------------------------------------------

/// The 32 bytes that up to four 64-bit numbers make up; missing numbers are zero.
pub open spec fn packed(vals: Seq<u64>) -> Seq<u8> {
    Seq::new(
        32,
        |i: int|
            if i / 8 < vals.len() {
                encoding::le_bytes(vals[i / 8] as nat, 8)[i % 8]
            } else {
                0u8
            },
    )
}

/// The four 64-bit numbers that 32 bytes make up.
pub open spec fn unpacked(bytes: Seq<u8>) -> Seq<u64> {
    Seq::new(4, |i: int| encoding::le_value(bytes.subrange(8 * i, 8 * i + 8)) as u64)
}

/// Packing the numbers that 32 bytes make up gives the bytes back.
pub proof fn law_packing_roundtrip(bytes: Seq<u8>)
    requires
        bytes.len() == 32,
    ensures
        packed(unpacked(bytes)) == bytes,
{
    assert forall|i: int| 0 <= i < 32 implies #[trigger] packed(unpacked(bytes))[i] == bytes[i] by {
        let part = bytes.subrange(8 * (i / 8), 8 * (i / 8) + 8);
        encoding::lemma_le_value(part);
        encoding::lemma_le_value_u64(part);
        assert(part[i % 8] == bytes[i]);
    }
    assert(packed(unpacked(bytes)) =~= bytes);
}

/// Pack 4 u64 into 32 bytes (little-endian).
pub fn u64s_to_bytes(vals: &[u64]) -> (out: [u8; 32])
    ensures
        out@ == packed(vals@),
{
    let mut buf: Vec<u8> = Vec::new();
    let mut i: usize = 0;
    while i < 4
        invariant
            i <= 4,
            buf@ == packed(vals@).take(8 * i),
        decreases 4 - i,
    {
        let v: u64 = if i < vals.len() {
            vals[i]
        } else {
            0
        };
        let ghost before = buf@;
        push_u64(&mut buf, v);
        proof {
            encoding::lemma_le_bytes_len(v as nat, 8);
            lemma_zero_bytes(8);
            assert forall|k: int| 0 <= k < 8 * (i + 1) implies #[trigger] buf@[k] == packed(
                vals@,
            )[k] by {
                if k >= 8 * i {
                    assert(k / 8 == i && k % 8 == k - 8 * i);
                }
            }
            assert(buf@ =~= packed(vals@).take(8 * (i + 1)));
        }
        i = i + 1;
    }
    assert(packed(vals@).take(32) =~= packed(vals@));
    assert(buf@.subrange(0, 32) =~= buf@);
    first_32(&buf)
}

proof fn lemma_zero_bytes(n: nat)
    ensures
        encoding::le_bytes(0, n).len() == n,
        forall|i: int| 0 <= i < n ==> encoding::le_bytes(0, n)[i] == 0,
    decreases n,
{
    if n > 0 {
        lemma_zero_bytes((n - 1) as nat);
    }
}

/// Unpack 32 bytes into 4 u64 (little-endian).
pub fn bytes_to_u64s(bytes: &[u8; 32]) -> (out: Vec<u64>)
    ensures
        out@ == unpacked(bytes@),
{
    let data: &[u8] = bytes;
    let mut out: Vec<u64> = Vec::new();
    let mut i: usize = 0;
    while i < 4
        invariant
            i <= 4,
            data@ == bytes@,
            data.len() == 32,
            out@ == unpacked(bytes@).take(i as int),
        decreases 4 - i,
    {
        out.push(read_u64(vstd::slice::slice_subrange(data, 8 * i, 8 * i + 8)));
        assert(out@ =~= unpacked(bytes@).take(i + 1));
        i = i + 1;
    }
    assert(unpacked(bytes@).take(4) =~= unpacked(bytes@));
    out
}

/// Whether a rollup proof has the required structure and its hash a leading zero nibble.
pub open spec fn proof_acceptable(p: RollupProof, kind: RollupProofType) -> bool {
    &&& p.proof_data.len() > 0
    &&& p.public_inputs.len() > 0
    &&& p.verification_key_hash@ != hash::zero_digest()
    &&& p.proof_type == kind
    &&& hash::blake3_digest(p.proof_data@)[0] < 0x10
}

/// Verifies rollup proofs and state transitions.
pub struct RollupVerifier {
    config: RollupConfig,
}

impl RollupVerifier {
    /// The configuration.
    pub closed spec fn settings(&self) -> RollupConfig {
        self.config
    }

    pub fn new(config: RollupConfig) -> (v: Self)
        ensures
            v.settings() == config,
    {
        RollupVerifier { config }
    }

    /// Verify a rollup proof's structural validity.
    ///
    /// The proof data must hash to a digest with a leading zero nibble: a trivial proof of work
    /// for pipeline testing, no zero-knowledge proof.
    pub fn verify_proof(&self, p: &RollupProof) -> (r: bool)
        ensures
            r == proof_acceptable(*p, self.settings().proof_type),
    {
        if p.proof_data.len() == 0 {
            return false;
        }
        if p.public_inputs.len() == 0 {
            return false;
        }
        let zero: [u8; 32] = [0u8; 32];
        assert(zero@ =~= hash::zero_digest());
        if bytes_eq(&p.verification_key_hash, &zero) {
            return false;
        }
        if p.proof_type != self.config.proof_type {
            return false;
        }
        let h: [u8; 32] = blake3_hash(&p.proof_data);
        h[0] < 0x10
    }

    /// Verify a full state transition: proof + state roots.
    ///
    /// The first four public inputs encode the pre-state root, the next four the post-state root.
    pub fn verify_state_transition(&self, batch: &RollupBatch) -> (r: bool)
        ensures
            r == match batch.rollup_proof {
                None => false,
                Some(p) => {
                    &&& proof_acceptable(p, self.settings().proof_type)
                    &&& p.public_inputs.len() >= 8
                    &&& packed(p.public_inputs@.subrange(0, 4)) == batch.pre_state_root@
                    &&& packed(p.public_inputs@.subrange(4, 8)) == batch.post_state_root@
                },
            },
    {
        match &batch.rollup_proof {
            None => false,
            Some(p) => {
                if !self.verify_proof(p) {
                    return false;
                }
                if p.public_inputs.len() < 8 {
                    return false;
                }
                let inputs: &[u64] = p.public_inputs.as_slice();
                let pre_root: [u8; 32] = u64s_to_bytes(
                    vstd::slice::slice_subrange(inputs, 0, 4),
                );
                let post_root: [u8; 32] = u64s_to_bytes(
                    vstd::slice::slice_subrange(inputs, 4, 8),
                );
                bytes_eq(&pre_root, &batch.pre_state_root) && bytes_eq(
                    &post_root,
                    &batch.post_state_root,
                )
            },
        }
    }
}

// ---------------------------------------------------------------------------
// Sequencer
// ---------------------------------------------------------------------------

/// Collects transactions and flushes them into batches.
pub struct RollupSequencer {
    config: RollupConfig,
    pending: Vec<RollupTx>,
    next_batch_id: u64,
}

impl RollupSequencer {
    /// The configuration.
    pub closed spec fn settings(&self) -> RollupConfig {
        self.config
    }

    /// The transactions that wait.
    pub closed spec fn waiting(&self) -> Seq<RollupTx> {
        self.pending@
    }

    /// The number of the next batch.
    pub closed spec fn next_id(&self) -> u64 {
        self.next_batch_id
    }

    /// The transactions of the next batch.
    pub open spec fn next_txs(&self) -> Seq<RollupTx> {
        self.waiting().take(
            if self.waiting().len() < self.settings().max_batch_size {
                self.waiting().len() as int
            } else {
                self.settings().max_batch_size as int
            },
        )
    }

    pub fn new(config: RollupConfig) -> (s: Self)
        ensures
            s.settings() == config,
            s.waiting() == Seq::<RollupTx>::empty(),
            s.next_id() == 0,
    {
        RollupSequencer { config, pending: Vec::new(), next_batch_id: 0 }
    }

    /// Add a transaction to the pending queue.
    pub fn add_tx(&mut self, tx: RollupTx)
        ensures
            final(self).settings() == old(self).settings(),
            final(self).waiting() == old(self).waiting().push(tx),
            final(self).next_id() == old(self).next_id(),
    {
        self.pending.push(tx);
    }

    /// Number of pending transactions.
    pub fn pending_count(&self) -> (n: usize)
        ensures
            n == self.waiting().len(),
    {
        self.pending.len()
    }

    /// Flush pending transactions into a batch.
    ///
    /// Applies them to `state` and returns the resulting `RollupBatch`.
    /// Returns `None` if no transactions are pending, or if one of the batch is not valid: the
    /// batch is then dropped, and what came before the invalid one stays applied.
    pub fn flush_batch(&mut self, state: &mut RollupState) -> (r: Option<RollupBatch>)
        requires
            old(state).wf(),
            nonces_fit(old(state)@, old(self).next_txs()),
            old(self).waiting().len() > 0 && txs_valid(
                old(state)@,
                old(self).next_txs(),
                old(self).next_txs().len(),
            ) ==> old(self).next_id() < u64::MAX,
        ensures
            final(state).wf(),
            final(self).settings() == old(self).settings(),
            old(self).waiting().len() == 0 ==> {
                &&& r is None
                &&& final(self).waiting() == old(self).waiting()
                &&& final(self).next_id() == old(self).next_id()
                &&& final(state)@ == old(state)@
            },
            old(self).waiting().len() > 0 ==> {
                &&& final(self).waiting() == old(self).waiting().skip(
                    old(self).next_txs().len() as int,
                )
                &&& batch_applied(old(state)@, old(self).next_txs(), final(state)@)
                &&& r is Some == txs_valid(
                    old(state)@,
                    old(self).next_txs(),
                    old(self).next_txs().len(),
                )
                &&& final(self).next_id() == old(self).next_id() + if r is Some {
                    1int
                } else {
                    0int
                }
            },
            r matches Some(batch) ==> {
                &&& batch.batch_id == old(self).next_id()
                &&& batch.transactions@ == old(self).next_txs()
                &&& batch.pre_state_root@ == old(state).root()
                &&& batch.post_state_root@ == final(state).root()
                &&& batch.rollup_proof is None
                &&& verdict(old(state)@, batch) == Ok::<bool, Seq<char>>(true)
            },
    {
        if self.pending.len() == 0 {
            return None;
        }
        let ghost before = self.pending@;
        let take: usize = if self.pending.len() < self.config.max_batch_size {
            self.pending.len()
        } else {
            self.config.max_batch_size
        };
        let mut txs: Vec<RollupTx> = self.pending.split_off(take);
        std::mem::swap(&mut txs, &mut self.pending);
        proof {
            assert(txs@ =~= before.take(take as int));
            assert(self.pending@ =~= before.skip(take as int));
        }
        let pre_root: [u8; 32] = state.compute_state_root();
        match state.apply_batch(&txs) {
            Ok(post_root) => {
                let batch: RollupBatch = RollupBatch {
                    batch_id: self.next_batch_id,
                    transactions: txs,
                    pre_state_root: pre_root,
                    post_state_root: post_root,
                    rollup_proof: None,
                };
                self.next_batch_id = self.next_batch_id + 1;
                proof {
                    law_flushed_batches_verify(*old(state), *state, batch);
                }
                Some(batch)
            },
            Err(_) => None,
        }
    }
}

/// Of two batches with the same accounts between them, the second starts at the root at which the
/// first ended.
pub proof fn law_batches_chain(
    first: RollupBatch,
    second: RollupBatch,
    after_first: RollupState,
    before_second: RollupState,
)
    requires
        after_first.wf(),
        before_second.wf(),
        after_first@ == before_second@,
        first.post_state_root@ == after_first.root(),
        second.pre_state_root@ == before_second.root(),
    ensures
        first.post_state_root@ == second.pre_state_root@,
{
    law_equal_accounts_equal_roots(after_first, before_second);
}

/// A batch whose roots are those before and after its valid transactions, as every flushed batch's
/// are, verifies against the state before it, and no dispute about it is won.
pub proof fn law_flushed_batches_verify(before: RollupState, after: RollupState, batch: RollupBatch)
    requires
        before.wf(),
        after.wf(),
        batch.pre_state_root@ == before.root(),
        txs_valid(before@, batch.transactions@, batch.transactions@.len()),
        after@ == txs_applied(before@, batch.transactions@, batch.transactions@.len()),
        batch.post_state_root@ == after.root(),
    ensures
        verdict(before@, batch) == Ok::<bool, Seq<char>>(true),
        forall|fraud: FraudProof|
            #[trigger] dispute_outcome(fraud, batch, before@) == DisputeResolution::NoFraud,
{
    law_roots_follow_accounts(before);
    law_roots_follow_accounts(after);
}

/// Verifying a batch comes to what applying it to the state comes to.
pub proof fn law_verification_follows_application(
    before: RollupState,
    batch: RollupBatch,
    r: Result<[u8; 32], usize>,
    after: RollupState,
)
    requires
        before.wf(),
        after.wf(),
        applies(before, batch.transactions@, r, after),
    ensures
        verdict(before@, batch) == if before.root() != batch.pre_state_root@ {
            Err::<bool, Seq<char>>("pre-state root mismatch"@)
        } else {
            match r {
                Ok(root) => Ok(root@ == batch.post_state_root@),
                Err(i) => Err("invalid transaction at index "@ + encoding::decimal(i as nat)),
            }
        },
{
    law_roots_follow_accounts(before);
    match r {
        Ok(_) => {
            law_roots_follow_accounts(after);
        },
        Err(i) => {
            lemma_first_invalid(before@, batch.transactions@, i as nat);
        },
    }
}

/// The prover is slashed exactly where the dispute is about the batch, and applying it fails or
/// ends at another root than claimed. What else the fraud proof says has no influence.
pub proof fn law_disputes_follow_application(
    fraud: FraudProof,
    batch: RollupBatch,
    before: RollupState,
    r: Result<[u8; 32], usize>,
    after: RollupState,
)
    requires
        before.wf(),
        after.wf(),
        applies(before, batch.transactions@, r, after),
    ensures
        dispute_outcome(fraud, batch, before@) == if fraud.batch_id == batch.batch_id && (r matches Ok(
            root,
        ) ==> root@ != batch.post_state_root@) {
            DisputeResolution::ProverSlashed
        } else {
            DisputeResolution::NoFraud
        },
{
    match r {
        Ok(_) => {
            law_roots_follow_accounts(after);
        },
        Err(i) => {
            lemma_first_invalid(before@, batch.transactions@, i as nat);
        },
    }
}

/// A dispute about a batch slashes the prover exactly where verifying the batch, from its own
/// pre-state root on, does not confirm it.
pub proof fn law_disputes_follow_the_verdict(fraud: FraudProof, batch: RollupBatch, m: Accounts)
    requires
        fraud.batch_id == batch.batch_id,
        root_of(m) == batch.pre_state_root@,
    ensures
        dispute_outcome(fraud, batch, m) == if verdict(m, batch) == Ok::<bool, Seq<char>>(true) {
            DisputeResolution::NoFraud
        } else {
            DisputeResolution::ProverSlashed
        },
{
}

// ---------------------------------------------------------------------------
// Fraud proof helpers
// ---------------------------------------------------------------------------

/// The outcome of a dispute about a batch, executed again from accounts.
pub open spec fn dispute_outcome(
    fraud: FraudProof,
    batch: RollupBatch,
    m: Accounts,
) -> DisputeResolution {
    let txs = batch.transactions@;
    if fraud.batch_id != batch.batch_id {
        DisputeResolution::NoFraud
    } else if txs_valid(m, txs, txs.len()) && root_of(txs_applied(m, txs, txs.len()))
        == batch.post_state_root@ {
        DisputeResolution::NoFraud
    } else {
        DisputeResolution::ProverSlashed
    }
}

/// Evaluate a fraud proof against a batch.
///
/// The batch is executed again: the prover is slashed where a transaction is not valid or the
/// claimed post-state root is not the one reached.
pub fn resolve_dispute(fraud: &FraudProof, batch: &RollupBatch, state: &RollupState) -> (r:
    DisputeResolution)
    requires
        state.wf(),
        fraud.batch_id == batch.batch_id ==> nonces_fit(state@, batch.transactions@),
    ensures
        r == dispute_outcome(*fraud, *batch, state@),
{
    if fraud.batch_id != batch.batch_id {
        return DisputeResolution::NoFraud;
    }
    let mut copy: RollupState = state.clone();
    match copy.apply_batch(&batch.transactions) {
        Ok(actual_root) => {
            proof {
                law_roots_follow_accounts(copy);
            }
            if !bytes_eq(&actual_root, &batch.post_state_root) {
                DisputeResolution::ProverSlashed
            } else {
                DisputeResolution::NoFraud
            }
        },
        Err(idx) => {
            proof {
                lemma_first_invalid(state@, batch.transactions@, idx as nat);
            }
            DisputeResolution::ProverSlashed
        },
    }
}

// ---------------------------------------------------------------------------
// What a state root binds
// ---------------------------------------------------------------------------

/// Whether the digests of two different pairs at one place of two halved rows collide.
pub open spec fn halvings_collide(a: Seq<Seq<u8>>, b: Seq<Seq<u8>>) -> bool
    decreases a.len(),
{
    a.len() > 1 && (merkle::pairs_collide(a, b) || halvings_collide(
        merkle::parents(a),
        merkle::parents(b),
    ))
}

proof fn lemma_halving_binds(a: Seq<Seq<u8>>, b: Seq<Seq<u8>>)
    requires
        hash::digests_have_32_bytes(),
        a.len() == b.len(),
        is_power(a.len()),
        merkle::full_row(a),
        merkle::full_row(b),
        halved_root(a) == halved_root(b),
    ensures
        a == b || halvings_collide(a, b),
    decreases a.len(),
{
    lemma2_to64();
    let k = choose|k: nat| a.len() == #[trigger] pow2(k);
    lemma_pow2_pos(k);
    if a.len() <= 1 {
        assert(a =~= b);
    } else {
        lemma_power_halves(a.len());
        lemma_halving_binds(merkle::parents(a), merkle::parents(b));
        if merkle::parents(a) == merkle::parents(b) {
            merkle::law_parents_bind_pairs(a, b);
        }
    }
}

/// The leaves of a state, in the order of its addresses.
pub open spec fn leaves_of(keys: Seq<[u8; 32]>, accounts: Seq<RollupAccount>) -> Seq<Seq<u8>> {
    Seq::new(keys.len(), |i: int| account_leaf(keys[i]@, accounts[i]))
}

/// Whether the digests of two different leaves at one place of two states collide.
pub open spec fn leaves_collide(a: RollupState, b: RollupState) -> bool {
    exists|i: int|
        0 <= i < a.key_list().len() && hash::collides(
            leaf_preimage((#[trigger] a.key_list()[i])@, a.account_list()[i]),
            leaf_preimage(b.key_list()[i]@, b.account_list()[i]),
        )
}

/// A state root binds the accounts: states with equally many accounts have the same root only where
/// every address has the same balance and nonce in both, unless the digests of two leaves or two
/// pairs at one place collide.
pub proof fn law_state_roots_bind_accounts(a: RollupState, b: RollupState)
    requires
        hash::digests_have_32_bytes(),
        a.wf(),
        b.wf(),
        a.key_list().len() == b.key_list().len(),
        a.root() == b.root(),
    ensures
        a@ == b@ || leaves_collide(a, b) || halvings_collide(
            filled(leaves_of(a.key_list(), a.account_list())),
            filled(leaves_of(b.key_list(), b.account_list())),
        ),
{
    let la = leaves_of(a.key_list(), a.account_list());
    let lb = leaves_of(b.key_list(), b.account_list());
    let n = a.key_list().len();
    if n == 0 {
        assert(a@ =~= b@);
    } else {
        lemma_next_power(n);
        assert(la =~= Seq::new(
            a.key_list().len(),
            |i: int| account_leaf(a.key_list()[i]@, a.account_list()[i]),
        ));
        assert(lb =~= Seq::new(
            b.key_list().len(),
            |i: int| account_leaf(b.key_list()[i]@, b.account_list()[i]),
        ));
        lemma_halving_binds(filled(la), filled(lb));
        if filled(la) == filled(lb) && !leaves_collide(a, b) {
            assert forall|i: int| 0 <= i < n implies a.key_list()[i]@ == b.key_list()[i]@
                && a.account_list()[i] == b.account_list()[i] by {
                assert(filled(la)[i] == la[i]);
                assert(filled(lb)[i] == lb[i]);
                law_leaves_bind_accounts(
                    a.key_list()[i]@,
                    a.account_list()[i],
                    b.key_list()[i]@,
                    b.account_list()[i],
                );
            }
            assert forall|x: Seq<u8>| a@.dom().contains(x) == b@.dom().contains(x) by {
                if has_key(a.key_list(), x) {
                    let i = key_place(a.key_list(), x);
                    assert(b.key_list()[i]@ == a.key_list()[i]@);
                }
                if has_key(b.key_list(), x) {
                    let i = key_place(b.key_list(), x);
                    assert(a.key_list()[i]@ == b.key_list()[i]@);
                }
            }
            assert forall|x: Seq<u8>| a@.dom().contains(x) implies a@[x] == b@[x] by {
                let i = key_place(a.key_list(), x);
                assert(a.key_list()[i]@ == x);
                lemma_table_at(a.key_list(), a.account_list(), i);
                lemma_table_at(b.key_list(), b.account_list(), i);
            }
            assert(a@ =~= b@);
        }
    }
}

/// Unpacking four packed numbers gives them back.
pub proof fn law_unpacking_roundtrip(vals: Seq<u64>)
    requires
        vals.len() == 4,
    ensures
        unpacked(packed(vals)) == vals,
        packed(vals).len() == 32,
{
    assert forall|i: int| 0 <= i < 4 implies #[trigger] unpacked(packed(vals))[i] == vals[i] by {
        let part = packed(vals).subrange(8 * i, 8 * i + 8);
        encoding::lemma_le_u64_roundtrip(vals[i]);
        assert forall|k: int| 0 <= k < 8 implies part[k] == encoding::le_bytes(
            vals[i] as nat,
            8,
        )[k] by {
            assert((8 * i + k) / 8 == i && (8 * i + k) % 8 == k);
        }
        assert(part =~= encoding::le_bytes(vals[i] as nat, 8));
    }
    assert(unpacked(packed(vals)) =~= vals);
}

/// Missing numbers are packed as zeros.
pub proof fn law_missing_numbers_are_zero(vals: Seq<u64>)
    requires
        vals.len() <= 4,
    ensures
        packed(vals) == packed(vals + Seq::new((4 - vals.len()) as nat, |i: int| 0u64)),
{
    let full = vals + Seq::new((4 - vals.len()) as nat, |i: int| 0u64);
    lemma_zero_bytes(8);
    assert forall|i: int| 0 <= i < 32 implies packed(vals)[i] == packed(full)[i] by {
        if i / 8 >= vals.len() {
            assert(full[i / 8] == 0);
        }
    }
    assert(packed(vals) =~= packed(full));
}

/// The leaves are filled up with zero digests to the smallest power of two.
pub proof fn law_leaves_are_filled_with_zeros(row: Seq<Seq<u8>>)
    requires
        row.len() > 0,
    ensures
        exists|k: nat| filled(row).len() == #[trigger] pow2(k),
        forall|k: nat| #[trigger] pow2(k) >= row.len() ==> pow2(k) >= filled(row).len(),
        filled(row).len() >= row.len(),
        forall|i: int| 0 <= i < row.len() ==> filled(row)[i] == #[trigger] row[i],
        forall|i: int|
            row.len() <= i < filled(row).len() ==> (#[trigger] filled(row)[i]) == Seq::new(
                32,
                |j: int| 0u8,
            ),
{
    lemma_next_power(row.len());
}

/// The root of two rows of one length, each a power of two, is the hash of their roots.
pub proof fn law_halved_roots_join(a: Seq<Seq<u8>>, b: Seq<Seq<u8>>, k: nat)
    requires
        a.len() == pow2(k),
        b.len() == pow2(k),
    ensures
        halved_root(a + b) == hash::blake3_digest(halved_root(a) + halved_root(b)),
    decreases k,
{
    lemma2_to64();
    let both = a + b;
    if k == 0 {
        assert(merkle::parents(both) =~= seq![hash::pair_digest(a[0], b[0])]);
        assert(halved_root(merkle::parents(both)) == merkle::parents(both)[0]);
    } else {
        lemma_pow2_unfold(k);
        lemma_pow2_pos((k - 1) as nat);
        let h = pow2((k - 1) as nat);
        assert(merkle::parents(both) =~= merkle::parents(a) + merkle::parents(b)) by {
            assert forall|i: int| 0 <= i < merkle::parents(both).len() implies merkle::parents(
                both,
            )[i] == (merkle::parents(a) + merkle::parents(b))[i] by {
                if i < h {
                    assert(both[2 * i] == a[2 * i] && both[2 * i + 1] == a[2 * i + 1]);
                } else {
                    assert(both[2 * i] == b[2 * (i - h)] && both[2 * i + 1] == b[2 * (i - h) + 1]);
                }
            }
        }
        law_halved_roots_join(merkle::parents(a), merkle::parents(b), (k - 1) as nat);
    }
}

/// A credit adds its amount, or fills the balance up to the largest one; the nonce and all other
/// accounts stay.
pub proof fn law_credits_add_up_to_the_largest_balance(
    m: Accounts,
    addr: Seq<u8>,
    amount: u64,
    other: Seq<u8>,
)
    ensures
        ({
            let before = account_at(m, addr);
            let after = account_at(credited(m, addr, amount), addr);
            &&& after.nonce == before.nonce
            &&& before.balance + amount <= u64::MAX ==> after.balance == before.balance + amount
            &&& before.balance + amount > u64::MAX ==> after.balance == u64::MAX
        }),
        other != addr ==> account_at(credited(m, addr, amount), other) == account_at(m, other),
{
}

/// The next batch is the first of the waiting transactions, as many as a batch may hold.
pub proof fn law_batches_take_the_first_transactions(s: RollupSequencer)
    ensures
        s.next_txs() + s.waiting().skip(s.next_txs().len() as int) == s.waiting(),
        s.next_txs().len() <= s.settings().max_batch_size,
        s.next_txs().len() == s.settings().max_batch_size || s.next_txs() == s.waiting(),
{
    assert(s.next_txs() + s.waiting().skip(s.next_txs().len() as int) =~= s.waiting());
    if s.next_txs().len() != s.settings().max_batch_size {
        assert(s.next_txs() =~= s.waiting());
    }
}

/// A transaction is valid exactly where its sender has the amount and the nonce.
pub proof fn law_valid_transactions(m: Accounts, tx: RollupTx)
    ensures
        tx_valid(m, tx) <==> {
            &&& tx.amount <= account_at(m, tx.from@).balance
            &&& tx.nonce == account_at(m, tx.from@).nonce
        },
        !m.dom().contains(tx.from@) ==> (tx_valid(m, tx) <==> tx.amount == 0 && tx.nonce == 0),
        !tx_valid(m, tx) ==> forall|a: Seq<u8>|
            #[trigger] account_at(tx_applied(m, tx), a) == account_at(m, a),
{
}

/// A transaction cannot be applied twice: once it was valid and applied, it is not valid any more.
pub proof fn law_transactions_apply_once(m: Accounts, tx: RollupTx)
    requires
        tx_valid(m, tx),
        tx.nonce < u64::MAX,
    ensures
        !tx_valid(tx_applied(m, tx), tx),
{
}

/// Every transaction opens its sender's account, and a valid one its receiver's: these addresses and
/// those that were there before have accounts afterwards.
pub proof fn law_transactions_open_accounts(m: Accounts, tx: RollupTx)
    ensures
        tx_valid(m, tx) ==> tx_applied(m, tx).dom() == m.dom().insert(tx.from@).insert(tx.to@),
        !tx_valid(m, tx) ==> tx_applied(m, tx).dom() == m.dom().insert(tx.from@),
        !m.dom().contains(tx.from@) && !tx_valid(m, tx) ==> tx_applied(m, tx)[tx.from@] == (
        RollupAccount { balance: 0, nonce: 0 }),
{
    if tx_valid(m, tx) {
        assert(tx_applied(m, tx).dom() =~= m.dom().insert(tx.from@).insert(tx.to@));
    } else {
        assert(tx_applied(m, tx).dom() =~= m.dom().insert(tx.from@));
    }
}

/// A rollup proof is accepted exactly where it has data and public inputs, a verification key, the
/// required kind, and data whose hash starts with a zero nibble.
pub proof fn law_acceptable_proofs(p: RollupProof, kind: RollupProofType)
    ensures
        proof_acceptable(p, kind) <==> {
            &&& p.proof_data@.len() > 0
            &&& p.public_inputs@.len() > 0
            &&& exists|i: int| 0 <= i < 32 && #[trigger] p.verification_key_hash@[i] != 0
            &&& p.proof_type == kind
            &&& hash::blake3_digest(p.proof_data@)[0] / 16 == 0
        },
{
    let key = p.verification_key_hash@;
    if key != hash::zero_digest() {
        if forall|i: int| 0 <= i < 32 ==> #[trigger] key[i] == 0 {
            assert(key =~= hash::zero_digest());
        }
    }
}

} // verus!
