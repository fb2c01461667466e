//! Proof compression utilities.
//!
//! Provides lossless compression/decompression for ZK proofs, proof
//! aggregation via Merkle commitments, and batch streaming compression
//! with statistics.

use vstd::prelude::*;

use crate::clock;
use crate::encoding;
use crate::encoding::{bytes_eq, copy_bytes, push_bytes};
use crate::hash;
use crate::hash::{hash_bytes, Hash256};
use crate::merkle;
use crate::merkle::MerkleTree;

verus! {

// ---------------------------------------------------------------------------
// Compression types
// ---------------------------------------------------------------------------

/// Compression algorithm used on proof data.
#[derive(Clone, Copy, Debug, PartialEq, Eq, Structural)]
pub enum CompressionType {
    /// No compression (pass-through).
    Uncompressed,
    /// Run-length encoding.
    RunLength,
    /// Dictionary-based compression (byte-pair encoding).
    Dictionary,
    /// Hybrid: run-length followed by dictionary pass.
    Hybrid,
}

/// A compressed proof blob.
#[derive(Clone, Debug)]
pub struct CompressedProof {
    pub original_size: usize,
    pub compressed_data: Vec<u8>,
    pub compression_type: CompressionType,
    pub proof_type: String,
}

/// Totals over compression operations.
#[derive(Clone, Copy, Debug)]
pub struct CompressionStats {
    pub original_bytes: usize,
    pub compressed_bytes: usize,
    pub time_us: u64,
}

// ---------------------------------------------------------------------------
// Run-length encoding
// ---------------------------------------------------------------------------

/// The number of equal bytes at the front of a string.
pub open spec fn lead(s: Seq<u8>) -> nat
    decreases s.len(),
{
    if s.len() <= 1 || s[0] != s[1] {
        if s.len() == 0 {
            0
        } else {
            1
        }
    } else {
        1 + lead(s.drop_first())
    }
}

/// The length of the first run: at most 255.
pub open spec fn run(s: Seq<u8>) -> nat {
    if lead(s) > 255 {
        255
    } else {
        lead(s)
    }
}

proof fn lemma_lead(s: Seq<u8>, n: nat)
    requires
        0 < n <= s.len(),
        forall|i: int| 0 <= i < n ==> #[trigger] s[i] == s[0],
    ensures
        lead(s) >= n,
        n < s.len() && s[n as int] != s[0] ==> lead(s) == n,
        n == s.len() ==> lead(s) == n,
    decreases n,
{
    if n > 1 {
        assert(s[1] == s[0]);
        let t = s.drop_first();
        assert forall|i: int| 0 <= i < n - 1 implies #[trigger] t[i] == t[0] by {
            assert(s[i + 1] == s[0]);
        }
        lemma_lead(t, (n - 1) as nat);
    }
}

proof fn lemma_lead_equal(s: Seq<u8>)
    ensures
        lead(s) <= s.len(),
        s.len() > 0 ==> lead(s) > 0,
        forall|i: int| 0 <= i < lead(s) ==> #[trigger] s[i] == s[0],
    decreases s.len(),
{
    if s.len() > 1 && s[0] == s[1] {
        let t = s.drop_first();
        lemma_lead_equal(t);
        assert forall|i: int| 0 <= i < lead(s) implies #[trigger] s[i] == s[0] by {
            if i > 0 {
                assert(t[i - 1] == t[0]);
            }
        }
    }
}

/// The run-length code of a string: for each run its length and its byte.
pub open spec fn rle(s: Seq<u8>) -> Seq<u8>
    decreases s.len(),
{
    if s.len() == 0 {
        Seq::empty()
    } else {
        let n = run(s);
        if 0 < n <= s.len() {
            seq![n as u8, s[0]] + rle(s.skip(n as int))
        } else {
            Seq::empty()
        }
    }
}

/// `n` times one byte.
pub open spec fn repeated(b: u8, n: nat) -> Seq<u8> {
    Seq::new(n, |i: int| b)
}

/// The string that a run-length code stands for; a lone last byte stands for nothing.
pub open spec fn unrle(s: Seq<u8>) -> Seq<u8>
    decreases s.len(),
{
    if s.len() < 2 {
        Seq::empty()
    } else {
        repeated(s[1], s[0] as nat) + unrle(s.skip(2))
    }
}

/// Decoding a run-length code gives the string back.
pub proof fn law_rle_roundtrip(s: Seq<u8>)
    ensures
        unrle(rle(s)) == s,
    decreases s.len(),
{
    if s.len() > 0 {
        lemma_lead_equal(s);
        let n = run(s);
        let code = rle(s);
        let rest = s.skip(n as int);
        law_rle_roundtrip(rest);
        assert(code[0] == n as u8 && code[1] == s[0]);
        assert(code.skip(2) =~= rle(rest));
        assert(repeated(s[0], n) + rest =~= s);
    }
}

/// Encode bytes using run-length encoding.
///
/// Format: for each run, emit `[count, byte]`.  Counts are stored as a
/// single byte (max run = 255).  Non-repeating bytes get count = 1.
pub fn rle_encode(data: &[u8]) -> (out: Vec<u8>)
    ensures
        out@ == rle(data@),
{
    let mut out: Vec<u8> = Vec::new();
    let mut i: usize = 0;
    assert(data@.skip(0) =~= data@);
    assert(out@ + rle(data@) =~= rle(data@));
    while i < data.len()
        invariant
            i <= data.len(),
            out@ + rle(data@.skip(i as int)) == rle(data@),
        decreases data.len() - i,
    {
        let byte: u8 = data[i];
        let mut count: u8 = 1;
        let ghost tail = data@.skip(i as int);
        while i + (count as usize) < data.len() && data[i + count as usize] == byte && count < 255
            invariant
                i < data.len(),
                1 <= count <= data.len() - i,
                tail == data@.skip(i as int),
                byte == data@[i as int],
                forall|k: int| 0 <= k < count ==> tail[k] == byte,
            decreases 255 - count,
        {
            assert(tail[count as int] == data@[i + count]);
            count = count + 1;
        }
        proof {
            lemma_lead(tail, count as nat);
            if i + count < data.len() {
                assert(tail[count as int] == data@[i + count]);
            }
            assert(run(tail) == count);
        }
        let ghost before = out@;
        out.push(count);
        out.push(byte);
        assert(tail.skip(count as int) =~= data@.skip(i + count));
        assert(out@ + rle(data@.skip(i + count)) =~= before + rle(tail));
        i = i + count as usize;
    }
    assert(out@ + rle(data@.skip(i as int)) =~= out@);
    out
}

/// Decode run-length encoded data.
pub fn rle_decode(data: &[u8]) -> (out: Vec<u8>)
    ensures
        out@ == unrle(data@),
{
    let mut out: Vec<u8> = Vec::new();
    let mut i: usize = 0;
    assert(data@.skip(0) =~= data@);
    assert(out@ + unrle(data@) =~= unrle(data@));
    while data.len() - i > 1
        invariant
            i <= data.len(),
            out@ + unrle(data@.skip(i as int)) == unrle(data@),
        decreases data.len() - i,
    {
        let count: u8 = data[i];
        let byte: u8 = data[i + 1];
        let ghost tail = data@.skip(i as int);
        let ghost before = out@;
        let mut k: u8 = 0;
        assert(before + repeated(byte, 0) =~= before);
        while k < count
            invariant
                k <= count,
                out@ == before + repeated(byte, k as nat),
            decreases count - k,
        {
            out.push(byte);
            k = k + 1;
            assert(out@ =~= before + repeated(byte, k as nat));
        }
        assert(tail.skip(2) =~= data@.skip(i + 2));
        assert(out@ + unrle(data@.skip(i + 2)) =~= before + unrle(tail));
        i = i + 2;
    }
    assert(out@ + unrle(data@.skip(i as int)) =~= out@);
    out
}

// ---------------------------------------------------------------------------
// Dictionary compression (simple byte-pair encoding)
// ---------------------------------------------------------------------------

/// A replacement rule: a byte, and the pair of bytes for which it stands.
pub type Rule = (u8, u8, u8);

/// The number of places at which the pair (a, b) stands.
pub open spec fn pair_count(s: Seq<u8>, a: u8, b: u8) -> nat
    decreases s.len(),
{
    if s.len() < 2 {
        0
    } else {
        pair_count(s.drop_last(), a, b) + if s[s.len() - 2] == a && s[s.len() - 1] == b {
            1nat
        } else {
            0nat
        }
    }
}

/// Whether no pair stands at more places than (a, b).
pub open spec fn most_frequent(s: Seq<u8>, a: u8, b: u8) -> bool {
    forall|x: u8, y: u8| #[trigger] pair_count(s, x, y) <= pair_count(s, a, b)
}

/// Whether `r` is the smallest byte that does not occur in `s`.
pub open spec fn first_unused(s: Seq<u8>, r: u8) -> bool {
    &&& !s.contains(r)
    &&& forall|x: u8| x < r ==> #[trigger] s.contains(x)
}

/// `s` with every occurrence of a rule's pair, from the left, replaced by its byte.
pub open spec fn substituted(s: Seq<u8>, rule: Rule) -> Seq<u8>
    decreases s.len(),
{
    if s.len() == 0 {
        Seq::empty()
    } else if s.len() >= 2 && s[0] == rule.1 && s[1] == rule.2 {
        seq![rule.0] + substituted(s.skip(2), rule)
    } else {
        seq![s[0]] + substituted(s.skip(1), rule)
    }
}

/// `s` with a rule's byte replaced by its pair.
pub open spec fn expanded(s: Seq<u8>, rule: Rule) -> Seq<u8>
    decreases s.len(),
{
    if s.len() == 0 {
        Seq::empty()
    } else if s[0] == rule.0 {
        seq![rule.1, rule.2] + expanded(s.skip(1), rule)
    } else {
        seq![s[0]] + expanded(s.skip(1), rule)
    }
}

/// `s` after the substitutions of the rules, the first one first.
pub open spec fn reduced(s: Seq<u8>, rules: Seq<Rule>) -> Seq<u8>
    decreases rules.len(),
{
    if rules.len() == 0 {
        s
    } else {
        substituted(reduced(s, rules.drop_last()), rules.last())
    }
}

/// `s` after the expansions of the rules, the last one first.
pub open spec fn restored(s: Seq<u8>, rules: Seq<Rule>) -> Seq<u8>
    decreases rules.len(),
{
    if rules.len() == 0 {
        s
    } else {
        restored(expanded(s, rules.last()), rules.drop_last())
    }
}

/// Whether a rule replaces a most frequent pair, found twice at least, by the first unused byte.
pub open spec fn good_rule(s: Seq<u8>, rule: Rule) -> bool {
    &&& s.len() >= 2
    &&& first_unused(s, rule.0)
    &&& most_frequent(s, rule.1, rule.2)
    &&& pair_count(s, rule.1, rule.2) >= 2
}

/// Whether each rule is a good one where it is applied.
pub open spec fn good_rules(s: Seq<u8>, rules: Seq<Rule>) -> bool
    decreases rules.len(),
{
    rules.len() == 0 || {
        &&& good_rules(s, rules.drop_last())
        &&& good_rule(reduced(s, rules.drop_last()), rules.last())
    }
}

/// Whether there is nothing more to replace.
pub open spec fn exhausted(s: Seq<u8>) -> bool {
    ||| s.len() < 2
    ||| forall|x: u8| #[trigger] s.contains(x)
    ||| forall|x: u8, y: u8| #[trigger] pair_count(s, x, y) < 2
}

/// The bytes of rules, one after the other.
pub open spec fn rule_bytes(rules: Seq<Rule>) -> Seq<u8>
    decreases rules.len(),
{
    if rules.len() == 0 {
        Seq::empty()
    } else {
        rule_bytes(rules.drop_last()) + seq![rules.last().0, rules.last().1, rules.last().2]
    }
}

/// The dictionary format: the number of rules, the rules, the reduced string.
pub open spec fn dict_frame(rules: Seq<Rule>, body: Seq<u8>) -> Seq<u8> {
    seq![rules.len() as u8] + rule_bytes(rules) + body
}

/// Whether `out` is a dictionary code of `s`. Which of several most frequent pairs is replaced
/// is left open.
pub open spec fn is_dict_code(s: Seq<u8>, out: Seq<u8>) -> bool {
    if s.len() == 0 {
        out == seq![0u8]
    } else {
        exists|rules: Seq<Rule>|
            {
                &&& rules.len() <= 16
                &&& good_rules(s, rules)
                &&& rules.len() == 16 || exhausted(reduced(s, rules))
                &&& out == #[trigger] dict_frame(rules, reduced(s, rules))
            }
    }
}

/// The rules that a dictionary code starts with.
pub open spec fn rules_in(data: Seq<u8>, n: nat) -> Seq<Rule> {
    Seq::new(n, |i: int| (data[1 + 3 * i], data[2 + 3 * i], data[3 + 3 * i]))
}

/// The string that a dictionary code stands for; nothing where the code is cut short.
pub open spec fn undict(data: Seq<u8>) -> Seq<u8> {
    if data.len() == 0 || data.len() < 1 + 3 * data[0] {
        Seq::empty()
    } else {
        restored(data.skip(1 + 3 * data[0]), rules_in(data, data[0] as nat))
    }
}

/// Expanding an unused byte undoes its substitution.
proof fn lemma_substitution_undone(s: Seq<u8>, rule: Rule)
    requires
        !s.contains(rule.0),
    ensures
        expanded(substituted(s, rule), rule) == s,
    decreases s.len(),
{
    let t = substituted(s, rule);
    if s.len() == 0 {
        assert(expanded(t, rule) =~= s);
    } else if s.len() >= 2 && s[0] == rule.1 && s[1] == rule.2 {
        let rest = s.skip(2);
        assert forall|x: u8| rest.contains(x) implies s.contains(x) by {
            let i = choose|i: int| 0 <= i < rest.len() && rest[i] == x;
            assert(s[i + 2] == x);
        }
        lemma_substitution_undone(rest, rule);
        assert(t.skip(1) =~= substituted(rest, rule));
        assert(seq![rule.1, rule.2] + rest =~= s);
    } else {
        let rest = s.skip(1);
        assert forall|x: u8| rest.contains(x) implies s.contains(x) by {
            let i = choose|i: int| 0 <= i < rest.len() && rest[i] == x;
            assert(s[i + 1] == x);
        }
        lemma_substitution_undone(rest, rule);
        assert(s.contains(s[0]));
        assert(t.skip(1) =~= substituted(rest, rule));
        assert(seq![s[0]] + rest =~= s);
    }
}

/// Restoring undoes the substitutions of good rules.
proof fn lemma_rules_undone(s: Seq<u8>, rules: Seq<Rule>)
    requires
        good_rules(s, rules),
    ensures
        restored(reduced(s, rules), rules) == s,
    decreases rules.len(),
{
    if rules.len() > 0 {
        let fewer = rules.drop_last();
        lemma_substitution_undone(reduced(s, fewer), rules.last());
        lemma_rules_undone(s, fewer);
    }
}

proof fn lemma_rule_bytes(rules: Seq<Rule>, i: int)
    requires
        0 <= i < rules.len(),
    ensures
        rule_bytes(rules).len() == 3 * rules.len(),
        rule_bytes(rules)[3 * i] == rules[i].0,
        rule_bytes(rules)[3 * i + 1] == rules[i].1,
        rule_bytes(rules)[3 * i + 2] == rules[i].2,
    decreases rules.len(),
{
    lemma_rule_bytes_len(rules);
    lemma_rule_bytes_len(rules.drop_last());
    if i < rules.len() - 1 {
        lemma_rule_bytes(rules.drop_last(), i);
    }
}

proof fn lemma_rule_bytes_len(rules: Seq<Rule>)
    ensures
        rule_bytes(rules).len() == 3 * rules.len(),
    decreases rules.len(),
{
    if rules.len() > 0 {
        lemma_rule_bytes_len(rules.drop_last());
    }
}

/// Reading a dictionary frame gives its rules and its body.
proof fn lemma_frame_read(rules: Seq<Rule>, body: Seq<u8>)
    requires
        rules.len() <= 255,
    ensures
        undict(dict_frame(rules, body)) == restored(body, rules),
{
    let data = dict_frame(rules, body);
    lemma_rule_bytes_len(rules);
    assert(data[0] == rules.len());
    assert(data.skip(1 + 3 * data[0]) =~= body);
    assert forall|i: int| 0 <= i < rules.len() implies #[trigger] rules_in(
        data,
        rules.len(),
    )[i] == rules[i] by {
        lemma_rule_bytes(rules, i);
        assert(data[1 + 3 * i] == rule_bytes(rules)[3 * i]);
        assert(data[2 + 3 * i] == rule_bytes(rules)[3 * i + 1]);
        assert(data[3 + 3 * i] == rule_bytes(rules)[3 * i + 2]);
    }
    assert(rules_in(data, rules.len()) =~= rules);
}

/// Decoding any dictionary code of a string gives the string back.
pub proof fn law_dict_roundtrip(s: Seq<u8>, out: Seq<u8>)
    requires
        is_dict_code(s, out),
    ensures
        undict(out) == s,
{
    if s.len() == 0 {
        assert(out[0] == 0);
        assert(out.skip(1) =~= s);
        assert(rules_in(out, 0) =~= Seq::<Rule>::empty());
    } else {
        let rules = choose|rules: Seq<Rule>|
            {
                &&& rules.len() <= 16
                &&& good_rules(s, rules)
                &&& rules.len() == 16 || exhausted(reduced(s, rules))
                &&& out == #[trigger] dict_frame(rules, reduced(s, rules))
            };
        lemma_frame_read(rules, reduced(s, rules));
        lemma_rules_undone(s, rules);
    }
}

/// The smallest byte that does not occur.
fn find_unused(data: &[u8]) -> (r: Option<u8>)
    ensures
        match r {
            Some(b) => first_unused(data@, b),
            None => forall|x: u8| #[trigger] data@.contains(x),
        },
{
    let mut used: [bool; 256] = [false; 256];
    let mut i: usize = 0;
    while i < data.len()
        invariant
            i <= data.len(),
            forall|x: u8| #[trigger] used@[x as int] == data@.take(i as int).contains(x),
        decreases data.len() - i,
    {
        let ghost before = used@;
        let ghost part = data@.take(i as int);
        let ghost more = data@.take(i + 1);
        used[data[i] as usize] = true;
        proof {
            assert(more =~= part.push(data@[i as int]));
            assert forall|x: u8| #[trigger] used@[x as int] == more.contains(x) by {
                assert(before[x as int] == part.contains(x));
                if part.contains(x) {
                    let k = choose|k: int| 0 <= k < part.len() && part[k] == x;
                    assert(more[k] == x);
                }
                if x == data@[i as int] {
                    assert(more[i as int] == x);
                }
            }
        }
        i = i + 1;
    }
    assert(data@.take(i as int) =~= data@);
    let mut b: u16 = 0;
    while b < 256
        invariant
            b <= 256,
            forall|x: u8| #[trigger] used@[x as int] == data@.contains(x),
            forall|x: u8| x < b ==> #[trigger] data@.contains(x),
        decreases 256 - b,
    {
        if !used[b as usize] {
            assert(used@[(b as u8) as int] == data@.contains(b as u8));
            return Some(b as u8);
        }
        assert(used@[(b as u8) as int] == data@.contains(b as u8));
        b = b + 1;
    }
    None
}

proof fn lemma_pair_count_bound(s: Seq<u8>, a: u8, b: u8)
    ensures
        pair_count(s, a, b) <= s.len(),
    decreases s.len(),
{
    if s.len() >= 2 {
        lemma_pair_count_bound(s.drop_last(), a, b);
    }
}

/// A most frequent pair and the number of its places.
fn find_most_frequent(data: &[u8]) -> (r: (u8, u8, usize))
    requires
        data.len() >= 2,
    ensures
        most_frequent(data@, r.0, r.1),
        r.2 == pair_count(data@, r.0, r.1),
{
    let mut freq: Vec<usize> = vec![0usize; 65536];
    let mut i: usize = 1;
    assert forall|x: u8, y: u8| freq@[x * 256 + y] == #[trigger] pair_count(
        data@.take(i as int),
        x,
        y,
    ) by {
        assert(freq@[x * 256 + y] == 0);
    }
    while i < data.len()
        invariant
            1 <= i <= data.len(),
            freq.len() == 65536,
            forall|x: u8, y: u8|
                freq@[x * 256 + y] == #[trigger] pair_count(data@.take(i as int), x, y),
        decreases data.len() - i,
    {
        let a: u8 = data[i - 1];
        let b: u8 = data[i];
        let at: usize = a as usize * 256 + b as usize;
        let ghost before = freq@;
        let ghost part = data@.take(i as int);
        let ghost more = data@.take(i + 1);
        proof {
            lemma_pair_count_bound(part, a, b);
            assert(freq@[a * 256 + b] == pair_count(part, a, b));
        }
        let n: usize = freq[at];
        freq[at] = n + 1;
        proof {
            assert(more.drop_last() =~= part);
            assert forall|x: u8, y: u8| freq@[x * 256 + y] == #[trigger] pair_count(
                more,
                x,
                y,
            ) by {
                assert(before[x * 256 + y] == pair_count(part, x, y));
                assert(x * 256 + y == at <==> (x == a && y == b));
            }
        }
        i = i + 1;
    }
    assert(data@.take(i as int) =~= data@);
    let mut best: usize = 0;
    let mut k: usize = 1;
    while k < 65536
        invariant
            1 <= k <= 65536,
            best < k,
            freq.len() == 65536,
            forall|j: int| 0 <= j < k ==> #[trigger] freq@[j] <= freq@[best as int],
        decreases 65536 - k,
    {
        if freq[k] > freq[best] {
            best = k;
        }
        k = k + 1;
    }
    let a: u8 = (best / 256) as u8;
    let b: u8 = (best % 256) as u8;
    proof {
        assert(a * 256 + b == best);
        assert(freq@[a * 256 + b] == pair_count(data@, a, b));
        assert forall|x: u8, y: u8| #[trigger] pair_count(data@, x, y) <= pair_count(
            data@,
            a,
            b,
        ) by {
            assert(freq@[x * 256 + y] == pair_count(data@, x, y));
        }
    }
    (a, b, freq[best])
}

/// Replaces a rule's pair by its byte, from the left.
fn substitute(data: &[u8], rule: Rule) -> (out: Vec<u8>)
    ensures
        out@ == substituted(data@, rule),
{
    let mut out: Vec<u8> = Vec::new();
    let mut i: usize = 0;
    assert(data@.skip(0) =~= data@);
    assert(out@ + substituted(data@, rule) =~= substituted(data@, rule));
    while i < data.len()
        invariant
            i <= data.len(),
            out@ + substituted(data@.skip(i as int), rule) == substituted(data@, rule),
        decreases data.len() - i,
    {
        let ghost tail = data@.skip(i as int);
        let ghost before = out@;
        if data.len() - i > 1 && data[i] == rule.1 && data[i + 1] == rule.2 {
            out.push(rule.0);
            assert(tail.skip(2) =~= data@.skip(i + 2));
            assert(out@ + substituted(data@.skip(i + 2), rule) =~= before + substituted(
                tail,
                rule,
            ));
            i = i + 2;
        } else {
            out.push(data[i]);
            assert(tail.skip(1) =~= data@.skip(i + 1));
            assert(out@ + substituted(data@.skip(i + 1), rule) =~= before + substituted(
                tail,
                rule,
            ));
            i = i + 1;
        }
    }
    assert(out@ + substituted(data@.skip(i as int), rule) =~= out@);
    out
}

/// Replaces a rule's byte by its pair.
fn expand(data: &[u8], rule: Rule) -> (out: Vec<u8>)
    ensures
        out@ == expanded(data@, rule),
{
    let mut out: Vec<u8> = Vec::new();
    let mut i: usize = 0;
    assert(data@.skip(0) =~= data@);
    assert(out@ + expanded(data@, rule) =~= expanded(data@, rule));
    while i < data.len()
        invariant
            i <= data.len(),
            out@ + expanded(data@.skip(i as int), rule) == expanded(data@, rule),
        decreases data.len() - i,
    {
        let ghost tail = data@.skip(i as int);
        let ghost before = out@;
        assert(tail.skip(1) =~= data@.skip(i + 1));
        if data[i] == rule.0 {
            out.push(rule.1);
            out.push(rule.2);
        } else {
            out.push(data[i]);
        }
        assert(out@ + expanded(data@.skip(i + 1), rule) =~= before + expanded(tail, rule));
        i = i + 1;
    }
    assert(out@ + expanded(data@.skip(i as int), rule) =~= out@);
    out
}

/// Simple dictionary-based compression.
///
/// Finds the most frequent adjacent byte pair and replaces it with a single
/// unused byte.  Repeats until no improvement or no unused bytes remain, 16 times at most.
/// Output format: `[num_rules, (replacement, first, second)*, encoded_data*]`
pub fn dict_encode(data: &[u8]) -> (out: Vec<u8>)
    ensures
        is_dict_code(data@, out@),
        undict(out@) == data@,
{
    if data.len() == 0 {
        let out: Vec<u8> = vec![0u8];
        assert(out@ =~= seq![0u8]);
        proof {
            law_dict_roundtrip(data@, out@);
        }
        return out;
    }
    let mut working: Vec<u8> = copy_bytes(data);
    let mut rules: Vec<Rule> = Vec::new();
    let mut done: bool = false;
    while rules.len() < 16 && !done
        invariant
            rules.len() <= 16,
            good_rules(data@, rules@),
            working@ == reduced(data@, rules@),
            done ==> exhausted(working@),
        decreases 16 - rules.len(), if done { 0int } else { 1int },
    {
        if working.len() < 2 {
            done = true;
        } else {
            match find_unused(&working) {
                None => {
                    done = true;
                },
                Some(replacement) => {
                    let (a, b, count) = find_most_frequent(&working);
                    if count >= 2 {
                        let rule: Rule = (replacement, a, b);
                        let ghost before = rules@;
                        working = substitute(&working, rule);
                        rules.push(rule);
                        assert(rules@.drop_last() =~= before);
                    } else {
                        assert forall|x: u8, y: u8| #[trigger] pair_count(working@, x, y) < 2 by {
                            assert(pair_count(working@, x, y) <= pair_count(working@, a, b));
                        }
                        done = true;
                    }
                },
            }
        }
    }
    let mut out: Vec<u8> = Vec::new();
    out.push(rules.len() as u8);
    let ghost head = out@;
    let mut i: usize = 0;
    assert(rules@.take(0) =~= Seq::<Rule>::empty());
    assert(out@ =~= head + rule_bytes(rules@.take(0)));
    while i < rules.len()
        invariant
            i <= rules.len(),
            out@ == head + rule_bytes(rules@.take(i as int)),
        decreases rules.len() - i,
    {
        let rule: Rule = rules[i];
        let ghost part = rules@.take(i + 1);
        assert(part.drop_last() =~= rules@.take(i as int));
        assert(part.last() == rule);
        out.push(rule.0);
        out.push(rule.1);
        out.push(rule.2);
        assert(out@ =~= head + rule_bytes(part));
        i = i + 1;
    }
    assert(rules@.take(i as int) =~= rules@);
    push_bytes(&mut out, &working);
    proof {
        assert(out@ =~= dict_frame(rules@, working@));
        law_dict_roundtrip(data@, out@);
    }
    out
}

/// Decode dictionary-compressed data.
pub fn dict_decode(data: &[u8]) -> (out: Vec<u8>)
    ensures
        out@ == undict(data@),
{
    if data.len() == 0 {
        return Vec::new();
    }
    let num_rules: usize = data[0] as usize;
    if data.len() < 1 + num_rules * 3 {
        return Vec::new();
    }
    let ghost rules = rules_in(data@, num_rules as nat);
    let mut working: Vec<u8> = copy_bytes(
        vstd::slice::slice_subrange(data, 1 + num_rules * 3, data.len()),
    );
    assert(working@ =~= data@.skip(1 + 3 * data@[0]));
    let mut n: usize = num_rules;
    assert(rules.take(n as int) =~= rules);
    while n > 0
        invariant
            n <= num_rules,
            num_rules == data@[0],
            data.len() >= 1 + num_rules * 3,
            rules == rules_in(data@, num_rules as nat),
            restored(working@, rules.take(n as int)) == undict(data@),
        decreases n,
    {
        let base: usize = 1 + (n - 1) * 3;
        let rule: Rule = (data[base], data[base + 1], data[base + 2]);
        let ghost part = rules.take(n as int);
        assert(part.last() == rule);
        assert(part.drop_last() =~= rules.take(n - 1));
        working = expand(&working, rule);
        n = n - 1;
    }
    assert(rules.take(0) =~= Seq::<Rule>::empty());
    working
}

// ---------------------------------------------------------------------------
// Public compress / decompress API
// ---------------------------------------------------------------------------

/// The bytes for which compressed data of some type stands.
pub open spec fn decompressed(kind: CompressionType, data: Seq<u8>) -> Seq<u8> {
    match kind {
        CompressionType::Uncompressed => data,
        CompressionType::RunLength => unrle(data),
        CompressionType::Dictionary => undict(data),
        CompressionType::Hybrid => unrle(undict(data)),
    }
}

/// The smallest of four encodings; of equally small ones the first.
pub open spec fn smallest(
    none: Seq<u8>,
    run_length: Seq<u8>,
    dictionary: Seq<u8>,
    hybrid: Seq<u8>,
) -> (CompressionType, Seq<u8>) {
    let (k1, d1) = if run_length.len() < none.len() {
        (CompressionType::RunLength, run_length)
    } else {
        (CompressionType::Uncompressed, none)
    };
    let (k2, d2) = if dictionary.len() < d1.len() {
        (CompressionType::Dictionary, dictionary)
    } else {
        (k1, d1)
    };
    if hybrid.len() < d2.len() {
        (CompressionType::Hybrid, hybrid)
    } else {
        (k2, d2)
    }
}

/// Whether `(kind, data)` is the smallest encoding of `s`, for some dictionary codes.
pub open spec fn is_compression(s: Seq<u8>, kind: CompressionType, data: Seq<u8>) -> bool {
    exists|dictionary: Seq<u8>, hybrid: Seq<u8>|
        {
            &&& is_dict_code(s, dictionary)
            &&& is_dict_code(rle(s), hybrid)
            &&& (kind, data) == #[trigger] smallest(s, rle(s), dictionary, hybrid)
        }
}

/// Whether `data` is the smallest encoding of `s`, of whatever type.
pub open spec fn is_compressed_form(s: Seq<u8>, data: Seq<u8>) -> bool {
    exists|kind: CompressionType| #[trigger] is_compression(s, kind, data)
}

/// Compress proof bytes using a simple but effective scheme.
///
/// Tries all compression strategies and picks the smallest result.
pub fn compress_proof(proof_bytes: &[u8]) -> (c: CompressedProof)
    ensures
        c.original_size == proof_bytes.len(),
        c.proof_type@ == Seq::<char>::empty(),
        is_compression(proof_bytes@, c.compression_type, c.compressed_data@),
        decompressed(c.compression_type, c.compressed_data@) == proof_bytes@,
        c.compressed_data.len() <= proof_bytes.len(),
{
    let mut best_type: CompressionType = CompressionType::Uncompressed;
    let mut best_data: Vec<u8> = copy_bytes(proof_bytes);
    let rle_data: Vec<u8> = rle_encode(proof_bytes);
    let dict_data: Vec<u8> = dict_encode(proof_bytes);
    let hybrid_data: Vec<u8> = dict_encode(&rle_data);
    let ghost run_length = rle_data@;
    let ghost dictionary = dict_data@;
    let ghost hybrid = hybrid_data@;
    proof {
        law_rle_roundtrip(proof_bytes@);
    }
    if rle_data.len() < best_data.len() {
        best_type = CompressionType::RunLength;
        best_data = rle_data;
    }
    if dict_data.len() < best_data.len() {
        best_type = CompressionType::Dictionary;
        best_data = dict_data;
    }
    if hybrid_data.len() < best_data.len() {
        best_type = CompressionType::Hybrid;
        best_data = hybrid_data;
    }
    assert((best_type, best_data@) == smallest(proof_bytes@, run_length, dictionary, hybrid));
    CompressedProof {
        original_size: proof_bytes.len(),
        compressed_data: best_data,
        compression_type: best_type,
        proof_type: String::new(),
    }
}

/// Decompress a previously compressed proof.
pub fn decompress_proof(compressed: &CompressedProof) -> (out: Vec<u8>)
    ensures
        out@ == decompressed(compressed.compression_type, compressed.compressed_data@),
{
    match compressed.compression_type {
        CompressionType::Uncompressed => copy_bytes(&compressed.compressed_data),
        CompressionType::RunLength => rle_decode(&compressed.compressed_data),
        CompressionType::Dictionary => dict_decode(&compressed.compressed_data),
        CompressionType::Hybrid => {
            let after_dict: Vec<u8> = dict_decode(&compressed.compressed_data);
            rle_decode(&after_dict)
        },
    }
}

/// Decompressing any compression of some bytes gives the bytes back.
pub proof fn law_compression_is_lossless(s: Seq<u8>, kind: CompressionType, data: Seq<u8>)
    requires
        is_compression(s, kind, data),
    ensures
        decompressed(kind, data) == s,
{
    let (dictionary, hybrid) = choose|dictionary: Seq<u8>, hybrid: Seq<u8>|
        {
            &&& is_dict_code(s, dictionary)
            &&& is_dict_code(rle(s), hybrid)
            &&& (kind, data) == #[trigger] smallest(s, rle(s), dictionary, hybrid)
        };
    law_rle_roundtrip(s);
    law_dict_roundtrip(s, dictionary);
    law_dict_roundtrip(rle(s), hybrid);
}

// ---------------------------------------------------------------------------
// Proof aggregation
// ---------------------------------------------------------------------------

/// An aggregated proof combining multiple sub-proofs under a Merkle root.
#[derive(Clone, Debug)]
pub struct AggregatedProof {
    pub sub_proofs: Vec<Vec<u8>>,
    pub merkle_root: [u8; 32],
    pub count: usize,
    pub total_original_size: usize,
    pub compressed_size: usize,
}

/// Aggregates multiple proofs into a single aggregated proof structure.
pub struct ProofAggregator {
    proofs: Vec<Vec<u8>>,
    public_inputs: Vec<Vec<u64>>,
}

/// The hashes of byte strings.
pub open spec fn proof_digests(proofs: Seq<Seq<u8>>) -> Seq<Seq<u8>> {
    Seq::new(proofs.len(), |i: int| hash::blake3_digest(proofs[i]))
}

/// The lengths of byte strings, added up.
pub open spec fn total_len(proofs: Seq<Seq<u8>>) -> nat
    decreases proofs.len(),
{
    if proofs.len() == 0 {
        0
    } else {
        total_len(proofs.drop_last()) + proofs.last().len()
    }
}

/// Byte vectors as byte strings.
pub open spec fn byte_strings(v: Seq<Vec<u8>>) -> Seq<Seq<u8>> {
    v.map_values(|b: Vec<u8>| b@)
}

proof fn lemma_total_len_take(s: Seq<Seq<u8>>, i: int)
    requires
        0 <= i <= s.len(),
    ensures
        total_len(s.take(i)) <= total_len(s),
    decreases s.len(),
{
    if i < s.len() {
        assert(s.drop_last().take(i) =~= s.take(i));
        lemma_total_len_take(s.drop_last(), i);
    } else {
        assert(s.take(i) =~= s);
    }
}

impl ProofAggregator {
    /// The proofs collected so far.
    pub closed spec fn collected(&self) -> Seq<Seq<u8>> {
        byte_strings(self.proofs@)
    }

    /// The public inputs collected so far.
    pub closed spec fn inputs(&self) -> Seq<Seq<u64>> {
        self.public_inputs@.map_values(|v: Vec<u64>| v@)
    }

    /// Whether an aggregate is one of the proofs collected so far.
    pub open spec fn accepts(&self, aggregated: AggregatedProof) -> bool {
        &&& aggregated.count == self.collected().len()
        &&& aggregated.merkle_root@ == merkle::merkle_root(proof_digests(self.collected()))
    }

    pub fn new() -> (a: Self)
        ensures
            a.collected() == Seq::<Seq<u8>>::empty(),
            a.inputs() == Seq::<Seq<u64>>::empty(),
    {
        let a: ProofAggregator = ProofAggregator { proofs: Vec::new(), public_inputs: Vec::new() };
        assert(a.collected() =~= Seq::<Seq<u8>>::empty());
        assert(a.inputs() =~= Seq::<Seq<u64>>::empty());
        a
    }

    /// Add a proof with its public inputs.
    pub fn add_proof(&mut self, proof_bytes: Vec<u8>, public_inputs: Vec<u64>)
        ensures
            final(self).collected() == old(self).collected().push(proof_bytes@),
            final(self).inputs() == old(self).inputs().push(public_inputs@),
    {
        let ghost before = *self;
        self.proofs.push(proof_bytes);
        self.public_inputs.push(public_inputs);
        assert(self.collected() =~= before.collected().push(proof_bytes@));
        assert(self.inputs() =~= before.inputs().push(public_inputs@));
    }

    /// Number of proofs collected so far.
    pub fn count(&self) -> (n: usize)
        ensures
            n == self.collected().len(),
    {
        self.proofs.len()
    }

    /// Aggregate all collected proofs.
    pub fn aggregate(&self) -> (a: AggregatedProof)
        requires
            total_len(self.collected()) <= usize::MAX,
        ensures
            self.accepts(a),
            a.total_original_size == total_len(self.collected()),
            a.compressed_size == total_len(byte_strings(a.sub_proofs@)),
            a.sub_proofs.len() == self.collected().len(),
            forall|i: int|
                0 <= i < a.sub_proofs.len() ==> is_compressed_form(
                    self.collected()[i],
                    (#[trigger] a.sub_proofs@[i])@,
                ),
    {
        let ghost all = self.collected();
        let mut total: usize = 0;
        let mut compressed: usize = 0;
        let mut sub_proofs: Vec<Vec<u8>> = Vec::new();
        let mut i: usize = 0;
        assert(all.take(0) =~= Seq::<Seq<u8>>::empty());
        assert(byte_strings(sub_proofs@) =~= Seq::<Seq<u8>>::empty());
        while i < self.proofs.len()
            invariant
                i <= self.proofs.len(),
                all == self.collected(),
                total_len(all) <= usize::MAX,
                total == total_len(all.take(i as int)),
                sub_proofs.len() == i,
                compressed == total_len(byte_strings(sub_proofs@)),
                compressed <= total,
                forall|k: int|
                    0 <= k < i ==> is_compressed_form(all[k], (#[trigger] sub_proofs@[k])@),
            decreases self.proofs.len() - i,
        {
            let ghost part = all.take(i + 1);
            proof {
                assert(part.drop_last() =~= all.take(i as int));
                assert(part.last() == self.proofs@[i as int]@);
                lemma_total_len_take(all, i + 1);
            }
            let c: CompressedProof = compress_proof(&self.proofs[i]);
            total = total + self.proofs[i].len();
            compressed = compressed + c.compressed_data.len();
            let ghost before = byte_strings(sub_proofs@);
            let data: Vec<u8> = c.compressed_data;
            sub_proofs.push(data);
            proof {
                let after = byte_strings(sub_proofs@);
                assert(after =~= before.push(data@));
                assert(after.drop_last() =~= before);
                assert(is_compression(all[i as int], c.compression_type, sub_proofs@[i as int]@));
            }
            i = i + 1;
        }
        assert(all.take(i as int) =~= all);
        AggregatedProof {
            sub_proofs,
            merkle_root: self.compute_merkle_root(),
            count: self.proofs.len(),
            total_original_size: total,
            compressed_size: compressed,
        }
    }

    /// Verify an aggregated proof by recomputing the Merkle root.
    pub fn verify_aggregated(&self, aggregated: &AggregatedProof) -> (r: bool)
        ensures
            r == self.accepts(*aggregated),
    {
        if aggregated.count != self.proofs.len() {
            return false;
        }
        let expected_root: [u8; 32] = self.compute_merkle_root();
        bytes_eq(&expected_root, &aggregated.merkle_root)
    }

    /// Compute Merkle root of all proof hashes.
    fn compute_merkle_root(&self) -> (root: [u8; 32])
        ensures
            root@ == merkle::merkle_root(proof_digests(self.collected())),
    {
        let mut leaves: Vec<Hash256> = Vec::new();
        let mut i: usize = 0;
        while i < self.proofs.len()
            invariant
                i <= self.proofs.len(),
                leaves.len() == i,
                forall|k: int|
                    0 <= k < i ==> (#[trigger] leaves@[k])@ == hash::blake3_digest(
                        self.proofs@[k]@,
                    ),
            decreases self.proofs.len() - i,
        {
            leaves.push(hash_bytes(&self.proofs[i]));
            i = i + 1;
        }
        assert(merkle::digests(leaves@) =~= proof_digests(self.collected()));
        let tree: MerkleTree = MerkleTree::from_leaves(leaves);
        tree.root().0
    }
}

/// Whatever differs in its count or its root from an aggregate that the collected proofs accept is
/// refused.
pub proof fn law_aggregates_are_single(
    agg: ProofAggregator,
    accepted: AggregatedProof,
    other: AggregatedProof,
)
    requires
        agg.accepts(accepted),
    ensures
        agg.accepts(other) <==> other.count == accepted.count && other.merkle_root@
            == accepted.merkle_root@,
{
}

/// Once another proof is added, no aggregate that was accepted before is accepted any more.
pub proof fn law_aggregates_go_stale(
    before: ProofAggregator,
    added: Seq<u8>,
    after: ProofAggregator,
    old_aggregate: AggregatedProof,
)
    requires
        before.accepts(old_aggregate),
        after.collected() == before.collected().push(added),
    ensures
        !after.accepts(old_aggregate),
{
}

impl Default for ProofAggregator {
    fn default() -> (a: Self)
        ensures
            a.collected() == Seq::<Seq<u8>>::empty(),
            a.inputs() == Seq::<Seq<u64>>::empty(),
    {
        ProofAggregator::new()
    }
}

// ---------------------------------------------------------------------------
// Batch compressor (streaming)
// ---------------------------------------------------------------------------

/// Streaming batch compressor that accumulates proofs and compresses them
/// incrementally, tracking statistics.
pub struct BatchCompressor {
    compressed: Vec<CompressedProof>,
    stats: CompressionStats,
}

impl BatchCompressor {
    /// The compressed proofs.
    pub closed spec fn results(&self) -> Seq<CompressedProof> {
        self.compressed@
    }

    /// The running totals.
    pub closed spec fn totals(&self) -> CompressionStats {
        self.stats
    }

    /// No more bytes come out than went in.
    pub open spec fn wf(&self) -> bool {
        self.totals().compressed_bytes <= self.totals().original_bytes
    }

    pub fn new() -> (b: Self)
        ensures
            b.wf(),
            b.results() == Seq::<CompressedProof>::empty(),
            b.totals() == (CompressionStats {
                original_bytes: 0,
                compressed_bytes: 0,
                time_us: 0,
            }),
    {
        BatchCompressor {
            compressed: Vec::new(),
            stats: CompressionStats { original_bytes: 0, compressed_bytes: 0, time_us: 0 },
        }
    }

    /// Adds a compressed proof that took `elapsed_us` microseconds to the results and the totals.
    pub fn record(&mut self, cp: CompressedProof, elapsed_us: u64)
        requires
            old(self).wf(),
            cp.compressed_data.len() <= cp.original_size,
            old(self).totals().original_bytes + cp.original_size <= usize::MAX,
        ensures
            final(self).wf(),
            final(self).results() == old(self).results().push(cp),
            final(self).totals() == (CompressionStats {
                original_bytes: (old(self).totals().original_bytes + cp.original_size) as usize,
                compressed_bytes: (old(self).totals().compressed_bytes
                    + cp.compressed_data.len()) as usize,
                time_us: old(self).totals().time_us.wrapping_add(elapsed_us),
            }),
    {
        self.stats = CompressionStats {
            original_bytes: self.stats.original_bytes + cp.original_size,
            compressed_bytes: self.stats.compressed_bytes + cp.compressed_data.len(),
            time_us: self.stats.time_us.wrapping_add(elapsed_us),
        };
        self.compressed.push(cp);
    }

    /// Add and compress a proof, updating running statistics with the time that it took.
    pub fn add(&mut self, proof_bytes: &[u8])
        requires
            old(self).wf(),
            old(self).totals().original_bytes + proof_bytes.len() <= usize::MAX,
        ensures
            final(self).wf(),
            final(self).results().len() == old(self).results().len() + 1,
            final(self).results().drop_last() == old(self).results(),
            final(self).results().last().original_size == proof_bytes.len(),
            final(self).results().last().proof_type@ == Seq::<char>::empty(),
            is_compression(
                proof_bytes@,
                final(self).results().last().compression_type,
                final(self).results().last().compressed_data@,
            ),
            decompressed(
                final(self).results().last().compression_type,
                final(self).results().last().compressed_data@,
            ) == proof_bytes@,
            final(self).totals().original_bytes == old(self).totals().original_bytes
                + proof_bytes.len(),
            final(self).totals().compressed_bytes == old(self).totals().compressed_bytes + final(self).results().last().compressed_data.len(),
    {
        let start: std::time::Instant = clock::now();
        let cp: CompressedProof = compress_proof(proof_bytes);
        let spent: std::time::Duration = clock::elapsed(&start);
        let elapsed_us: u64 = clock::as_micros(&spent) as u64;
        let ghost before = self.results();
        self.record(cp, elapsed_us);
        assert(self.results().drop_last() =~= before);
    }

    /// Number of proofs compressed so far.
    pub fn count(&self) -> (n: usize)
        ensures
            n == self.results().len(),
    {
        self.compressed.len()
    }

    /// Current cumulative statistics.
    pub fn stats(&self) -> (s: &CompressionStats)
        ensures
            *s == self.totals(),
    {
        &self.stats
    }

    /// Consume the compressor and return all compressed proofs.
    pub fn finish(self) -> (v: Vec<CompressedProof>)
        ensures
            v@ == self.results(),
    {
        self.compressed
    }
}

impl Default for BatchCompressor {
    fn default() -> (b: Self)
        ensures
            b.wf(),
            b.results() == Seq::<CompressedProof>::empty(),
            b.totals() == (CompressionStats {
                original_bytes: 0,
                compressed_bytes: 0,
                time_us: 0,
            }),
    {
        BatchCompressor::new()
    }
}

// ---------------------------------------------------------------------------
// What the codes look like
// ---------------------------------------------------------------------------

/// A run-length code is made of pairs of a count and a byte. Counts are positive, and two pairs with
/// the same byte follow one another only where the first count is the largest one: so the code is as
/// short as it can be.
pub proof fn law_run_lengths_are_maximal(s: Seq<u8>)
    ensures
        rle(s).len() % 2 == 0,
        forall|k: int|
            0 <= k && 2 * k + 1 < rle(s).len() ==> #[trigger] rle(s)[2 * k] > 0,
        forall|k: int|
            0 <= k && 2 * k + 3 < rle(s).len() && rle(s)[2 * k + 1] == rle(s)[2 * k + 3]
                ==> #[trigger] rle(s)[2 * k] == 255,
        s.len() > 0 ==> rle(s).len() >= 2 && rle(s)[1] == s[0],
        s.len() == 0 ==> rle(s).len() == 0,
    decreases s.len(),
{
    lemma_lead_equal(s);
    if s.len() > 0 {
        let n = run(s);
        let rest = s.skip(n as int);
        law_run_lengths_are_maximal(rest);
        let code = rle(s);
        let below = rle(rest);
        assert(code =~= seq![n as u8, s[0]] + below);
        assert forall|k: int| 0 <= k && 2 * k + 1 < code.len() implies #[trigger] code[2 * k]
            > 0 by {
            if k > 0 {
                assert(code[2 * k] == below[2 * (k - 1)]);
            }
        }
        assert forall|k: int|
            0 <= k && 2 * k + 3 < code.len() && code[2 * k + 1] == code[2 * k
                + 3] implies #[trigger] code[2 * k] == 255 by {
            if k == 0 {
                assert(code[3] == below[1]);
                assert(rest[0] == s[0]);
                if n < 255 {
                    assert(n == lead(s));
                    assert(rest[0] == s[n as int]);
                    lemma_lead_stops(s);
                }
            } else {
                assert(code[2 * k] == below[2 * (k - 1)]);
                assert(code[2 * k + 1] == below[2 * (k - 1) + 1]);
                assert(code[2 * k + 3] == below[2 * (k - 1) + 3]);
            }
        }
    }
}

proof fn lemma_lead_stops(s: Seq<u8>)
    requires
        s.len() > 0,
        lead(s) < s.len(),
    ensures
        s[lead(s) as int] != s[0],
    decreases s.len(),
{
    if s.len() > 1 && s[0] == s[1] {
        lemma_lead_stops(s.drop_first());
        assert(s.drop_first()[lead(s.drop_first()) as int] == s[lead(s) as int]);
    }
}

/// Of the four forms, the chosen one is the shortest, and of equally short ones the simplest.
pub proof fn law_the_smallest_form_is_chosen(
    none: Seq<u8>,
    run_length: Seq<u8>,
    dictionary: Seq<u8>,
    hybrid: Seq<u8>,
)
    ensures
        ({
            let (kind, data) = smallest(none, run_length, dictionary, hybrid);
            &&& data.len() <= none.len()
            &&& data.len() <= run_length.len()
            &&& data.len() <= dictionary.len()
            &&& data.len() <= hybrid.len()
            &&& kind == CompressionType::Uncompressed ==> data == none
            &&& kind == CompressionType::RunLength ==> data == run_length && data.len()
                < none.len()
            &&& kind == CompressionType::Dictionary ==> data == dictionary && data.len()
                < none.len() && data.len() < run_length.len()
            &&& kind == CompressionType::Hybrid ==> data == hybrid && data.len() < none.len()
                && data.len() < run_length.len() && data.len() < dictionary.len()
        }),
{
}

/// A compressed proof is never longer than the proof.
pub proof fn law_compression_never_grows(s: Seq<u8>, kind: CompressionType, data: Seq<u8>)
    requires
        is_compression(s, kind, data),
    ensures
        data.len() <= s.len(),
        data.len() <= rle(s).len(),
{
    let (dictionary, hybrid) = choose|dictionary: Seq<u8>, hybrid: Seq<u8>|
        {
            &&& is_dict_code(s, dictionary)
            &&& is_dict_code(rle(s), hybrid)
            &&& (kind, data) == #[trigger] smallest(s, rle(s), dictionary, hybrid)
        };
    law_the_smallest_form_is_chosen(s, rle(s), dictionary, hybrid);
}

/// The lengths of two lists of proofs add up, and a single proof counts its own.
pub proof fn law_lengths_add_up(a: Seq<Seq<u8>>, b: Seq<Seq<u8>>)
    ensures
        total_len(a + b) == total_len(a) + total_len(b),
        forall|p: Seq<u8>| #[trigger] total_len(seq![p]) == p.len(),
    decreases b.len(),
{
    if b.len() == 0 {
        assert(a + b =~= a);
    } else {
        law_lengths_add_up(a, b.drop_last());
        assert((a + b).drop_last() =~= a + b.drop_last());
    }
    assert forall|p: Seq<u8>| #[trigger] total_len(seq![p]) == p.len() by {
        assert(seq![p].drop_last() =~= Seq::<Seq<u8>>::empty());
        assert(total_len(seq![p].drop_last()) == 0);
    }
}

/// An aggregate belongs to the proofs that were collected, in their order: two aggregators that
/// accept it collected the same proofs, unless the digests of two proofs or of two pairs of a tree
/// collide.
pub proof fn law_aggregates_bind_their_proofs(
    a: ProofAggregator,
    b: ProofAggregator,
    aggregated: AggregatedProof,
)
    requires
        hash::digests_have_32_bytes(),
        a.accepts(aggregated),
        b.accepts(aggregated),
    ensures
        a.collected() == b.collected() || (exists|i: int|
            0 <= i < a.collected().len() && hash::collides(
                #[trigger] a.collected()[i],
                b.collected()[i],
            )) || merkle::trees_collide(
            merkle::first_row(proof_digests(a.collected())),
            merkle::first_row(proof_digests(b.collected())),
        ),
{
    let x = proof_digests(a.collected());
    let y = proof_digests(b.collected());
    assert(x.len() == y.len());
    if x.len() == 0 {
        assert(a.collected() =~= b.collected());
    } else {
        assert(merkle::full_row(x) && merkle::full_row(y));
        merkle::law_roots_bind_leaves(x, y);
        if x == y && !(exists|i: int|
            0 <= i < a.collected().len() && hash::collides(
                #[trigger] a.collected()[i],
                b.collected()[i],
            )) {
            assert forall|i: int| 0 <= i < a.collected().len() implies a.collected()[i]
                == b.collected()[i] by {
                assert(x[i] == y[i]);
            }
            assert(a.collected() =~= b.collected());
        }
    }
}

/// Every rule of a dictionary code replaces a pair that stands at least twice in what it is applied
/// to, and no pair stands there more often, by the lowest byte that does not stand there.
pub proof fn law_rules_replace_the_most_frequent_pair(s: Seq<u8>, rules: Seq<Rule>, k: int)
    requires
        good_rules(s, rules),
        0 <= k < rules.len(),
    ensures
        ({
            let before = reduced(s, rules.take(k));
            let rule = rules[k];
            &&& pair_count(before, rule.1, rule.2) >= 2
            &&& forall|x: u8, y: u8|
                #[trigger] pair_count(before, x, y) <= pair_count(before, rule.1, rule.2)
            &&& !before.contains(rule.0)
            &&& forall|x: u8| x < rule.0 ==> #[trigger] before.contains(x)
            &&& reduced(s, rules.take(k + 1)) == substituted(before, rule)
        }),
    decreases rules.len(),
{
    if k == rules.len() - 1 {
        assert(rules.take(k) =~= rules.drop_last());
        assert(rules.take(k + 1) =~= rules);
    } else {
        law_rules_replace_the_most_frequent_pair(s, rules.drop_last(), k);
        assert(rules.drop_last().take(k) =~= rules.take(k));
        assert(rules.drop_last().take(k + 1) =~= rules.take(k + 1));
    }
}

/// Run-length codes decode pair by pair: two codes one after the other decode to what they decode to,
/// one after the other, and a last byte without its pair is left out.
pub proof fn law_run_lengths_decode_pair_by_pair(a: Seq<u8>, b: Seq<u8>, count: u8, byte: u8)
    requires
        a.len() % 2 == 0,
    ensures
        unrle(a + b) == unrle(a) + unrle(b),
        unrle(seq![count, byte]) == Seq::new(count as nat, |i: int| byte),
        unrle(seq![count]) == Seq::<u8>::empty(),
    decreases a.len(),
{
    if a.len() == 0 {
        assert(a + b =~= b);
        assert(unrle(a) =~= Seq::<u8>::empty());
        assert(unrle(a) + unrle(b) =~= unrle(b));
    } else {
        law_run_lengths_decode_pair_by_pair(a.skip(2), b, count, byte);
        assert((a + b).skip(2) =~= a.skip(2) + b);
        assert(unrle(a + b) =~= unrle(a) + unrle(b));
    }
    let pair = seq![count, byte];
    assert(pair.skip(2) =~= Seq::<u8>::empty());
    assert(unrle(pair.skip(2)) =~= Seq::<u8>::empty());
    assert(unrle(pair) =~= Seq::new(count as nat, |i: int| byte));
}

/// A dictionary code reads back as its rules, undone from the last to the first on what follows them;
/// data that is shorter than its rules decodes to nothing.
pub proof fn law_dictionaries_read_back(rules: Seq<Rule>, body: Seq<u8>, data: Seq<u8>)
    requires
        rules.len() <= 255,
    ensures
        undict(dict_frame(rules, body)) == restored(body, rules),
        dict_frame(rules, body).len() == 1 + 3 * rules.len() + body.len(),
        rules.len() > 0 ==> restored(body, rules) == restored(
            expanded(body, rules.last()),
            rules.drop_last(),
        ),
        data.len() == 0 || data.len() < 1 + 3 * data[0] ==> undict(data) == Seq::<u8>::empty(),
{
    lemma_frame_read(rules, body);
    lemma_rule_bytes_len(rules);
}

/// The pairs of two byte strings one after the other are those of both, and the one where they meet.
pub proof fn law_pairs_add_up(x: Seq<u8>, y: Seq<u8>, a: u8, b: u8)
    ensures
        pair_count(x + y, a, b) == pair_count(x, a, b) + pair_count(y, a, b) + if x.len() > 0
            && y.len() > 0 && x.last() == a && y[0] == b {
            1nat
        } else {
            0nat
        },
    decreases y.len(),
{
    if y.len() == 0 {
        assert(x + y =~= x);
    } else {
        law_pairs_add_up(x, y.drop_last(), a, b);
        assert((x + y).drop_last() =~= x + y.drop_last());
        if y.len() == 1 {
            assert(y.drop_last() =~= Seq::<u8>::empty());
        }
    }
}

/// A single byte has no pair, and two bytes have the pair that they are.
pub proof fn law_single_pairs(x: u8, y: u8, a: u8, b: u8)
    ensures
        pair_count(seq![x], a, b) == 0,
        pair_count(seq![x, y], a, b) == if x == a && y == b {
            1nat
        } else {
            0nat
        },
{
    assert(seq![x, y].drop_last() =~= seq![x]);
    assert(pair_count(seq![x], a, b) == 0);
}

/// Replacing a pair replaces it from the left: what follows a replaced pair, or a byte that does not
/// start one, is treated alike.
pub proof fn law_pairs_are_replaced_from_the_left(s: Seq<u8>, rule: Rule, x: u8)
    ensures
        substituted(seq![rule.1, rule.2] + s, rule) == seq![rule.0] + substituted(s, rule),
        x != rule.1 ==> substituted(seq![x] + s, rule) == seq![x] + substituted(s, rule),
        s.len() > 0 && s[0] != rule.2 ==> substituted(seq![x] + s, rule) == seq![x] + substituted(
            s,
            rule,
        ),
        expanded(seq![rule.0] + s, rule) == seq![rule.1, rule.2] + expanded(s, rule),
        x != rule.0 ==> expanded(seq![x] + s, rule) == seq![x] + expanded(s, rule),
{
    assert((seq![rule.1, rule.2] + s).skip(2) =~= s);
    assert((seq![x] + s).skip(1) =~= s);
    assert((seq![rule.0] + s).skip(1) =~= s);
}

/// A dictionary code has at most sixteen rules, and fewer only where no pair stands twice in what is
/// left, no byte is free, or less than two bytes are left.
pub proof fn law_dictionaries_are_complete(s: Seq<u8>, out: Seq<u8>)
    requires
        s.len() > 0,
        is_dict_code(s, out),
    ensures
        exists|rules: Seq<Rule>|
            {
                &&& rules.len() <= 16
                &&& out == #[trigger] dict_frame(rules, reduced(s, rules))
                &&& rules.len() < 16 ==> reduced(s, rules).len() < 2 || (forall|x: u8|
                    #[trigger] reduced(s, rules).contains(x)) || (forall|x: u8, y: u8|
                    #[trigger] pair_count(reduced(s, rules), x, y) <= 1)
            },
        is_dict_code(Seq::empty(), seq![0u8]),
{
    let rules = choose|rules: Seq<Rule>|
        {
            &&& rules.len() <= 16
            &&& good_rules(s, rules)
            &&& rules.len() == 16 || exhausted(reduced(s, rules))
            &&& out == #[trigger] dict_frame(rules, reduced(s, rules))
        };
    assert(out == dict_frame(rules, reduced(s, rules)));
}

} // verus!
