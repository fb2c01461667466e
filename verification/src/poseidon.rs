//! Poseidon, a hash function made for arithmetic circuits.
//!
//! The permutation has a configurable width, number of rounds and S-box exponent, and works on
//! integers modulo the Mersenne prime 2^61 - 1. The default parameters are width 3, 8 full
//! rounds, 57 partial rounds and exponent 5.

use vstd::arithmetic::div_mod::*;
use vstd::arithmetic::power::*;
use vstd::prelude::*;

use crate::encoding;
use crate::encoding::{decimal_text, push_u64, read_u64};
use crate::field;
use crate::field::{field_add, field_mul, field_pow, MERSENNE_P};
use crate::hash;
use crate::hash::blake3_hash;

verus! {

// ---------------------------------------------------------------------------
// Configuration
// ---------------------------------------------------------------------------

/// Parameters governing the Poseidon permutation.
#[derive(Clone, Copy, Debug)]
pub struct PoseidonConfig {
    /// Number of field elements in the state.
    pub width: usize,
    /// Number of full rounds.
    pub full_rounds: usize,
    /// Number of partial rounds.
    pub partial_rounds: usize,
    /// S-box exponent.
    pub alpha: u64,
}

/// The default parameters.
pub open spec fn default_parameters() -> PoseidonConfig {
    PoseidonConfig { width: 3, full_rounds: 8, partial_rounds: 57, alpha: 5 }
}

impl Default for PoseidonConfig {
    fn default() -> (c: Self)
        ensures
            c == default_parameters(),
    {
        PoseidonConfig { width: 3, full_rounds: 8, partial_rounds: 57, alpha: 5 }
    }
}

impl PoseidonConfig {
    /// Total number of rounds.
    pub fn total_rounds(&self) -> (n: usize)
        requires
            self.full_rounds + self.partial_rounds <= usize::MAX,
        ensures
            n == self.full_rounds + self.partial_rounds,
    {
        self.full_rounds + self.partial_rounds
    }

    /// Whether the round constants and the matrix of these parameters can be indexed.
    pub open spec fn fits(&self) -> bool {
        &&& self.full_rounds + self.partial_rounds <= usize::MAX
        &&& (self.full_rounds + self.partial_rounds) * self.width <= usize::MAX
        &&& 2 * self.width <= usize::MAX
    }
}

// ---------------------------------------------------------------------------
// Round constants and matrix
// ---------------------------------------------------------------------------

/// Round constant `i`: the first eight bytes of the hash of a numbered tag, as a number,
/// reduced.
pub open spec fn round_constant(i: nat) -> int {
    encoding::le_value(
        hash::blake3_digest(constant_label(i)).subrange(0, 8),
    ) as int % field::p()
}

/// What is hashed for a round constant: its label and its number.
pub open spec fn constant_label(i: nat) -> Seq<u8> {
    encoding::text_bytes("ARC_POSEIDON_RC_"@ + encoding::decimal(i))
}

/// Generates the first `total` round constants.
pub fn generate_round_constants(total: usize) -> (v: Vec<u64>)
    ensures
        v@.len() == total,
        forall|i: int| 0 <= i < total ==> #[trigger] v@[i] == round_constant(i as nat),
{
    let mut v: Vec<u64> = Vec::new();
    let mut i: usize = 0;
    while i < total
        invariant
            i <= total,
            v@.len() == i,
            forall|k: int| 0 <= k < i ==> #[trigger] v@[k] == round_constant(k as nat),
        decreases total - i,
    {
        let n: String = decimal_text(i as u64);
        let tag: String = "ARC_POSEIDON_RC_".to_owned().concat(n.as_str());
        let digest: [u8; 32] = blake3_hash(tag.as_str().as_bytes());
        let raw: u64 = read_u64(vstd::slice::slice_subrange(&digest, 0, 8));
        v.push(raw % MERSENNE_P);
        i = i + 1;
    }
    v
}

/// The sum whose inverse is the entry `(i, j)` of the matrix of width `t`: the numbers `i + 1`
/// and `t + j + 1`.
pub open spec fn cauchy_sum(t: nat, i: int, j: int) -> int {
    (i + 1) % field::p() + (t + j + 1) % field::p()
}

/// The entry `(i, j)` of the Cauchy matrix of width `t`.
pub open spec fn matrix_entry(t: nat, i: int, j: int) -> int {
    field::inverse(cauchy_sum(t, i, j) % field::p()) % field::p()
}

/// Every entry of the matrix is the inverse of its Cauchy sum, where that sum is not zero in
/// the field.
pub proof fn law_matrix_entries_are_inverses(t: nat, i: int, j: int)
    requires
        cauchy_sum(t, i, j) % field::p() != 0,
    ensures
        (matrix_entry(t, i, j) * cauchy_sum(t, i, j)) % field::p() == 1,
{
    let s = cauchy_sum(t, i, j);
    let r = s % field::p();
    let inv = field::inverse(r);
    lemma_mod_bound(s, field::p());
    lemma_mod_twice(s, field::p());
    field::lemma_inverse(r);
    field::lemma_congruent_mod(inv);
    field::lemma_congruent_mod(s);
    field::lemma_congruent_mul(matrix_entry(t, i, j), inv, s, r);
    assert(r * inv == inv * r) by (nonlinear_arith);
}

/// Builds the Cauchy matrix of width `t`: `M[i][j] = 1 / (x_i + y_j)` with `x_i = i + 1` and
/// `y_j = t + j + 1`.
pub fn generate_mds_matrix(t: usize) -> (m: Vec<Vec<u64>>)
    requires
        2 * t <= usize::MAX,
    ensures
        m@.len() == t,
        forall|i: int| 0 <= i < t ==> (#[trigger] m@[i])@.len() == t,
        forall|i: int, j: int|
            0 <= i < t && 0 <= j < t ==> #[trigger] m@[i]@[j] == matrix_entry(t as nat, i, j),
{
    let mut m: Vec<Vec<u64>> = Vec::new();
    let mut i: usize = 0;
    while i < t
        invariant
            i <= t,
            2 * t <= usize::MAX,
            m@.len() == i,
            forall|a: int| 0 <= a < i ==> (#[trigger] m@[a])@.len() == t,
            forall|a: int, b: int|
                0 <= a < i && 0 <= b < t ==> #[trigger] m@[a]@[b] == matrix_entry(t as nat, a, b),
        decreases t - i,
    {
        let mut row: Vec<u64> = Vec::new();
        let mut j: usize = 0;
        while j < t
            invariant
                j <= t,
                i < t,
                2 * t <= usize::MAX,
                row@.len() == j,
                forall|b: int|
                    0 <= b < j ==> #[trigger] row@[b] == matrix_entry(t as nat, i as int, b),
            decreases t - j,
        {
            let x: u64 = (i as u64 + 1) % MERSENNE_P;
            let y: u64 = (t as u64 + j as u64 + 1) % MERSENNE_P;
            let s: u64 = field_add(x, y);
            row.push(field_pow(s, MERSENNE_P - 2));
            j = j + 1;
        }
        m.push(row);
        i = i + 1;
    }
    m
}

// ---------------------------------------------------------------------------
// Permutation
// ---------------------------------------------------------------------------

/// The state after the constants of round `r` are added to its first `t` elements.
pub open spec fn constants_added(s: Seq<u64>, t: nat, r: nat) -> Seq<u64> {
    Seq::new(
        s.len(),
        |i: int|
            if i < t {
                ((s[i] + round_constant((r * t + i) as nat)) % field::p()) as u64
            } else {
                s[i]
            },
    )
}

/// An element raised to the S-box exponent.
pub open spec fn substituted(x: u64, alpha: u64) -> u64 {
    (pow(x as int, alpha as nat) % field::p()) as u64
}

/// Whether round `r` is a full round: the partial rounds stand in the middle.
pub open spec fn is_full_round(c: PoseidonConfig, r: nat) -> bool {
    r < c.full_rounds / 2 || r >= c.full_rounds / 2 + c.partial_rounds
}

/// The state after the S-box of a round: a full round changes the first `width` elements, a
/// partial round the first element.
pub open spec fn boxed(s: Seq<u64>, c: PoseidonConfig, r: nat) -> Seq<u64> {
    if is_full_round(c, r) {
        Seq::new(
            s.len(),
            |i: int|
                if i < c.width {
                    substituted(s[i], c.alpha)
                } else {
                    s[i]
                },
        )
    } else {
        s.update(0, substituted(s[0], c.alpha))
    }
}

/// The sum of the first `n` products of row `i` of the matrix with the state.
pub open spec fn row_sum(s: Seq<u64>, t: nat, i: int, n: nat) -> int
    decreases n,
{
    if n == 0 {
        0
    } else {
        row_sum(s, t, i, (n - 1) as nat) + matrix_entry(t, i, n - 1) * s[n - 1]
    }
}

/// The state after its first `t` elements are multiplied with the matrix.
pub open spec fn mixed(s: Seq<u64>, t: nat) -> Seq<u64> {
    Seq::new(
        s.len(),
        |i: int|
            if i < t {
                (row_sum(s, t, i, t) % field::p()) as u64
            } else {
                s[i]
            },
    )
}

/// The state after round `r`.
pub open spec fn round_applied(s: Seq<u64>, c: PoseidonConfig, r: nat) -> Seq<u64> {
    mixed(boxed(constants_added(s, c.width as nat, r), c, r), c.width as nat)
}

/// The state after the first `n` rounds.
pub open spec fn rounds_applied(s: Seq<u64>, c: PoseidonConfig, n: nat) -> Seq<u64>
    decreases n,
{
    if n == 0 {
        s
    } else {
        round_applied(rounds_applied(s, c, (n - 1) as nat), c, (n - 1) as nat)
    }
}

/// The state after the permutation.
pub open spec fn permuted(s: Seq<u64>, c: PoseidonConfig) -> Seq<u64> {
    rounds_applied(s, c, (c.full_rounds + c.partial_rounds) as nat)
}

/// The permutation keeps the number of elements.
pub proof fn lemma_rounds_len(s: Seq<u64>, c: PoseidonConfig, n: nat)
    requires
        s.len() > 0 || c.partial_rounds == 0,
    ensures
        rounds_applied(s, c, n).len() == s.len(),
    decreases n,
{
    if n > 0 {
        lemma_rounds_len(s, c, (n - 1) as nat);
    }
}

/// State of the Poseidon permutation.
#[derive(Clone, Debug)]
pub struct PoseidonState {
    /// State words.
    pub elements: Vec<u64>,
}

/// Adds the constants of a round.
fn add_constants(s: &mut Vec<u64>, rc: &Vec<u64>, t: usize, r: usize)
    requires
        t <= old(s)@.len(),
        (r + 1) * t <= rc@.len(),
        forall|i: int| 0 <= i < rc@.len() ==> #[trigger] rc@[i] == round_constant(i as nat),
    ensures
        final(s)@ == constants_added(old(s)@, t as nat, r as nat),
{
    let ghost before = s@;
    let ghost target = constants_added(before, t as nat, r as nat);
    assert(r * t + t == (r + 1) * t) by (nonlinear_arith);
    let mut i: usize = 0;
    while i < t
        invariant
            i <= t,
            t <= before.len(),
            s@.len() == before.len(),
            target == constants_added(before, t as nat, r as nat),
            r * t + t <= rc@.len(),
            rc.len() == rc@.len(),
            forall|k: int| 0 <= k < rc@.len() ==> #[trigger] rc@[k] == round_constant(k as nat),
            forall|k: int| 0 <= k < i ==> s@[k] == target[k],
            forall|k: int| i <= k < before.len() ==> s@[k] == before[k],
        decreases t - i,
    {
        assert(0 <= r * t) by (nonlinear_arith);
        assert(rc@[r * t + i] == round_constant((r * t + i) as nat));
        let v: u64 = field_add(s[i], rc[r * t + i]);
        s.set(i, v);
        i = i + 1;
    }
    assert(s@ =~= target);
}

/// Applies the S-box of a round.
fn apply_box(s: &mut Vec<u64>, c: &PoseidonConfig, r: usize)
    requires
        c.width <= old(s)@.len(),
        is_full_round(*c, r as nat) || old(s)@.len() > 0,
        c.full_rounds + c.partial_rounds <= usize::MAX,
    ensures
        final(s)@ == boxed(old(s)@, *c, r as nat),
{
    let half: usize = c.full_rounds / 2;
    let ghost before = s@;
    let ghost target = boxed(before, *c, r as nat);
    if r < half || r >= half + c.partial_rounds {
        let mut i: usize = 0;
        while i < c.width
            invariant
                i <= c.width,
                c.width <= before.len(),
                s@.len() == before.len(),
                is_full_round(*c, r as nat),
                target == boxed(before, *c, r as nat),
                forall|k: int| 0 <= k < i ==> s@[k] == target[k],
                forall|k: int| i <= k < before.len() ==> s@[k] == before[k],
            decreases c.width - i,
        {
            let v: u64 = field_pow(s[i], c.alpha);
            s.set(i, v);
            i = i + 1;
        }
    } else {
        let v: u64 = field_pow(s[0], c.alpha);
        s.set(0, v);
    }
    assert(s@ =~= target);
}

/// Multiplies the first `t` elements with the matrix.
fn mix(s: &mut Vec<u64>, m: &Vec<Vec<u64>>, t: usize)
    requires
        t <= old(s)@.len(),
        m@.len() == t,
        forall|i: int| 0 <= i < t ==> (#[trigger] m@[i])@.len() == t,
        forall|i: int, j: int|
            0 <= i < t && 0 <= j < t ==> #[trigger] m@[i]@[j] == matrix_entry(t as nat, i, j),
    ensures
        final(s)@ == mixed(old(s)@, t as nat),
{
    let ghost before = s@;
    let ghost target = mixed(before, t as nat);
    let mut old_elements: Vec<u64> = Vec::new();
    let mut k: usize = 0;
    while k < s.len()
        invariant
            k <= s@.len(),
            s@ == before,
            old_elements@ == before.subrange(0, k as int),
        decreases s@.len() - k,
    {
        old_elements.push(s[k]);
        k = k + 1;
        assert(old_elements@ =~= before.subrange(0, k as int));
    }
    assert(old_elements@ =~= before);
    let mut i: usize = 0;
    while i < t
        invariant
            i <= t,
            t <= before.len(),
            s@.len() == before.len(),
            old_elements@ == before,
            target == mixed(before, t as nat),
            m@.len() == t,
            forall|i: int| 0 <= i < t ==> (#[trigger] m@[i])@.len() == t,
            forall|i: int, j: int|
                0 <= i < t && 0 <= j < t ==> #[trigger] m@[i]@[j] == matrix_entry(
                    t as nat,
                    i,
                    j,
                ),
            forall|a: int| 0 <= a < i ==> s@[a] == target[a],
            forall|a: int| i <= a < before.len() ==> s@[a] == before[a],
        decreases t - i,
    {
        let mut acc: u64 = 0;
        let mut j: usize = 0;
        while j < t
            invariant
                j <= t,
                i < t,
                t <= before.len(),
                old_elements@ == before,
                m@.len() == t,
                m@[i as int]@.len() == t,
                forall|b: int|
                    0 <= b < t ==> #[trigger] m@[i as int]@[b] == matrix_entry(
                        t as nat,
                        i as int,
                        b,
                    ),
                acc == row_sum(before, t as nat, i as int, j as nat) % field::p(),
            decreases t - j,
        {
            let x: u64 = m[i][j];
            let y: u64 = old_elements[j];
            proof {
                let so_far = row_sum(before, t as nat, i as int, j as nat);
                lemma_add_mod_noop(so_far, x * y, field::p());
                assert(x == matrix_entry(t as nat, i as int, j as int));
                assert(row_sum(before, t as nat, i as int, j as nat + 1) == so_far + x * y);
            }
            acc = field_add(acc, field_mul(x, y));
            j = j + 1;
        }
        s.set(i, acc);
        i = i + 1;
    }
    assert(s@ =~= target);
}

impl PoseidonState {
    /// Creates a zero-initialised state of the given width.
    pub fn new(width: usize) -> (s: Self)
        ensures
            s.elements@ == Seq::new(width as nat, |i: int| 0u64),
    {
        let mut elements: Vec<u64> = Vec::new();
        let mut i: usize = 0;
        while i < width
            invariant
                i <= width,
                elements@ == Seq::new(i as nat, |i: int| 0u64),
            decreases width - i,
        {
            elements.push(0);
            i = i + 1;
            assert(elements@ =~= Seq::new(i as nat, |i: int| 0u64));
        }
        PoseidonState { elements }
    }

    /// Applies the full Poseidon permutation in place.
    pub fn permute(&mut self, config: &PoseidonConfig)
        requires
            config.fits(),
            config.width <= old(self).elements@.len(),
            old(self).elements@.len() > 0 || config.partial_rounds == 0,
        ensures
            final(self).elements@ == permuted(old(self).elements@, *config),
            final(self).elements@.len() == old(self).elements@.len(),
    {
        let t: usize = config.width;
        let total: usize = config.total_rounds();
        let rc: Vec<u64> = generate_round_constants(total * t);
        let mds: Vec<Vec<u64>> = generate_mds_matrix(t);
        let ghost before = self.elements@;
        let mut r: usize = 0;
        while r < total
            invariant
                r <= total,
                t == config.width,
                total == config.full_rounds + config.partial_rounds,
                config.fits(),
                config.width <= before.len(),
                before.len() > 0 || config.partial_rounds == 0,
                self.elements@.len() == before.len(),
                self.elements@ == rounds_applied(before, *config, r as nat),
                rc@.len() == total * t,
                forall|i: int|
                    0 <= i < rc@.len() ==> #[trigger] rc@[i] == round_constant(i as nat),
                mds@.len() == t,
                forall|i: int| 0 <= i < t ==> (#[trigger] mds@[i])@.len() == t,
                forall|i: int, j: int|
                    0 <= i < t && 0 <= j < t ==> #[trigger] mds@[i]@[j] == matrix_entry(
                        t as nat,
                        i,
                        j,
                    ),
            decreases total - r,
        {
            assert((r + 1) * t <= total * t) by (nonlinear_arith)
                requires
                    r + 1 <= total,
            ;
            add_constants(&mut self.elements, &rc, t, r);
            apply_box(&mut self.elements, config, r);
            mix(&mut self.elements, &mds, t);
            r = r + 1;
        }
        proof {
            lemma_rounds_len(before, *config, total as nat);
        }
    }
}

// ---------------------------------------------------------------------------
// Hashing
// ---------------------------------------------------------------------------

/// The state with a block of values added to its elements, from the second on.
pub open spec fn block_added(s: Seq<u64>, block: Seq<u64>) -> Seq<u64> {
    Seq::new(
        s.len(),
        |i: int|
            if 1 <= i <= block.len() {
                ((s[i] + block[i - 1]) % field::p()) as u64
            } else {
                s[i]
            },
    )
}

/// The state after all values are absorbed, `width - 1` at a time, with a permutation after
/// each block; the last block may be shorter.
pub open spec fn all_absorbed(s: Seq<u64>, inputs: Seq<u64>, c: PoseidonConfig) -> Seq<u64>
    decreases inputs.len(),
{
    let rate = c.width - 1;
    if inputs.len() == 0 || rate <= 0 {
        s
    } else if inputs.len() <= rate {
        permuted(block_added(s, inputs), c)
    } else {
        all_absorbed(
            permuted(block_added(s, inputs.subrange(0, rate)), c),
            inputs.subrange(rate, inputs.len() as int),
            c,
        )
    }
}

/// The state before the first block: the number of inputs, then zeros.
pub open spec fn initial_state(n: nat, c: PoseidonConfig) -> Seq<u64> {
    Seq::new(c.width as nat, |i: int| if i == 0 { n as u64 } else { 0 })
}

/// The hash of values: the second element of the state after all of them are absorbed; without
/// values the state is permuted once.
pub open spec fn hash_of(inputs: Seq<u64>, c: PoseidonConfig) -> u64 {
    if inputs.len() == 0 {
        permuted(initial_state(0, c), c)[1]
    } else {
        all_absorbed(initial_state(inputs.len(), c), inputs, c)[1]
    }
}

/// Adds a block of values to the state.
fn add_block(s: &mut Vec<u64>, block: &[u64])
    requires
        block@.len() < old(s)@.len(),
    ensures
        final(s)@ == block_added(old(s)@, block@),
{
    let ghost before = s@;
    let ghost target = block_added(before, block@);
    let mut i: usize = 0;
    while i < block.len()
        invariant
            i <= block.len(),
            block.len() < before.len(),
            s@.len() == before.len(),
            target == block_added(before, block@),
            forall|k: int| 0 <= k <= i ==> s@[k] == target[k],
            forall|k: int| i < k < before.len() ==> s@[k] == before[k],
        decreases block.len() - i,
    {
        let x: u64 = s[1 + i];
        let y: u64 = block[i];
        let v: u64 = field_add(x, y % MERSENNE_P);
        proof {
            lemma_add_mod_noop_right(x as int, y as int, field::p());
        }
        s.set(1 + i, v);
        i = i + 1;
    }
    assert(s@ =~= target);
}

/// Hashes values with the default parameters.
pub fn poseidon_hash(inputs: &[u64]) -> (h: u64)
    ensures
        h == hash_of(inputs@, default_parameters()),
{
    let config: PoseidonConfig = PoseidonConfig::default();
    poseidon_hash_with_config(inputs, &config)
}

/// Hashes values with the given parameters. The first element of the state is the capacity
/// and starts as the number of values; values are added to the others.
pub fn poseidon_hash_with_config(inputs: &[u64], config: &PoseidonConfig) -> (h: u64)
    requires
        config.width >= 2,
        config.fits(),
    ensures
        h == hash_of(inputs@, *config),
{
    let rate: usize = config.width - 1;
    let mut state: PoseidonState = PoseidonState::new(config.width);
    state.elements.set(0, inputs.len() as u64);
    assert(state.elements@ =~= initial_state(inputs@.len(), *config));
    if inputs.len() == 0 {
        state.permute(config);
        return state.elements[1];
    }
    let ghost whole = all_absorbed(state.elements@, inputs@, *config);
    let mut start: usize = 0;
    assert(inputs@.subrange(0, inputs@.len() as int) =~= inputs@);
    while inputs.len() - start > rate
        invariant
            start <= inputs.len(),
            rate == config.width - 1,
            config.width >= 2,
            config.fits(),
            state.elements@.len() == config.width,
            inputs@.len() > 0,
            start < inputs@.len(),
            whole == all_absorbed(
                state.elements@,
                inputs@.subrange(start as int, inputs@.len() as int),
                *config,
            ),
        decreases inputs.len() - start,
    {
        let ghost rest = inputs@.subrange(start as int, inputs@.len() as int);
        let block: &[u64] = vstd::slice::slice_subrange(inputs, start, start + rate);
        assert(block@ =~= rest.subrange(0, rate as int));
        assert(inputs@.subrange(start + rate, inputs@.len() as int) =~= rest.subrange(
            rate as int,
            rest.len() as int,
        ));
        add_block(&mut state.elements, block);
        state.permute(config);
        start = start + rate;
    }
    let block: &[u64] = vstd::slice::slice_subrange(inputs, start, inputs.len());
    add_block(&mut state.elements, block);
    state.permute(config);
    state.elements[1]
}

/// The numbers that bytes spell, eight bytes to a number, reduced; the last number may have
/// fewer bytes.
pub open spec fn byte_limbs(data: Seq<u8>) -> Seq<u64> {
    Seq::new(
        (data.len() + 7) / 8,
        |i: int| (limb_word(data, i) as int % field::p()) as u64,
    )
}

/// The number that the `i`th eight bytes spell; at the end there may be fewer.
pub open spec fn limb_word(data: Seq<u8>, i: int) -> nat {
    encoding::le_value(
        data.subrange(
            8 * i,
            if 8 * i + 8 <= data.len() {
                8 * i + 8
            } else {
                data.len() as int
            },
        ),
    )
}

/// The 32-byte hash of bytes: the hash of the numbers that they spell, expanded by BLAKE3.
pub open spec fn byte_hash(data: Seq<u8>) -> Seq<u8> {
    hash::blake3_digest(
        encoding::le_bytes(hash_of(byte_limbs(data), default_parameters()) as nat, 8),
    )
}

/// Hashes bytes to 32 bytes: the hash of the numbers that the bytes spell, expanded by BLAKE3.
pub fn poseidon_hash_bytes(data: &[u8]) -> (r: [u8; 32])
    requires
        data@.len() <= usize::MAX - 8,
    ensures
        r@ == byte_hash(data@),
{
    let mut limbs: Vec<u64> = Vec::new();
    let mut start: usize = 0;
    while start < data.len()
        invariant
            start == 8 * limbs@.len(),
            start < data.len() + 8,
            data@.len() <= usize::MAX - 8,
            limbs@.len() <= (data@.len() + 7) / 8,
            forall|k: int| 0 <= k < limbs@.len() ==> #[trigger] limbs@[k] == byte_limbs(data@)[k],
        decreases data.len() + 8 - start,
    {
        let end: usize = if data.len() - start >= 8 {
            start + 8
        } else {
            data.len()
        };
        let raw: u64 = read_u64(vstd::slice::slice_subrange(data, start, end));
        limbs.push(raw % MERSENNE_P);
        start = start + 8;
    }
    assert(limbs@ =~= byte_limbs(data@));
    let core: u64 = poseidon_hash(limbs.as_slice());
    let mut bytes: Vec<u8> = Vec::new();
    push_u64(&mut bytes, core);
    assert(bytes@ =~= encoding::le_bytes(core as nat, 8));
    blake3_hash(bytes.as_slice())
}

/// The Poseidon hash of a left and a right child.
pub fn poseidon_merkle_hash(left: u64, right: u64) -> (h: u64)
    ensures
        h == hash_of(seq![left, right], default_parameters()),
{
    let pair: [u64; 2] = [left, right];
    assert(pair@ =~= seq![left, right]);
    poseidon_hash(&pair)
}

// ---------------------------------------------------------------------------
// Sponge
// ---------------------------------------------------------------------------

/// State and buffer after as many full blocks as there are have been absorbed.
pub open spec fn drained(s: Seq<u64>, data: Seq<u64>, c: PoseidonConfig) -> (Seq<u64>, Seq<u64>)
    decreases data.len(),
{
    let rate = c.width - 1;
    if data.len() < rate || rate <= 0 {
        (s, data)
    } else {
        drained(
            permuted(block_added(s, data.subrange(0, rate)), c),
            data.subrange(rate, data.len() as int),
            c,
        )
    }
}

/// Absorbing values in parts leaves the same state and buffer as absorbing them at once.
pub proof fn law_incremental_absorption(
    s: Seq<u64>,
    first: Seq<u64>,
    second: Seq<u64>,
    c: PoseidonConfig,
)
    ensures
        ({
            let (state, buffer) = drained(s, first, c);
            drained(state, buffer + second, c) == drained(s, first + second, c)
        }),
    decreases first.len(),
{
    let rate = c.width - 1;
    if first.len() >= rate && rate > 0 {
        let next = permuted(block_added(s, first.subrange(0, rate)), c);
        let rest = first.subrange(rate, first.len() as int);
        law_incremental_absorption(next, rest, second, c);
        assert((first + second).subrange(0, rate) =~= first.subrange(0, rate));
        assert((first + second).subrange(rate, (first + second).len() as int) =~= rest + second);
    }
}

/// The buffer after absorption holds less than a block, and the state keeps its length.
proof fn lemma_drained(s: Seq<u64>, data: Seq<u64>, c: PoseidonConfig)
    requires
        c.width >= 2,
        s.len() == c.width,
    ensures
        drained(s, data, c).1.len() < c.width - 1,
        drained(s, data, c).0.len() == c.width,
    decreases data.len(),
{
    let rate = c.width - 1;
    if data.len() >= rate {
        let block = block_added(s, data.subrange(0, rate));
        lemma_rounds_len(block, c, (c.full_rounds + c.partial_rounds) as nat);
        lemma_drained(permuted(block, c), data.subrange(rate, data.len() as int), c);
    }
}

/// The state after absorption has ended: the number of absorbed values is added to the
/// capacity, the buffered values and a one after them to the other elements, and the state is
/// permuted.
pub open spec fn finalised(s: Seq<u64>, buffer: Seq<u64>, count: nat, c: PoseidonConfig) -> Seq<
    u64,
> {
    permuted(closed_state(s, buffer, count), c)
}

/// The state in which absorption ends, before it is permuted for the last time.
pub open spec fn closed_state(s: Seq<u64>, buffer: Seq<u64>, count: nat) -> Seq<u64> {
    let counted = s.update(0, ((s[0] + count) % field::p()) as u64);
    block_added(counted, buffer.push(1))
}

/// The first `n` values squeezed from a state: its elements from the second on, then those of
/// the permuted state, and so on.
pub open spec fn squeezed(s: Seq<u64>, n: nat, c: PoseidonConfig) -> Seq<u64>
    decreases n,
{
    let rate = c.width - 1;
    if n <= rate || rate <= 0 {
        s.subrange(1, 1 + n as int)
    } else {
        s.subrange(1, 1 + rate) + squeezed(permuted(s, c), (n - rate) as nat, c)
    }
}

/// The state after `n` values are squeezed.
pub open spec fn after_squeeze(s: Seq<u64>, n: nat, c: PoseidonConfig) -> Seq<u64>
    decreases n,
{
    let rate = c.width - 1;
    if n <= rate || rate <= 0 {
        s
    } else {
        after_squeeze(permuted(s, c), (n - rate) as nat, c)
    }
}

/// Sponge that absorbs arbitrary values and squeezes output.
#[derive(Clone, Debug)]
pub struct PoseidonSponge {
    config: PoseidonConfig,
    state: PoseidonState,
    absorb_buf: Vec<u64>,
    absorbed: usize,
    squeezing: bool,
}

/// What absorbing values makes of a sponge.
pub open spec fn absorbs(before: PoseidonSponge, inputs: Seq<u64>, after: PoseidonSponge) -> bool {
    &&& !after.is_squeezing()
    &&& after.parameters() == before.parameters()
    &&& after.count() == before.count() + inputs.len()
    &&& (after.words(), after.buffer()) == drained(
        before.words(),
        before.buffer() + inputs,
        before.parameters(),
    )
}

/// A sponge that absorbed values in two parts squeezes the same as one that absorbed them at
/// once, however many values are squeezed.
pub proof fn law_split_absorption_squeezes_alike(
    start: PoseidonSponge,
    first: Seq<u64>,
    second: Seq<u64>,
    between: PoseidonSponge,
    parts: PoseidonSponge,
    whole: PoseidonSponge,
    n: nat,
)
    requires
        absorbs(start, first, between),
        absorbs(between, second, parts),
        absorbs(start, first + second, whole),
    ensures
        squeezed(parts.final_words(), n, parts.parameters()) == squeezed(
            whole.final_words(),
            n,
            whole.parameters(),
        ),
{
    law_incremental_absorption(
        start.words(),
        start.buffer() + first,
        second,
        start.parameters(),
    );
    assert(start.buffer() + first + second =~= start.buffer() + (first + second));
}

impl PoseidonSponge {
    /// The parameters.
    pub closed spec fn parameters(&self) -> PoseidonConfig {
        self.config
    }

    /// The state words.
    pub closed spec fn words(&self) -> Seq<u64> {
        self.state.elements@
    }

    /// The values that wait for a full block.
    pub closed spec fn buffer(&self) -> Seq<u64> {
        self.absorb_buf@
    }

    /// The number of values absorbed.
    pub closed spec fn count(&self) -> nat {
        self.absorbed as nat
    }

    /// Whether absorption has ended.
    pub closed spec fn is_squeezing(&self) -> bool {
        self.squeezing
    }

    /// Whether the state has the width of the parameters and the buffer holds less than a
    /// block.
    pub open spec fn wf(&self) -> bool {
        &&& self.parameters().width >= 2
        &&& self.parameters().fits()
        &&& self.words().len() == self.parameters().width
        &&& self.buffer().len() < self.parameters().width - 1
    }

    /// The state words once absorption has ended.
    pub open spec fn final_words(&self) -> Seq<u64> {
        if self.is_squeezing() {
            self.words()
        } else {
            finalised(self.words(), self.buffer(), self.count(), self.parameters())
        }
    }

    /// Creates a sponge with the default parameters.
    pub fn new() -> (s: Self)
        ensures
            s.wf(),
            s.parameters() == default_parameters(),
            s.words() == Seq::new(3, |i: int| 0u64),
            s.buffer() == Seq::<u64>::empty(),
            s.count() == 0,
            !s.is_squeezing(),
    {
        Self::with_config(PoseidonConfig::default())
    }

    /// Creates a sponge with the given parameters.
    pub fn with_config(config: PoseidonConfig) -> (s: Self)
        requires
            config.width >= 2,
            config.fits(),
        ensures
            s.wf(),
            s.parameters() == config,
            s.words() == Seq::new(config.width as nat, |i: int| 0u64),
            s.buffer() == Seq::<u64>::empty(),
            s.count() == 0,
            !s.is_squeezing(),
    {
        let state: PoseidonState = PoseidonState::new(config.width);
        PoseidonSponge { config, state, absorb_buf: Vec::new(), absorbed: 0, squeezing: false }
    }

    /// Absorbs values.
    pub fn absorb(&mut self, inputs: &[u64])
        requires
            old(self).wf(),
            !old(self).is_squeezing(),
            old(self).count() + inputs@.len() <= usize::MAX,
        ensures
            final(self).wf(),
            absorbs(*old(self), inputs@, *final(self)),
    {
        let rate: usize = self.config.width - 1;
        let ghost c = self.config;
        let ghost data = self.absorb_buf@ + inputs@;
        let ghost goal = drained(self.state.elements@, data, c);
        proof {
            lemma_drained(self.state.elements@, data, c);
        }
        let mut i: usize = 0;
        while i < inputs.len()
            invariant
                i <= inputs.len(),
                self.absorb_buf@ == old(self).absorb_buf@ + inputs@.subrange(0, i as int),
                self.config == c,
                self.state == old(self).state,
                self.absorbed == old(self).absorbed,
                self.squeezing == old(self).squeezing,
            decreases inputs.len() - i,
        {
            self.absorb_buf.push(inputs[i]);
            i = i + 1;
            assert(self.absorb_buf@ =~= old(self).absorb_buf@ + inputs@.subrange(0, i as int));
        }
        assert(self.absorb_buf@ =~= data);
        self.absorbed = self.absorbed + inputs.len();
        while self.absorb_buf.len() >= rate
            invariant
                self.config == c,
                c.width >= 2,
                c.fits(),
                rate == c.width - 1,
                self.state.elements@.len() == c.width,
                self.absorbed == old(self).absorbed + inputs@.len(),
                self.squeezing == old(self).squeezing,
                drained(self.state.elements@, self.absorb_buf@, c) == goal,
            decreases self.absorb_buf@.len(),
        {
            let ghost before = self.absorb_buf@;
            let mut remaining: Vec<u64> = self.absorb_buf.split_off(rate);
            std::mem::swap(&mut remaining, &mut self.absorb_buf);
            assert(remaining@ =~= before.subrange(0, rate as int));
            assert(self.absorb_buf@ =~= before.subrange(rate as int, before.len() as int));
            add_block(&mut self.state.elements, remaining.as_slice());
            let config: PoseidonConfig = self.config;
            self.state.permute(&config);
        }
    }

    /// Ends absorption.
    fn finalise(&mut self)
        requires
            old(self).wf(),
        ensures
            final(self).wf(),
            final(self).is_squeezing(),
            final(self).parameters() == old(self).parameters(),
            final(self).count() == old(self).count(),
            final(self).words() == old(self).final_words(),
            old(self).is_squeezing() ==> *final(self) == *old(self),
    {
        if self.squeezing {
            return;
        }
        let ghost s = self.state.elements@;
        let ghost buffer = self.absorb_buf@;
        let head: u64 = field_add(self.state.elements[0], self.absorbed as u64);
        self.state.elements.set(0, head);
        let ghost counted = self.state.elements@;
        self.absorb_buf.push(1);
        add_block(&mut self.state.elements, self.absorb_buf.as_slice());
        self.absorb_buf.clear();
        let config: PoseidonConfig = self.config;
        self.state.permute(&config);
        self.squeezing = true;
        assert(counted == s.update(0, ((s[0] + self.absorbed as nat) % field::p()) as u64));
        assert(self.absorb_buf@ =~= Seq::<u64>::empty());
    }

    /// Squeezes `count` values from the sponge; absorption ends.
    pub fn squeeze(&mut self, count: usize) -> (out: Vec<u64>)
        requires
            old(self).wf(),
        ensures
            final(self).wf(),
            final(self).is_squeezing(),
            final(self).parameters() == old(self).parameters(),
            final(self).count() == old(self).count(),
            out@ == squeezed(old(self).final_words(), count as nat, old(self).parameters()),
            out@.len() == count,
            final(self).words() == after_squeeze(
                old(self).final_words(),
                count as nat,
                old(self).parameters(),
            ),
    {
        self.finalise();
        let rate: usize = self.config.width - 1;
        let ghost c = self.config;
        let ghost start = self.state.elements@;
        let ghost goal = squeezed(start, count as nat, c);
        let ghost end = after_squeeze(start, count as nat, c);
        let mut out: Vec<u64> = Vec::new();
        let mut left: usize = count;
        assert(goal =~= out@ + squeezed(self.state.elements@, left as nat, c));
        while left > rate
            invariant
                left <= count,
                out@.len() == count - left,
                self.config == c,
                c.width >= 2,
                c.fits(),
                rate == c.width - 1,
                self.state.elements@.len() == c.width,
                self.absorbed == old(self).absorbed,
                self.squeezing,
                self.wf(),
                goal == out@ + squeezed(self.state.elements@, left as nat, c),
                end == after_squeeze(self.state.elements@, left as nat, c),
            decreases left,
        {
            let ghost before = out@;
            let ghost s = self.state.elements@;
            push_elements(&mut out, &self.state.elements, rate);
            let config: PoseidonConfig = self.config;
            self.state.permute(&config);
            left = left - rate;
            assert(goal =~= out@ + squeezed(self.state.elements@, left as nat, c));
        }
        push_elements(&mut out, &self.state.elements, left);
        assert(out@ =~= goal);
        out
    }
}

/// Appends elements of a state, from the second on.
fn push_elements(out: &mut Vec<u64>, s: &Vec<u64>, n: usize)
    requires
        n < s@.len(),
    ensures
        final(out)@ == old(out)@ + s@.subrange(1, 1 + n as int),
{
    let ghost before = out@;
    let mut i: usize = 0;
    assert(out@ =~= before + s@.subrange(1, 1));
    while i < n
        invariant
            i <= n,
            n < s@.len(),
            out@ == before + s@.subrange(1, 1 + i as int),
        decreases n - i,
    {
        out.push(s[1 + i]);
        i = i + 1;
        assert(out@ =~= before + s@.subrange(1, 1 + i as int));
    }
}

impl Default for PoseidonSponge {
    fn default() -> (s: Self)
        ensures
            s.wf(),
            s.parameters() == default_parameters(),
            s.words() == Seq::new(3, |i: int| 0u64),
            s.buffer() == Seq::<u64>::empty(),
            s.count() == 0,
            !s.is_squeezing(),
    {
        Self::new()
    }
}

// ---------------------------------------------------------------------------
// What enters a hash
// ---------------------------------------------------------------------------

/// The limbs spell the data: before reduction, the little-endian bytes of the limbs, one after the
/// other, are the data, followed by zeros. So every byte of the data enters a limb.
pub proof fn law_limbs_spell_the_data(data: Seq<u8>, i: int)
    requires
        0 <= i < byte_limbs(data).len(),
    ensures
        8 * byte_limbs(data).len() >= data.len(),
        8 * byte_limbs(data).len() < data.len() + 8,
        limb_word(data, i) <= u64::MAX,
        byte_limbs(data)[i] == limb_word(data, i) as int % field::p(),
        forall|k: int|
            0 <= k < 8 ==> #[trigger] encoding::le_bytes(limb_word(data, i), 8)[k] == if 8 * i + k
                < data.len() {
                data[8 * i + k]
            } else {
                0u8
            },
{
    let end = if 8 * i + 8 <= data.len() {
        8 * i + 8
    } else {
        data.len() as int
    };
    let part = data.subrange(8 * i, end);
    encoding::law_bytes_spell_their_number(part, 8);
    encoding::lemma_le_value_u64(part);
}

/// Data of one length with the same limbs before reduction is the same.
pub proof fn law_limb_words_are_injective(a: Seq<u8>, b: Seq<u8>)
    requires
        a.len() == b.len(),
        forall|i: int|
            0 <= i < byte_limbs(a).len() ==> #[trigger] limb_word(a, i) == limb_word(b, i),
    ensures
        a == b,
{
    assert forall|j: int| 0 <= j < a.len() implies a[j] == b[j] by {
        let i = j / 8;
        law_limbs_spell_the_data(a, i);
        law_limbs_spell_the_data(b, i);
        assert(limb_word(a, i) == limb_word(b, i));
        assert(encoding::le_bytes(limb_word(a, i), 8)[j - 8 * i] == a[j]);
        assert(encoding::le_bytes(limb_word(b, i), 8)[j - 8 * i] == b[j]);
    }
    assert(a =~= b);
}

/// The hash of bytes belongs to one hash of their limbs, unless the digests of what is hashed
/// collide.
pub proof fn law_byte_hashes_bind_the_limb_hash(a: Seq<u8>, b: Seq<u8>)
    requires
        byte_hash(a) == byte_hash(b),
    ensures
        ({
            let x = hash_of(byte_limbs(a), default_parameters());
            let y = hash_of(byte_limbs(b), default_parameters());
            x == y || hash::collides(
                encoding::le_bytes(x as nat, 8),
                encoding::le_bytes(y as nat, 8),
            )
        }),
{
    encoding::law_le_u64_injective(
        hash_of(byte_limbs(a), default_parameters()),
        hash_of(byte_limbs(b), default_parameters()),
    );
}

/// The number of values stands in the capacity before anything is absorbed, so that inputs of
/// different lengths start from different states.
pub proof fn law_lengths_start_apart(m: nat, n: nat, c: PoseidonConfig)
    requires
        m <= u64::MAX,
        n <= u64::MAX,
        c.width >= 1,
    ensures
        initial_state(n, c).len() == c.width,
        initial_state(n, c)[0] == n,
        forall|i: int| 1 <= i < c.width ==> #[trigger] initial_state(n, c)[i] == 0,
        initial_state(m, c) == initial_state(n, c) <==> m == n,
{
    assert(initial_state(m, c)[0] == m);
}

/// Absorbing a block adds each of its values to one element beside the capacity and changes no
/// other, so that different blocks of field elements leave different states.
pub proof fn law_blocks_enter_the_state(s: Seq<u64>, a: Seq<u64>, b: Seq<u64>)
    requires
        a.len() == b.len(),
        a.len() < s.len(),
        forall|i: int| 0 <= i < a.len() ==> (#[trigger] a[i]) < field::p() && b[i] < field::p(),
    ensures
        block_added(s, a).len() == s.len(),
        block_added(s, a)[0] == s[0],
        forall|i: int|
            0 <= i < a.len() ==> field::congruent(
                block_added(s, a)[i + 1] as int,
                s[i + 1] + #[trigger] a[i],
            ),
        forall|i: int| a.len() < i < s.len() ==> #[trigger] block_added(s, a)[i] == s[i],
        block_added(s, a) == block_added(s, b) <==> a == b,
{
    assert forall|i: int| 0 <= i < a.len() implies field::congruent(
        block_added(s, a)[i + 1] as int,
        s[i + 1] + #[trigger] a[i],
    ) by {
        field::lemma_congruent_mod(s[i + 1] + a[i]);
    }
    if block_added(s, a) == block_added(s, b) {
        assert forall|i: int| 0 <= i < a.len() implies a[i] == b[i] by {
            let x = s[i + 1] as int;
            assert(block_added(s, a)[i + 1] == block_added(s, b)[i + 1]);
            assert((x + a[i]) % field::p() == (x + b[i]) % field::p());
            assert(a[i] < field::p() && b[i] < field::p());
            field::lemma_congruent_add(x + a[i], x + b[i], x, x);
            assert((a[i] as int) % field::p() == (b[i] as int) % field::p());
        }
        assert(a =~= b);
    }
}

/// Values are absorbed block by block: a full block first, and then the rest.
pub proof fn law_absorption_goes_block_by_block(
    s: Seq<u64>,
    block: Seq<u64>,
    rest: Seq<u64>,
    c: PoseidonConfig,
)
    requires
        c.width >= 2,
        block.len() == c.width - 1,
    ensures
        all_absorbed(s, Seq::empty(), c) == s,
        all_absorbed(s, block + rest, c) == all_absorbed(all_absorbed(s, block, c), rest, c),
        all_absorbed(s, block, c) == permuted(block_added(s, block), c),
{
    let rate = c.width - 1;
    if rest.len() == 0 {
        assert(block + rest =~= block);
    } else {
        assert((block + rest).subrange(0, rate) =~= block);
        assert((block + rest).subrange(rate, (block + rest).len() as int) =~= rest);
    }
}

/// A block that is not full is absorbed like any other: its values are added and the state is
/// permuted.
pub proof fn law_partial_blocks_are_absorbed(s: Seq<u64>, block: Seq<u64>, c: PoseidonConfig)
    requires
        0 < block.len() <= c.width - 1,
    ensures
        all_absorbed(s, block, c) == permuted(block_added(s, block), c),
{
}

/// Fewer squeezed values are the first of more.
pub proof fn law_squeezing_extends(s: Seq<u64>, short: nat, long: nat, c: PoseidonConfig)
    requires
        c.width >= 2,
        s.len() == c.width,
        short <= long,
    ensures
        squeezed(s, long, c).len() == long,
        squeezed(s, long, c).take(short as int) == squeezed(s, short, c),
    decreases long,
{
    let rate = (c.width - 1) as nat;
    if long <= rate {
        assert(squeezed(s, long, c).take(short as int) =~= squeezed(s, short, c));
    } else {
        let next = permuted(s, c);
        lemma_rounds_len(s, c, (c.full_rounds + c.partial_rounds) as nat);
        let rest = (long - rate) as nat;
        let head = s.subrange(1, 1 + rate as int);
        if short <= rate {
            law_squeezing_extends(next, 0, rest, c);
            assert(squeezed(s, long, c).take(short as int) =~= squeezed(s, short, c));
        } else {
            law_squeezing_extends(next, (short - rate) as nat, rest, c);
            assert((head + squeezed(next, rest, c)).take(short as int) =~= head + squeezed(
                next,
                rest,
                c,
            ).take(short - rate));
        }
    }
}

// ---------------------------------------------------------------------------
// What a round does
// ---------------------------------------------------------------------------

/// Different round constants are hashed from different labels.
pub proof fn law_round_constants_are_separate(i: nat, j: nat)
    ensures
        constant_label(i) == constant_label(j) <==> i == j,
{
    let label = "ARC_POSEIDON_RC_"@;
    encoding::law_text_bytes_injective(
        label + encoding::decimal(i),
        label + encoding::decimal(j),
    );
    if label + encoding::decimal(i) == label + encoding::decimal(j) {
        encoding::lemma_split(label, encoding::decimal(i), label, encoding::decimal(j));
    }
    encoding::law_decimal_injective(i, j);
}

/// Every element of every round has a constant of its own, which is added to it; no element beyond
/// the width changes.
pub proof fn law_rounds_add_their_own_constants(
    s: Seq<u64>,
    t: nat,
    r: nat,
    i: int,
    q: nat,
    j: int,
)
    requires
        0 <= i < t,
        0 <= j < t,
        t <= s.len(),
    ensures
        constants_added(s, t, r).len() == s.len(),
        field::congruent(
            constants_added(s, t, r)[i] as int,
            s[i] + round_constant((r * t + i) as nat),
        ),
        r * t + i == q * t + j <==> r == q && i == j,
        forall|k: int| t <= k < s.len() ==> #[trigger] constants_added(s, t, r)[k] == s[k],
{
    field::lemma_congruent_mod(s[i] + round_constant((r * t + i) as nat));
    lemma_fundamental_div_mod_converse(r * t + i, t as int, r as int, i);
    lemma_fundamental_div_mod_converse(q * t + j, t as int, q as int, j);
}

/// The number of full rounds among the first `n`.
pub open spec fn full_rounds_in(c: PoseidonConfig, n: nat) -> nat
    decreases n,
{
    if n == 0 {
        0
    } else {
        full_rounds_in(c, (n - 1) as nat) + if is_full_round(c, (n - 1) as nat) {
            1nat
        } else {
            0nat
        }
    }
}

proof fn lemma_full_rounds_in(c: PoseidonConfig, n: nat)
    ensures
        full_rounds_in(c, n) == if n <= c.full_rounds / 2 {
            n as int
        } else if n <= c.full_rounds / 2 + c.partial_rounds {
            c.full_rounds as int / 2
        } else {
            n - c.partial_rounds
        },
    decreases n,
{
    if n > 0 {
        lemma_full_rounds_in(c, (n - 1) as nat);
    }
}

/// Of all rounds, as many are full as the parameters say, one half of them before the partial ones
/// and the other after.
pub proof fn law_full_rounds_surround_partial_rounds(c: PoseidonConfig, r: nat)
    ensures
        full_rounds_in(c, (c.full_rounds + c.partial_rounds) as nat) == c.full_rounds,
        r < c.full_rounds / 2 ==> is_full_round(c, r),
        c.full_rounds / 2 <= r < c.full_rounds / 2 + c.partial_rounds ==> !is_full_round(c, r),
        r >= c.full_rounds / 2 + c.partial_rounds ==> is_full_round(c, r),
{
    lemma_full_rounds_in(c, (c.full_rounds + c.partial_rounds) as nat);
}

/// A full round raises every element of the width to the power of the parameters, a partial round
/// the first alone.
pub proof fn law_rounds_raise_to_a_power(s: Seq<u64>, c: PoseidonConfig, r: nat, i: int)
    requires
        0 <= i < s.len(),
        i < c.width,
    ensures
        boxed(s, c, r).len() == s.len(),
        i == 0 || is_full_round(c, r) ==> field::congruent(
            boxed(s, c, r)[i] as int,
            pow(s[i] as int, c.alpha as nat),
        ),
        i > 0 && !is_full_round(c, r) ==> boxed(s, c, r)[i] == s[i],
{
    field::lemma_congruent_mod(pow(s[i] as int, c.alpha as nat));
}

proof fn lemma_row_sum_adds(s: Seq<u64>, u: Seq<u64>, w: Seq<u64>, t: nat, i: int, n: nat)
    requires
        n <= s.len(),
        n <= u.len(),
        n <= w.len(),
        forall|k: int|
            0 <= k < n ==> field::congruent(#[trigger] w[k] as int, s[k] + u[k]),
    ensures
        field::congruent(row_sum(w, t, i, n), row_sum(s, t, i, n) + row_sum(u, t, i, n)),
    decreases n,
{
    if n > 0 {
        let m = (n - 1) as nat;
        lemma_row_sum_adds(s, u, w, t, i, m);
        let e = matrix_entry(t, i, n - 1);
        let x = s[n - 1] as int;
        let y = u[n - 1] as int;
        let z = w[n - 1] as int;
        field::lemma_congruent_mul(e, e, z, x + y);
        field::lemma_congruent_add(
            row_sum(w, t, i, m),
            row_sum(s, t, i, m) + row_sum(u, t, i, m),
            e * z,
            e * (x + y),
        );
        assert(e * (x + y) == e * x + e * y) by (nonlinear_arith);
    }
}

/// Mixing is linear: the mixture of a sum is the sum of the mixtures.
pub proof fn law_mixing_is_additive(s: Seq<u64>, u: Seq<u64>, w: Seq<u64>, t: nat, i: int)
    requires
        0 <= i < t,
        t <= s.len(),
        s.len() == u.len(),
        s.len() == w.len(),
        forall|k: int| 0 <= k < t ==> field::congruent(#[trigger] w[k] as int, s[k] + u[k]),
    ensures
        field::congruent(mixed(w, t)[i] as int, mixed(s, t)[i] + mixed(u, t)[i]),
{
    lemma_row_sum_adds(s, u, w, t, i, t);
    let x = row_sum(s, t, i, t);
    let y = row_sum(u, t, i, t);
    let z = row_sum(w, t, i, t);
    field::lemma_congruent_mod(x);
    field::lemma_congruent_mod(y);
    field::lemma_congruent_mod(z);
    field::lemma_congruent_add(x % field::p(), x, y % field::p(), y);
}

proof fn lemma_row_sum_of_unit(s: Seq<u64>, t: nat, i: int, j: int, n: nat)
    requires
        n <= s.len(),
        forall|k: int|
            0 <= k < n ==> #[trigger] s[k] == if k == j {
                1u64
            } else {
                0u64
            },
    ensures
        row_sum(s, t, i, n) == if 0 <= j < n {
            matrix_entry(t, i, j)
        } else {
            0
        },
    decreases n,
{
    if n > 0 {
        lemma_row_sum_of_unit(s, t, i, j, (n - 1) as nat);
        let e = matrix_entry(t, i, n - 1);
        assert(s[n - 1] == 1 || s[n - 1] == 0);
        assert(e * 1 == e && e * 0 == 0);
    }
}

/// Mixing a state whose only nonzero element is a one gives the column of the matrix at its place:
/// so every element enters every element of the mixture.
pub proof fn law_mixing_of_units_is_the_matrix(s: Seq<u64>, t: nat, i: int, j: int)
    requires
        0 <= i < t,
        0 <= j < t,
        t <= s.len(),
        forall|k: int|
            0 <= k < t ==> #[trigger] s[k] == if k == j {
                1u64
            } else {
                0u64
            },
    ensures
        mixed(s, t).len() == s.len(),
        field::congruent(mixed(s, t)[i] as int, matrix_entry(t, i, j)),
        forall|k: int| t <= k < s.len() ==> #[trigger] mixed(s, t)[k] == s[k],
{
    lemma_row_sum_of_unit(s, t, i, j, t);
    field::lemma_congruent_mod(row_sum(s, t, i, t));
}

/// A round adds its constants, raises to the power and mixes, in this order; a permutation is all
/// rounds, one after the other.
pub proof fn law_rounds_follow_one_another(s: Seq<u64>, c: PoseidonConfig, n: nat)
    ensures
        rounds_applied(s, c, 0) == s,
        rounds_applied(s, c, n + 1) == mixed(
            boxed(constants_added(rounds_applied(s, c, n), c.width as nat, n), c, n),
            c.width as nat,
        ),
        permuted(s, c) == rounds_applied(s, c, (c.full_rounds + c.partial_rounds) as nat),
{
}

/// Ending absorption adds the number of absorbed values to the capacity, the waiting values and then
/// a one to the other elements, and changes nothing else: so inputs that differ in their number, in
/// what waits or in where it ends are closed differently.
pub proof fn law_absorption_is_closed(s: Seq<u64>, buffer: Seq<u64>, count: nat, i: int)
    requires
        buffer.len() + 1 < s.len(),
        1 <= i < s.len(),
    ensures
        closed_state(s, buffer, count).len() == s.len(),
        field::congruent(closed_state(s, buffer, count)[0] as int, s[0] + count),
        i <= buffer.len() ==> field::congruent(
            closed_state(s, buffer, count)[i] as int,
            s[i] + buffer[i - 1],
        ),
        i == buffer.len() + 1 ==> field::congruent(
            closed_state(s, buffer, count)[i] as int,
            s[i] + 1,
        ),
        i > buffer.len() + 1 ==> closed_state(s, buffer, count)[i] == s[i],
{
    field::lemma_congruent_mod(s[0] + count);
    if i <= buffer.len() {
        field::lemma_congruent_mod(s[i] + buffer[i - 1]);
    } else {
        field::lemma_congruent_mod(s[i] + 1);
    }
}

/// A sponge that has absorbed squeezes from the permutation of its closed state.
pub proof fn law_squeezing_starts_from_the_closed_state(sponge: PoseidonSponge)
    requires
        !sponge.is_squeezing(),
    ensures
        sponge.final_words() == permuted(
            closed_state(sponge.words(), sponge.buffer(), sponge.count()),
            sponge.parameters(),
        ),
{
}

/// Values are squeezed from the elements beside the capacity, and the state is permuted whenever all
/// of them are used up.
pub proof fn law_squeezing_goes_block_by_block(s: Seq<u64>, n: nat, m: nat, c: PoseidonConfig)
    requires
        c.width >= 2,
        s.len() == c.width,
        n <= c.width - 1,
        m > 0,
    ensures
        ({
            let rate = (c.width - 1) as nat;
            &&& squeezed(s, n, c).len() == n
            &&& forall|i: int| 0 <= i < n ==> #[trigger] squeezed(s, n, c)[i] == s[i + 1]
            &&& after_squeeze(s, n, c) == s
            &&& squeezed(s, rate + m, c) == squeezed(s, rate, c) + squeezed(permuted(s, c), m, c)
            &&& after_squeeze(s, rate + m, c) == after_squeeze(permuted(s, c), m, c)
        }),
{
}

/// A sponge absorbs a full block as hashing does, by adding it and permuting, and keeps what is less
/// than a block for later.
pub proof fn law_sponges_absorb_like_hashes(
    s: Seq<u64>,
    block: Seq<u64>,
    rest: Seq<u64>,
    c: PoseidonConfig,
)
    requires
        c.width >= 2,
        block.len() == c.width - 1,
    ensures
        drained(s, block + rest, c) == drained(all_absorbed(s, block, c), rest, c),
        rest.len() < c.width - 1 ==> drained(s, rest, c) == (s, rest),
{
    let rate = c.width - 1;
    assert((block + rest).subrange(0, rate) =~= block);
    assert((block + rest).subrange(rate, (block + rest).len() as int) =~= rest);
}

/// A hash absorbs all values into the state that starts with their number, and is the element after
/// the capacity; without values, the starting state is permuted alone.
pub proof fn law_hashes_absorb_every_value(inputs: Seq<u64>, c: PoseidonConfig)
    ensures
        inputs.len() > 0 ==> hash_of(inputs, c) == all_absorbed(
            initial_state(inputs.len(), c),
            inputs,
            c,
        )[1],
        hash_of(Seq::empty(), c) == permuted(initial_state(0, c), c)[1],
{
}

/// A round constant is the field element of the first eight bytes of the hash of its label.
pub proof fn law_round_constants_come_from_hashes(i: nat)
    ensures
        round_constant(i) == encoding::le_value(
            hash::blake3_digest(
                encoding::text_bytes("ARC_POSEIDON_RC_"@ + encoding::decimal(i)),
            ).subrange(0, 8),
        ) as int % field::p(),
        0 <= round_constant(i) < field::p(),
{
}

/// The denominators of the matrix are the sums of two lists of consecutive numbers, from one and from
/// one above the width: so those of one row or one column all differ.
pub proof fn law_matrix_denominators(t: nat, i: int, j: int)
    requires
        0 <= i < t,
        0 <= j < t,
        2 * t < field::p(),
    ensures
        cauchy_sum(t, i, j) == (i + 1) + (t + j + 1),
{
}

/// The default parameters: three elements, eight full and fifty-seven partial rounds, fifth powers.
pub proof fn law_default_parameters()
    ensures
        default_parameters().width == 3,
        default_parameters().full_rounds == 8,
        default_parameters().partial_rounds == 57,
        default_parameters().alpha == 5,
{
}

} // verus!
