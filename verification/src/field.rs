//! Arithmetic modulo the Mersenne prime 2^61 - 1.
//!
//! The theory rests on one certificate: 37 generates the residues that are not zero. From it
//! follow Fermat's little theorem, inverses, and the absence of zero divisors.

use vstd::prelude::*;
use vstd::arithmetic::div_mod::*;
use vstd::arithmetic::mul::*;
use vstd::arithmetic::power::*;
use vstd::set_lib::*;

use crate::field_certificate;

verus! {

/// The Mersenne prime p = 2^61 - 1.
pub const MERSENNE_P: u64 = 2305843009213693951;

/// The modulus as a mathematical integer.
pub open spec fn p() -> int {
    2305843009213693951
}

/// Equality modulo p.
pub open spec fn congruent(a: int, b: int) -> bool {
    a % p() == b % p()
}

// ---------------------------------------------------------------------------
// Congruences
// ---------------------------------------------------------------------------

pub proof fn lemma_congruent_mul(a: int, b: int, c: int, d: int)
    requires
        congruent(a, b),
        congruent(c, d),
    ensures
        congruent(a * c, b * d),
{
    lemma_mul_mod_noop_general(a, c, p());
    lemma_mul_mod_noop_general(b, d, p());
}

pub proof fn lemma_congruent_add(a: int, b: int, c: int, d: int)
    requires
        congruent(a, b),
        congruent(c, d),
    ensures
        congruent(a + c, b + d),
        congruent(a - c, b - d),
{
    lemma_add_mod_noop(a, c, p());
    lemma_add_mod_noop(b, d, p());
    lemma_sub_mod_noop(a, c, p());
    lemma_sub_mod_noop(b, d, p());
}

pub proof fn lemma_congruent_pow(a: int, b: int, e: nat)
    requires
        congruent(a, b),
    ensures
        congruent(pow(a, e), pow(b, e)),
{
    lemma_pow_mod_noop(a, e, p());
    lemma_pow_mod_noop(b, e, p());
}

pub proof fn lemma_congruent_mod(a: int)
    ensures
        congruent(a % p(), a),
{
}

// ---------------------------------------------------------------------------
// Powers modulo p
// ---------------------------------------------------------------------------

/// A power modulo p, by repeated squaring.
#[verifier::opaque]
pub open spec fn pow_mod(b: int, e: nat) -> int
    decreases e,
{
    if e == 0 {
        1
    } else {
        let h = pow_mod(b, e / 2);
        if e % 2 == 0 {
            (h * h) % p()
        } else {
            (((h * h) % p()) * b) % p()
        }
    }
}

pub proof fn lemma_pow_mod_is_pow(b: int, e: nat)
    ensures
        pow_mod(b, e) == pow(b, e) % p(),
    decreases e,
{
    reveal(pow_mod);
    if e == 0 {
        lemma_pow0(b);
    } else {
        let half = e / 2;
        let h = pow_mod(b, half);
        lemma_pow_mod_is_pow(b, half);
        lemma_pow_adds(b, half, half);
        lemma_congruent_mul(h, pow(b, half), h, pow(b, half));
        if e % 2 == 1 {
            lemma_pow_adds(b, (2 * half) as nat, 1);
            lemma_pow1(b);
            lemma_congruent_mul((h * h) % p(), pow(b, (2 * half) as nat), b, b);
        }
    }
}

// ---------------------------------------------------------------------------
// Divisibility
// ---------------------------------------------------------------------------

/// The greatest common divisor, by Euclid's algorithm.
pub open spec fn gcd(a: nat, b: nat) -> nat
    decreases b,
{
    if b == 0 {
        a
    } else {
        gcd(b, a % b)
    }
}

proof fn lemma_divides_linear(g: int, x: int, c: int, y: int)
    requires
        g > 0,
        x % g == 0,
        y % g == 0,
    ensures
        (x * c + y) % g == 0,
{
    let u = x / g;
    let v = y / g;
    lemma_fundamental_div_mod(x, g);
    lemma_fundamental_div_mod(y, g);
    assert(x * c + y == (u * c + v) * g) by (nonlinear_arith)
        requires
            x == g * u,
            y == g * v,
    ;
    lemma_mod_multiples_basic(u * c + v, g);
}

proof fn lemma_gcd_divides(a: nat, b: nat)
    requires
        a > 0 || b > 0,
    ensures
        gcd(a, b) > 0,
        a % gcd(a, b) == 0,
        b % gcd(a, b) == 0,
    decreases b,
{
    if b == 0 {
        lemma_mod_self_0(a as int);
    } else {
        let g = gcd(b, a % b);
        lemma_gcd_divides(b, a % b);
        lemma_divides_linear(g as int, b as int, (a / b) as int, (a % b) as int);
        lemma_fundamental_div_mod(a as int, b as int);
    }
}

proof fn lemma_bezout(a: nat, b: nat) -> (r: (int, int))
    ensures
        r.0 * a + r.1 * b == gcd(a, b),
    decreases b,
{
    if b == 0 {
        (1, 0)
    } else {
        let (s, t) = lemma_bezout(b, a % b);
        let q = (a / b) as int;
        let m = (a % b) as int;
        lemma_fundamental_div_mod(a as int, b as int);
        assert(t * a + (s - t * q) * b == s * b + t * m) by (nonlinear_arith)
            requires
                a as int == b * q + m,
        ;
        (t, s - t * q)
    }
}

/// A number above one whose only divisors are one and itself.
pub open spec fn is_prime(q: int) -> bool {
    &&& q > 1
    &&& forall|d: int| 1 < d < q ==> #[trigger] (q % d) != 0
}

/// No number from 2 up to `v` divides `q`.
spec fn undivided_up_to(q: int, v: int) -> bool
    decreases v,
{
    v < 2 || (q % v != 0 && undivided_up_to(q, v - 1))
}

proof fn lemma_undivided(q: int, v: int, d: int)
    requires
        undivided_up_to(q, v),
        2 <= d <= v,
    ensures
        q % d != 0,
    decreases v,
{
    if d < v {
        lemma_undivided(q, v - 1, d);
    }
}

proof fn lemma_is_prime(q: int, v: int)
    requires
        q > 1,
        v >= 1,
        undivided_up_to(q, v),
        (v + 1) * (v + 1) > q,
    ensures
        is_prime(q),
{
    assert forall|d: int| 1 < d < q implies #[trigger] (q % d) != 0 by {
        if q % d == 0 {
            let c = q / d;
            lemma_fundamental_div_mod(q, d);
            if d <= v {
                lemma_undivided(q, v, d);
            } else {
                assert(c <= v) by (nonlinear_arith)
                    requires
                        q == d * c,
                        d >= v + 1,
                        (v + 1) * (v + 1) > q,
                        v >= 1,
                ;
                assert(c >= 2) by (nonlinear_arith)
                    requires
                        q == d * c,
                        1 < d < q,
                ;
                lemma_mod_multiples_basic(d, c);
                lemma_undivided(q, v, c);
            }
        }
    }
}

proof fn lemma_331()
    ensures
        undivided_up_to(331, 18),
{
    assert(undivided_up_to(331, 1));
    assert(undivided_up_to(331, 2));
    assert(undivided_up_to(331, 3));
    assert(undivided_up_to(331, 4));
    assert(undivided_up_to(331, 5));
    assert(undivided_up_to(331, 6));
    assert(undivided_up_to(331, 7));
    assert(undivided_up_to(331, 8));
    assert(undivided_up_to(331, 9));
    assert(undivided_up_to(331, 10));
    assert(undivided_up_to(331, 11));
    assert(undivided_up_to(331, 12));
    assert(undivided_up_to(331, 13));
    assert(undivided_up_to(331, 14));
    assert(undivided_up_to(331, 15));
    assert(undivided_up_to(331, 16));
    assert(undivided_up_to(331, 17));
    assert(undivided_up_to(331, 18));
}

proof fn lemma_1321()
    ensures
        undivided_up_to(1321, 36),
{
    assert(undivided_up_to(1321, 1));
    assert(undivided_up_to(1321, 2));
    assert(undivided_up_to(1321, 3));
    assert(undivided_up_to(1321, 4));
    assert(undivided_up_to(1321, 5));
    assert(undivided_up_to(1321, 6));
    assert(undivided_up_to(1321, 7));
    assert(undivided_up_to(1321, 8));
    assert(undivided_up_to(1321, 9));
    assert(undivided_up_to(1321, 10));
    assert(undivided_up_to(1321, 11));
    assert(undivided_up_to(1321, 12));
    assert(undivided_up_to(1321, 13));
    assert(undivided_up_to(1321, 14));
    assert(undivided_up_to(1321, 15));
    assert(undivided_up_to(1321, 16));
    assert(undivided_up_to(1321, 17));
    assert(undivided_up_to(1321, 18));
    assert(undivided_up_to(1321, 19));
    assert(undivided_up_to(1321, 20));
    assert(undivided_up_to(1321, 21));
    assert(undivided_up_to(1321, 22));
    assert(undivided_up_to(1321, 23));
    assert(undivided_up_to(1321, 24));
    assert(undivided_up_to(1321, 25));
    assert(undivided_up_to(1321, 26));
    assert(undivided_up_to(1321, 27));
    assert(undivided_up_to(1321, 28));
    assert(undivided_up_to(1321, 29));
    assert(undivided_up_to(1321, 30));
    assert(undivided_up_to(1321, 31));
    assert(undivided_up_to(1321, 32));
    assert(undivided_up_to(1321, 33));
    assert(undivided_up_to(1321, 34));
    assert(undivided_up_to(1321, 35));
    assert(undivided_up_to(1321, 36));
}

proof fn lemma_factors_are_prime()
    ensures
        is_prime(2),
        is_prime(3),
        is_prime(5),
        is_prime(7),
        is_prime(11),
        is_prime(13),
        is_prime(31),
        is_prime(41),
        is_prime(61),
        is_prime(151),
        is_prime(331),
        is_prime(1321),
{
    reveal_with_fuel(undivided_up_to, 14);
    lemma_is_prime(2, 1);
    lemma_is_prime(3, 1);
    lemma_is_prime(5, 2);
    lemma_is_prime(7, 2);
    lemma_is_prime(11, 3);
    lemma_is_prime(13, 3);
    lemma_is_prime(31, 5);
    lemma_is_prime(41, 6);
    lemma_is_prime(61, 7);
    lemma_is_prime(151, 12);
    lemma_331();
    lemma_is_prime(331, 18);
    lemma_1321();
    lemma_is_prime(1321, 36);
}

/// A divisor of `q * m` that the prime `q` does not divide is a divisor of `m`.
proof fn lemma_strip_prime(k: nat, q: nat, m: nat)
    requires
        k > 0,
        is_prime(q as int),
        (q * m) % k == 0,
        k % q != 0,
    ensures
        m % k == 0,
{
    let g = gcd(k, q);
    lemma_gcd_divides(k, q);
    if g != 1 {
        if g > q {
            lemma_small_mod(q, g);
        }
        assert(g == q);
        assert(false);
    }
    let (x, y) = lemma_bezout(k, q);
    assert(m == (k * (x * m)) + (q * m) * y) by (nonlinear_arith)
        requires
            x * k + y * q == 1,
    ;
    assert(k as int % k as int == 0) by {
        lemma_mod_self_0(k as int);
    }
    lemma_divides_linear(k as int, (q * m) as int, y, 0);
    lemma_small_mod(0, k);
    lemma_divides_linear(k as int, k as int, x * m, (q * m) * y);
}

/// Every divisor of p - 1 but one is divided by a prime factor of p - 1.
proof fn lemma_divisor_has_factor(k: nat)
    requires
        k > 1,
        2305843009213693950nat % k == 0,
    ensures
        k % 2 == 0 || k % 3 == 0 || k % 5 == 0 || k % 7 == 0 || k % 11 == 0 || k % 13 == 0 || k % 31
            == 0 || k % 41 == 0 || k % 61 == 0 || k % 151 == 0 || k % 331 == 0 || k % 1321 == 0,
{
    lemma_factors_are_prime();
    if !(k % 2 == 0 || k % 3 == 0 || k % 5 == 0 || k % 7 == 0 || k % 11 == 0 || k % 13 == 0 || k
        % 31 == 0 || k % 41 == 0 || k % 61 == 0 || k % 151 == 0 || k % 331 == 0 || k % 1321 == 0) {
        lemma_strip_prime(k, 2, 1152921504606846975);
        lemma_strip_prime(k, 3, 384307168202282325);
        lemma_strip_prime(k, 3, 128102389400760775);
        lemma_strip_prime(k, 5, 25620477880152155);
        lemma_strip_prime(k, 5, 5124095576030431);
        lemma_strip_prime(k, 7, 732013653718633);
        lemma_strip_prime(k, 11, 66546695792603);
        lemma_strip_prime(k, 13, 5118976599431);
        lemma_strip_prime(k, 31, 165128277401);
        lemma_strip_prime(k, 41, 4027518961);
        lemma_strip_prime(k, 61, 66024901);
        lemma_strip_prime(k, 151, 437251);
        lemma_strip_prime(k, 331, 1321);
        lemma_strip_prime(k, 1321, 1);
        lemma_small_mod(1, k);
        assert(false);
    }
}

// ---------------------------------------------------------------------------
// The generator
// ---------------------------------------------------------------------------

proof fn lemma_power_of_one(x: int, e: nat)
    requires
        congruent(x, 1),
    ensures
        congruent(pow(x, e), 1),
{
    lemma_congruent_pow(x, 1, e);
    lemma1_pow(e);
}

proof fn lemma_pow_gcd(g: int, a: nat, b: nat)
    requires
        congruent(pow(g, a), 1),
        congruent(pow(g, b), 1),
    ensures
        congruent(pow(g, gcd(a, b)), 1),
    decreases b,
{
    if b > 0 {
        let q = a / b;
        let r = a % b;
        lemma_fundamental_div_mod(a as int, b as int);
        lemma_pow_multiplies(g, b, q);
        lemma_power_of_one(pow(g, b), q);
        lemma_pow_adds(g, b * q, r);
        lemma_congruent_mul(pow(g, b * q), 1, pow(g, r), pow(g, r));
        lemma_pow_gcd(g, b, r);
    }
}

/// Where `m` and `q` divide p - 1 so that `q` divides (p - 1) / m, an `m`-th power that is one
/// makes the (p - 1) / q-th power one.
proof fn lemma_refuted_by(m: nat, k: nat, q: nat, e: nat)
    requires
        m * k == p() - 1,
        q > 0,
        k % q == 0,
        e * q == p() - 1,
        congruent(pow(37, m), 1),
    ensures
        pow_mod(37, e) == 1,
{
    let c = k / q;
    lemma_fundamental_div_mod(k as int, q as int);
    assert(e == m * c) by (nonlinear_arith)
        requires
            m * k == e * q,
            k == q * c,
            q > 0,
    ;
    lemma_pow_multiplies(37, m, c);
    lemma_power_of_one(pow(37, m), c);
    lemma_pow_mod_is_pow(37, e);
}

/// No power of 37 below the (p - 1)-th, save the zeroth, is one.
proof fn lemma_generator_order(d: nat)
    requires
        0 < d < p() - 1,
    ensures
        !congruent(pow(37, d), 1),
{
    if congruent(pow(37, d), 1) {
        let n: nat = 2305843009213693950;
        field_certificate::lemma_generator_certificate();
        lemma_pow_mod_is_pow(37, n);
        lemma_pow_gcd(37, d, n);
        let m = gcd(d, n);
        lemma_gcd_divides(d, n);
        if m > d {
            lemma_small_mod(d, m);
        }
        let k = n / m;
        lemma_fundamental_div_mod(n as int, m as int);
        assert(k > 1) by (nonlinear_arith)
            requires
                n == m * k,
                m < n,
        ;
        assert(m * k == n);
        lemma_mod_multiples_basic(m as int, k as int);
        lemma_divisor_has_factor(k);
        if k % 2 == 0 {
            lemma_refuted_by(m, k, 2, 1152921504606846975);
        } else if k % 3 == 0 {
            lemma_refuted_by(m, k, 3, 768614336404564650);
        } else if k % 5 == 0 {
            lemma_refuted_by(m, k, 5, 461168601842738790);
        } else if k % 7 == 0 {
            lemma_refuted_by(m, k, 7, 329406144173384850);
        } else if k % 11 == 0 {
            lemma_refuted_by(m, k, 11, 209622091746699450);
        } else if k % 13 == 0 {
            lemma_refuted_by(m, k, 13, 177372539170284150);
        } else if k % 31 == 0 {
            lemma_refuted_by(m, k, 31, 74382032555280450);
        } else if k % 41 == 0 {
            lemma_refuted_by(m, k, 41, 56240073395455950);
        } else if k % 61 == 0 {
            lemma_refuted_by(m, k, 61, 37800705069076950);
        } else if k % 151 == 0 {
            lemma_refuted_by(m, k, 151, 15270483504726450);
        } else if k % 331 == 0 {
            lemma_refuted_by(m, k, 331, 6966293079195450);
        } else {
            lemma_refuted_by(m, k, 1321, 1745528394559950);
        }
    }
}

proof fn lemma_generator_cycle()
    ensures
        congruent(pow(37, 2305843009213693950), 1),
{
    field_certificate::lemma_generator_certificate();
    lemma_pow_mod_is_pow(37, 2305843009213693950);
}

/// Every residue but zero is a power of 37.
proof fn lemma_generated(a: int) -> (k: nat)
    requires
        0 < a < p(),
    ensures
        pow(37, k) % p() == a,
{
    let n: nat = 2305843009213693950;
    let f = |k: int| pow(37, k as nat) % p();
    let x = set_int_range(0, n as int);
    let y = x.map(f);
    let residues = set_int_range(1, p());
    lemma_int_range(0, n as int);
    lemma_int_range(1, p());
    lemma_generator_cycle();
    assert forall|k: int| x.contains(k) implies residues.contains(#[trigger] f(k)) by {
        lemma_pow_adds(37, k as nat, (n - k) as nat);
        if pow(37, k as nat) % p() == 0 {
            lemma_congruent_mul(
                pow(37, k as nat),
                0,
                pow(37, (n - k) as nat),
                pow(37, (n - k) as nat),
            );
        }
    }
    assert forall|i: int, j: int|
        x.contains(i) && x.contains(j) && #[trigger] f(i) == #[trigger] f(j) implies i == j by {
        if i < j {
            lemma_distinct_powers(i as nat, j as nat);
        } else if j < i {
            lemma_distinct_powers(j as nat, i as nat);
        }
    }
    assert(y.subset_of(residues));
    lemma_map_size(x, y, f);
    lemma_subset_equality(y, residues);
    assert(residues.contains(a));
    assert(y.contains(a));
    let k = choose|k: int| x.contains(k) && a == f(k);
    k as nat
}

proof fn lemma_distinct_powers(i: nat, j: nat)
    requires
        i < j < p() - 1,
    ensures
        !congruent(pow(37, i), pow(37, j)),
{
    if congruent(pow(37, i), pow(37, j)) {
        let n: nat = 2305843009213693950;
        let c = (n - i) as nat;
        let d = (j - i) as nat;
        lemma_generator_cycle();
        lemma_pow_adds(37, c, i);
        lemma_pow_adds(37, c, j);
        lemma_pow_adds(37, n, d);
        lemma_congruent_mul(pow(37, c), pow(37, c), pow(37, i), pow(37, j));
        lemma_congruent_mul(pow(37, n), 1, pow(37, d), pow(37, d));
        lemma_generator_order(d);
    }
}

// ---------------------------------------------------------------------------
// The field laws
// ---------------------------------------------------------------------------

/// Fermat's little theorem for p.
pub proof fn lemma_fermat(a: int)
    requires
        a % p() != 0,
    ensures
        congruent(pow(a, 2305843009213693950), 1),
{
    let n: nat = 2305843009213693950;
    let k = lemma_generated(a % p());
    lemma_generator_cycle();
    lemma_congruent_pow(pow(37, k), a, n);
    lemma_pow_multiplies(37, k, n);
    lemma_pow_multiplies(37, n, k);
    assert(k * n == n * k) by (nonlinear_arith);
    lemma_power_of_one(pow(37, n), k);
}

/// A representative of the inverse of a residue that is not zero.
pub open spec fn inverse(a: int) -> int {
    pow(a, 2305843009213693949)
}

/// A number that p does not divide, times its inverse, is one.
pub proof fn lemma_inverse(a: int)
    requires
        a % p() != 0,
    ensures
        congruent(a * inverse(a), 1),
{
    lemma_fermat(a);
    lemma_pow_adds(a, 1, 2305843009213693949);
    lemma_pow1(a);
}

/// Inverses of products are products of inverses.
pub proof fn lemma_inverse_mul(a: int, b: int)
    ensures
        inverse(a * b) == inverse(a) * inverse(b),
{
    lemma_pow_distributes(a, b, 2305843009213693949);
}

/// Where p divides a product it divides a factor.
pub proof fn lemma_no_zero_divisors(a: int, b: int)
    requires
        (a * b) % p() == 0,
    ensures
        a % p() == 0 || b % p() == 0,
{
    if a % p() != 0 {
        lemma_inverse(a);
        let i = inverse(a);
        lemma_congruent_mul(a * b, 0, i, i);
        lemma_congruent_mul(a * i, 1, b, b);
        assert((a * b) * i == (a * i) * b) by (nonlinear_arith);
        assert(0 * i == 0);
        assert(1 * b == b);
    }
}

/// Factors that p does not divide cancel.
pub proof fn lemma_cancel(a: int, b: int, c: int)
    requires
        a % p() != 0,
        congruent(a * b, a * c),
    ensures
        congruent(b, c),
{
    lemma_sub_mod_noop(a * b, a * c, p());
    assert(a * b - a * c == a * (b - c)) by (nonlinear_arith);
    lemma_no_zero_divisors(a, b - c);
    lemma_congruent_add(b - c, 0, c, c);
}

// ---------------------------------------------------------------------------
// Executable arithmetic
// ---------------------------------------------------------------------------

/// Shifting by 61 and masking are division by and remainder modulo p + 1.
proof fn lemma_fold(x: u128)
    ensures
        (x >> 61) == x / 2305843009213693952,
        (x & 2305843009213693951) == x % 2305843009213693952,
{
    assert((x >> 61) == x / 2305843009213693952) by (bit_vector);
    assert((x & 2305843009213693951) == x % 2305843009213693952) by (bit_vector);
}

/// Adding the quotient by p + 1 to the remainder keeps the residue.
proof fn lemma_fold_keeps_residue(x: int)
    requires
        x >= 0,
    ensures
        congruent(x / 2305843009213693952 + x % 2305843009213693952, x),
{
    let q = x / 2305843009213693952;
    let m = x % 2305843009213693952;
    assert(x == (q + m) + q * p());
    lemma_mod_multiples_vanish(q, q + m, p());
    assert(p() * q + (q + m) == x);
}

/// Reduce a u128 value modulo the Mersenne prime 2^61 - 1.
pub fn mod_mersenne(x: u128) -> (r: u64)
    ensures
        r == x as int % p(),
{
    let m: u128 = MERSENNE_P as u128;
    proof {
        lemma_fold(x);
        lemma_fold_keeps_residue(x as int);
    }
    let mut r: u128 = (x >> 61) + (x & m);
    proof {
        lemma_fold(r);
        lemma_fold_keeps_residue(r as int);
    }
    r = (r >> 61) + (r & m);
    if r >= m {
        r = r - m;
    }
    r as u64
}

/// Addition modulo p.
pub fn field_add(a: u64, b: u64) -> (r: u64)
    ensures
        r == (a + b) % p(),
{
    mod_mersenne((a as u128) + (b as u128))
}

/// Subtraction modulo p, of numbers that are at most p apart.
pub fn field_sub(a: u64, b: u64) -> (r: u64)
    requires
        b <= a + p(),
    ensures
        a < b + p() ==> r == (a - b) % p(),
        a >= b + p() ==> r == a - b - p(),
{
    if a >= b {
        let d: u64 = a - b;
        if d >= MERSENNE_P {
            d - MERSENNE_P
        } else {
            d
        }
    } else {
        mod_mersenne((a as u128) + (MERSENNE_P as u128) - (b as u128))
    }
}

/// Multiplication modulo p.
pub fn field_mul(a: u64, b: u64) -> (r: u64)
    ensures
        r == (a * b) % p(),
{
    proof {
        lemma_u64_product(a, b);
    }
    mod_mersenne((a as u128) * (b as u128))
}

pub proof fn lemma_u64_product(a: u64, b: u64)
    ensures
        0 <= a * b <= 0xffff_ffff_ffff_fffe_0000_0000_0000_0001,
{
    assert(0 <= a * b <= 0xffff_ffff_ffff_ffff * 0xffff_ffff_ffff_ffff) by (nonlinear_arith)
        requires
            0 <= a <= 0xffff_ffff_ffff_ffff,
            0 <= b <= 0xffff_ffff_ffff_ffff,
    ;
}

/// Modular exponentiation (binary method).
pub fn field_pow(base: u64, exp: u64) -> (r: u64)
    ensures
        r == pow(base as int, exp as nat) % p(),
{
    let mut result: u64 = 1;
    let mut b: u64 = mod_mersenne(base as u128);
    let mut e: u64 = exp;
    proof {
        lemma_congruent_pow(b as int, base as int, exp as nat);
        assert(1 * pow(b as int, exp as nat) == pow(b as int, exp as nat));
    }
    while e > 0
        invariant
            result < p(),
            congruent(result * pow(b as int, e as nat), pow(base as int, exp as nat)),
        decreases e,
    {
        let ghost r0 = result as int;
        let ghost b0 = b as int;
        let ghost half = (e / 2) as nat;
        let odd: bool = e % 2 == 1;
        if odd {
            result = field_mul(result, b);
        }
        e = e / 2;
        b = field_mul(b, b);
        proof {
            lemma_pow_multiplies(b0, 2, half);
            lemma_square_is_pow2(b0);
            lemma_congruent_pow(b as int, b0 * b0, half);
            if odd {
                lemma_pow_adds(b0, 1, 2 * half);
                lemma_pow1(b0);
                lemma_congruent_mul(
                    result as int,
                    r0 * b0,
                    pow(b as int, half),
                    pow(b0, 2 * half),
                );
                let t = pow(b0, 2 * half);
                assert((r0 * b0) * t == r0 * (b0 * t)) by (nonlinear_arith);
            } else {
                lemma_congruent_mul(result as int, r0, pow(b as int, half), pow(b0, 2 * half));
            }
        }
    }
    proof {
        lemma_pow0(b as int);
        assert(result * 1 == result);
    }
    result
}

/// Multiplicative inverse modulo p using Fermat's little theorem: a^{-1} = a^{p-2} mod p.
pub fn field_inv(a: u64) -> (r: u64)
    requires
        a != 0,
    ensures
        r == inverse(a as int) % p(),
        a as int % p() != 0 ==> (a * r) % p() == 1,
{
    let r: u64 = field_pow(a, MERSENNE_P - 2);
    proof {
        if a as int % p() != 0 {
            lemma_inverse(a as int);
            lemma_congruent_mul(a as int, a as int, r as int, inverse(a as int));
        }
    }
    r
}

} // verus!
