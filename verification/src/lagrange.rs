//! Polynomials modulo 2^61 - 1 and their interpolation at zero.

use vstd::prelude::*;
use vstd::arithmetic::div_mod::*;
use vstd::arithmetic::power::*;

use crate::field;

verus! {

// ---------------------------------------------------------------------------
// Polynomials over the integers
// ---------------------------------------------------------------------------

/// The value at `x` of the polynomial with coefficients `c`, the constant one first.
pub open spec fn poly(c: Seq<int>, x: int) -> int
    decreases c.len(),
{
    if c.len() == 0 {
        0
    } else {
        c[0] + x * poly(c.drop_first(), x)
    }
}

/// The quotient of a polynomial, less its value at `a`, by `x - a`.
pub open spec fn quotient(c: Seq<int>, a: int) -> Seq<int>
    decreases c.len(),
{
    if c.len() <= 1 {
        Seq::empty()
    } else {
        seq![poly(c.drop_first(), a)] + quotient(c.drop_first(), a)
    }
}

proof fn lemma_quotient(c: Seq<int>, a: int, x: int)
    requires
        c.len() > 0,
    ensures
        quotient(c, a).len() == c.len() - 1,
        poly(c, x) - poly(c, a) == (x - a) * poly(quotient(c, a), x),
    decreases c.len(),
{
    let g = c.drop_first();
    if c.len() == 1 {
        assert(poly(g, x) == 0);
        assert(poly(g, a) == 0);
        assert(poly(quotient(c, a), x) == 0);
        assert(x * 0 == 0 && a * 0 == 0 && (x - a) * 0 == 0) by (nonlinear_arith);
    } else {
        lemma_quotient(g, a, x);
        let q = quotient(c, a);
        assert(q.drop_first() =~= quotient(g, a));
        let gx = poly(g, x);
        let ga = poly(g, a);
        let qg = poly(quotient(g, a), x);
        assert(x * gx - a * ga == (x - a) * (ga + x * qg)) by (nonlinear_arith)
            requires
                gx - ga == (x - a) * qg,
        ;
    }
}

// ---------------------------------------------------------------------------
// Sums and products
// ---------------------------------------------------------------------------

/// The sum of a sequence.
pub open spec fn total(s: Seq<int>) -> int
    decreases s.len(),
{
    if s.len() == 0 {
        0
    } else {
        total(s.drop_last()) + s.last()
    }
}

/// The product of the differences between `a` and the members of `s`.
pub open spec fn vanish(a: int, s: Seq<int>) -> int
    decreases s.len(),
{
    if s.len() == 0 {
        1
    } else {
        vanish(a, s.drop_last()) * (a - s.last())
    }
}

proof fn lemma_total_remove(s: Seq<int>, r: int)
    requires
        0 <= r < s.len(),
    ensures
        total(s) == s[r] + total(s.remove(r)),
    decreases s.len(),
{
    if r == s.len() - 1 {
        assert(s.remove(r) =~= s.drop_last());
    } else {
        lemma_total_remove(s.drop_last(), r);
        assert(s.remove(r).drop_last() =~= s.drop_last().remove(r));
        assert(s.remove(r).last() == s.last());
    }
}

proof fn lemma_vanish_remove(a: int, s: Seq<int>, r: int)
    requires
        0 <= r < s.len(),
    ensures
        vanish(a, s) == (a - s[r]) * vanish(a, s.remove(r)),
    decreases s.len(),
{
    if r == s.len() - 1 {
        assert(s.remove(r) =~= s.drop_last());
        assert(vanish(a, s) == vanish(a, s.drop_last()) * (a - s[r]));
        assert(vanish(a, s.drop_last()) * (a - s[r]) == (a - s[r]) * vanish(a, s.drop_last()))
            by (nonlinear_arith);
    } else {
        let t = s.drop_last();
        lemma_vanish_remove(a, t, r);
        assert(s.remove(r).drop_last() =~= t.remove(r));
        assert(s.remove(r).last() == s.last());
        let u = vanish(a, t.remove(r));
        let d = a - s[r];
        let e = a - s.last();
        assert((d * u) * e == d * (u * e)) by (nonlinear_arith);
    }
}

proof fn lemma_total_congruent(s: Seq<int>, t: Seq<int>)
    requires
        s.len() == t.len(),
        forall|i: int|
            0 <= i < s.len() ==> field::congruent(#[trigger] s[i], t[i]),
    ensures
        field::congruent(total(s), total(t)),
    decreases s.len(),
{
    if s.len() > 0 {
        lemma_total_congruent(s.drop_last(), t.drop_last());
        assert(field::congruent(s[s.len() - 1], t[s.len() - 1]));
        field::lemma_congruent_add(
            total(s.drop_last()),
            total(t.drop_last()),
            s.last(),
            t.last(),
        );
    }
}

proof fn lemma_total_scale(c: int, s: Seq<int>, t: Seq<int>)
    requires
        s.len() == t.len(),
        forall|i: int| 0 <= i < s.len() ==> #[trigger] t[i] == c * s[i],
    ensures
        total(t) == c * total(s),
    decreases s.len(),
{
    if s.len() > 0 {
        lemma_total_scale(c, s.drop_last(), t.drop_last());
        let u = total(s.drop_last());
        let v = s.last();
        assert(t[s.len() - 1] == c * v);
        assert(c * u + c * v == c * (u + v)) by (nonlinear_arith);
    } else {
        assert(c * 0 == 0) by (nonlinear_arith);
    }
}

proof fn lemma_total_sum(s: Seq<int>, t: Seq<int>, u: Seq<int>)
    requires
        s.len() == t.len() == u.len(),
        forall|i: int| 0 <= i < s.len() ==> #[trigger] u[i] == s[i] + t[i],
    ensures
        total(u) == total(s) + total(t),
    decreases s.len(),
{
    if s.len() > 0 {
        lemma_total_sum(s.drop_last(), t.drop_last(), u.drop_last());
        assert(u[s.len() - 1] == s.last() + t.last());
    }
}

// ---------------------------------------------------------------------------
// Interpolation at zero
// ---------------------------------------------------------------------------

/// Whether no two members of `xs` are congruent.
pub open spec fn distinct(xs: Seq<int>) -> bool {
    forall|i: int, j: int|
        0 <= i < xs.len() && 0 <= j < xs.len() && i != j ==> !field::congruent(
            #[trigger] xs[i],
            #[trigger] xs[j],
        )
}

/// The value at zero of the polynomial that is one at `xs[i]` and zero at the other points, up to
/// congruence.
pub open spec fn basis(xs: Seq<int>, i: int) -> int {
    vanish(0, xs.remove(i)) * field::inverse(vanish(xs[i], xs.remove(i)))
}

/// The contributions of the points to the interpolated value.
pub open spec fn terms(xs: Seq<int>, ys: Seq<int>) -> Seq<int> {
    Seq::new(xs.len(), |i: int| ys[i] * basis(xs, i))
}

/// The value at zero of the polynomial of least degree through the points, up to congruence.
pub open spec fn interpolated(xs: Seq<int>, ys: Seq<int>) -> int {
    total(terms(xs, ys))
}

/// The denominator of a basis value vanishes exactly where a point is met twice.
pub proof fn lemma_vanish_zero(a: int, s: Seq<int>)
    ensures
        vanish(a, s) % field::p() == 0 <==> exists|j: int|
            0 <= j < s.len() && field::congruent(a, #[trigger] s[j]),
    decreases s.len(),
{
    if s.len() == 0 {
        assert(1int % field::p() == 1);
    } else {
        let t = s.drop_last();
        lemma_vanish_zero(a, t);
        let d = a - s.last();
        assert(d % field::p() == 0 <==> field::congruent(a, s.last())) by {
            lemma_sub_mod_noop(a, s.last(), field::p());
        }
        if vanish(a, t) % field::p() == 0 {
            field::lemma_congruent_mul(vanish(a, t), 0, d, d);
            let j = choose|j: int| 0 <= j < t.len() && field::congruent(a, #[trigger] t[j]);
            assert(s[j] == t[j]);
        } else if d % field::p() == 0 {
            field::lemma_congruent_mul(vanish(a, t), vanish(a, t), d, 0);
            assert(vanish(a, t) * 0 == 0) by (nonlinear_arith);
            assert(field::congruent(a, s[s.len() - 1]));
        } else {
            if vanish(a, s) % field::p() == 0 {
                field::lemma_no_zero_divisors(vanish(a, t), d);
            }
            assert forall|j: int| 0 <= j < s.len() implies !field::congruent(
                a,
                #[trigger] s[j],
            ) by {
                if j < t.len() {
                    assert(!field::congruent(a, t[j]));
                }
            }
        }
    }
}

proof fn lemma_distinct_remove(xs: Seq<int>, r: int)
    requires
        distinct(xs),
        0 <= r < xs.len(),
    ensures
        distinct(xs.remove(r)),
{
    let t = xs.remove(r);
    assert forall|i: int, j: int|
        0 <= i < t.len() && 0 <= j < t.len() && i != j implies !field::congruent(
        #[trigger] t[i],
        #[trigger] t[j],
    ) by {
        let a = if i < r { i } else { i + 1 };
        let b = if j < r { j } else { j + 1 };
        assert(t[i] == xs[a] && t[j] == xs[b]);
    }
}

/// One term of an interpolation of values that vanish at `xs[r]`.
proof fn lemma_factor_term(xs: Seq<int>, r: int, i: int, k: int, h: int)
    requires
        distinct(xs),
        0 <= r < xs.len(),
        0 <= i < xs.len(),
        i != r,
        k == if i < r {
            i
        } else {
            i - 1
        },
    ensures
        field::congruent(
            ((xs[i] - xs[r]) * h) * basis(xs, i),
            (0 - xs[r]) * (h * basis(xs.remove(r), k)),
        ),
{
    let rest = xs.remove(r).remove(k);
    let rr = if r < i {
        r
    } else {
        r - 1
    };
    assert(xs.remove(i).remove(rr) =~= rest);
    assert(xs.remove(i)[rr] == xs[r]);
    assert(xs.remove(r)[k] == xs[i]);
    lemma_vanish_remove(0, xs.remove(i), rr);
    lemma_vanish_remove(xs[i], xs.remove(i), rr);
    let d = xs[i] - xs[r];
    let n = 0 - xs[r];
    let u = vanish(0, rest);
    let v = vanish(xs[i], rest);
    field::lemma_inverse_mul(d, v);
    let di = field::inverse(d);
    let vi = field::inverse(v);
    assert(d % field::p() != 0) by {
        assert(!field::congruent(xs[i], xs[r]));
        lemma_sub_mod_noop(xs[i], xs[r], field::p());
        if d % field::p() == 0 {
            field::lemma_congruent_add(d, 0, xs[r], xs[r]);
        }
    }
    field::lemma_inverse(d);
    let w = n * (h * (u * vi));
    field::lemma_congruent_mul(d * di, 1, w, w);
    assert((d * h) * ((n * u) * (di * vi)) == (d * di) * w) by (nonlinear_arith)
        requires
            w == n * (h * (u * vi)),
    ;
    assert(1 * w == w);
}

/// Interpolating values that vanish at `xs[r]` is interpolating their quotients by `x - xs[r]`
/// at the other points, times `-xs[r]`.
proof fn lemma_factor(xs: Seq<int>, r: int, ys: Seq<int>, hs: Seq<int>)
    requires
        distinct(xs),
        0 <= r < xs.len(),
        ys.len() == xs.len(),
        hs.len() == xs.len(),
        forall|i: int| 0 <= i < xs.len() ==> #[trigger] ys[i] == (xs[i] - xs[r]) * hs[i],
    ensures
        field::congruent(
            interpolated(xs, ys),
            (0 - xs[r]) * interpolated(xs.remove(r), hs.remove(r)),
        ),
{
    let t = terms(xs, ys);
    let small = terms(xs.remove(r), hs.remove(r));
    let n = 0 - xs[r];
    let scaled = Seq::new(small.len(), |k: int| n * small[k]);
    assert(t[r] == 0) by {
        assert(ys[r] == 0 * hs[r]);
        assert(0 * hs[r] == 0 && 0 * basis(xs, r) == 0) by (nonlinear_arith);
    }
    lemma_total_remove(t, r);
    assert forall|k: int| 0 <= k < scaled.len() implies field::congruent(
        #[trigger] t.remove(r)[k],
        scaled[k],
    ) by {
        let i = if k < r {
            k
        } else {
            k + 1
        };
        assert(t.remove(r)[k] == t[i]);
        assert(hs.remove(r)[k] == hs[i]);
        assert(ys[i] == (xs[i] - xs[r]) * hs[i]);
        lemma_factor_term(xs, r, i, k, hs[i]);
    }
    lemma_total_congruent(t.remove(r), scaled);
    lemma_total_scale(n, small, scaled);
}

/// A sequence of ones.
spec fn ones(n: nat) -> Seq<int> {
    Seq::new(n, |i: int| 1int)
}

/// Interpolating the constant one gives one.
proof fn lemma_unit(xs: Seq<int>)
    requires
        distinct(xs),
        xs.len() > 0,
    ensures
        field::congruent(interpolated(xs, ones(xs.len())), 1),
    decreases xs.len(),
{
    let n = xs.len();
    let one = ones(n);
    if n == 1 {
        let t = terms(xs, one);
        assert(xs.remove(0) =~= Seq::<int>::empty());
        lemma1_pow(2305843009213693949);
        assert(t[0] == 1);
        assert(t.drop_last() =~= Seq::<int>::empty());
        reveal_with_fuel(total, 2);
    } else {
        let l = (n - 1) as int;
        let a = xs[0];
        let b = xs[l];
        let ys = Seq::new(n, |i: int| (xs[i] - b) * one[i]);
        let zs = Seq::new(n, |i: int| (xs[i] - a) * one[i]);
        lemma_factor(xs, l, ys, one);
        lemma_factor(xs, 0, zs, one);
        lemma_distinct_remove(xs, l);
        lemma_distinct_remove(xs, 0);
        lemma_unit(xs.remove(l));
        lemma_unit(xs.remove(0));
        assert(one.remove(l) =~= ones((n - 1) as nat));
        assert(one.remove(0) =~= ones((n - 1) as nat));
        let ly = interpolated(xs, ys);
        let lz = interpolated(xs, zs);
        let lo = interpolated(xs, one);
        let uy = interpolated(xs.remove(l), ones((n - 1) as nat));
        let uz = interpolated(xs.remove(0), ones((n - 1) as nat));
        field::lemma_congruent_mul(0 - b, 0 - b, uy, 1);
        field::lemma_congruent_mul(0 - a, 0 - a, uz, 1);
        // ly - lz is congruent to a - b, and is (a - b) * lo.
        field::lemma_congruent_add(ly, 0 - b, lz, 0 - a);
        let d = a - b;
        let ds = Seq::new(n, |i: int| d * terms(xs, one)[i]);
        lemma_total_scale(d, terms(xs, one), ds);
        assert forall|i: int| 0 <= i < n implies #[trigger] terms(xs, ys)[i] == terms(xs, zs)[i]
            + ds[i] by {
            let w = basis(xs, i);
            let x = xs[i];
            assert(((x - b) * 1) * w == ((x - a) * 1) * w + d * (1 * w)) by (nonlinear_arith)
                requires
                    d == a - b,
            ;
        }
        lemma_total_sum(terms(xs, zs), ds, terms(xs, ys));
        assert(d * lo == ly - lz);
        assert(field::congruent(d * lo, d * 1));
        assert(!field::congruent(xs[0], xs[l]));
        if d % field::p() == 0 {
            field::lemma_congruent_add(d, 0, b, b);
        }
        field::lemma_cancel(d, lo, 1);
    }
}

proof fn lemma_interpolated_congruent(xs: Seq<int>, ys: Seq<int>, zs: Seq<int>)
    requires
        ys.len() == xs.len(),
        zs.len() == xs.len(),
        forall|i: int| 0 <= i < xs.len() ==> field::congruent(#[trigger] ys[i], zs[i]),
    ensures
        field::congruent(interpolated(xs, ys), interpolated(xs, zs)),
{
    assert forall|i: int| 0 <= i < xs.len() implies field::congruent(
        #[trigger] terms(xs, ys)[i],
        terms(xs, zs)[i],
    ) by {
        assert(field::congruent(ys[i], zs[i]));
        field::lemma_congruent_mul(ys[i], zs[i], basis(xs, i), basis(xs, i));
    }
    lemma_total_congruent(terms(xs, ys), terms(xs, zs));
}

proof fn lemma_exact_interpolation(xs: Seq<int>, c: Seq<int>)
    requires
        distinct(xs),
        c.len() <= xs.len(),
    ensures
        field::congruent(
            interpolated(xs, Seq::new(xs.len(), |i: int| poly(c, xs[i]))),
            poly(c, 0),
        ),
    decreases xs.len(),
{
    let n = xs.len();
    let ys = Seq::new(n, |i: int| poly(c, xs[i]));
    let one = ones(n);
    if c.len() == 0 {
        let t = terms(xs, ys);
        let zero = Seq::new(n, |i: int| 0 * one[i]);
        assert forall|i: int| 0 <= i < n implies #[trigger] t[i] == 0 * one[i] by {
            assert(0 * basis(xs, i) == 0) by (nonlinear_arith);
        }
        lemma_total_scale(0, one, t);
        assert(0 * total(one) == 0) by (nonlinear_arith);
    } else {
        let r = (n - 1) as int;
        let a = xs[r];
        let q = quotient(c, a);
        let fa = poly(c, a);
        let hs = Seq::new(n, |i: int| poly(q, xs[i]));
        let gs = Seq::new(n, |i: int| (xs[i] - a) * hs[i]);
        lemma_quotient(c, a, 0);
        lemma_factor(xs, r, gs, hs);
        lemma_distinct_remove(xs, r);
        lemma_exact_interpolation(xs.remove(r), q);
        assert(hs.remove(r) =~= Seq::new(
            xs.remove(r).len(),
            |i: int| poly(q, xs.remove(r)[i]),
        ));
        lemma_unit(xs);
        let scaled = Seq::new(n, |i: int| fa * terms(xs, one)[i]);
        lemma_total_scale(fa, terms(xs, one), scaled);
        assert forall|i: int| 0 <= i < n implies #[trigger] terms(xs, ys)[i] == scaled[i]
            + terms(xs, gs)[i] by {
            lemma_quotient(c, a, xs[i]);
            let w = basis(xs, i);
            let y = poly(c, xs[i]);
            let g = (xs[i] - a) * poly(q, xs[i]);
            assert(y * w == fa * (1 * w) + g * w) by (nonlinear_arith)
                requires
                    y == fa + g,
            ;
        }
        lemma_total_sum(scaled, terms(xs, gs), terms(xs, ys));
        let lo = interpolated(xs, one);
        let lg = interpolated(xs, gs);
        let lh = interpolated(xs.remove(r), hs.remove(r));
        field::lemma_congruent_mul(fa, fa, lo, 1);
        field::lemma_congruent_mul(0 - a, 0 - a, lh, poly(q, 0));
        field::lemma_congruent_add(fa * lo, fa * 1, lg, (0 - a) * poly(q, 0));
        assert(fa * 1 == fa);
        assert(poly(c, 0) == fa + (0 - a) * poly(q, 0));
    }
}

/// Interpolating a polynomial's values at as many points as it has coefficients, or more, gives
/// its value at zero.
pub proof fn lemma_interpolation(xs: Seq<int>, ys: Seq<int>, c: Seq<int>)
    requires
        distinct(xs),
        ys.len() == xs.len(),
        c.len() <= xs.len(),
        forall|i: int| 0 <= i < xs.len() ==> field::congruent(#[trigger] ys[i], poly(c, xs[i])),
    ensures
        field::congruent(interpolated(xs, ys), poly(c, 0)),
{
    let exact = Seq::new(xs.len(), |i: int| poly(c, xs[i]));
    lemma_interpolated_congruent(xs, ys, exact);
    lemma_exact_interpolation(xs, c);
}

/// One coefficient more adds its power of `x`.
pub proof fn lemma_poly_push(c: Seq<int>, a: int, x: int)
    ensures
        poly(c.push(a), x) == poly(c, x) + a * pow(x, c.len()),
    decreases c.len(),
{
    lemma_pow0(x);
    let longer = c.push(a);
    if c.len() == 0 {
        assert(longer.drop_first() =~= Seq::<int>::empty());
        assert(poly(longer.drop_first(), x) == 0);
        assert(x * 0 == 0 && a * 1 == a);
        assert(poly(longer, x) == a + x * 0);
    } else {
        let rest = c.drop_first();
        assert(longer.drop_first() =~= rest.push(a));
        lemma_poly_push(rest, a, x);
        lemma_pow_adds(x, 1, rest.len());
        lemma_pow1(x);
        assert(longer[0] == c[0]);
        assert(x * (poly(rest, x) + a * pow(x, rest.len())) == x * poly(rest, x) + a * (x * pow(
            x,
            rest.len(),
        ))) by (nonlinear_arith);
    }
}

} // verus!
