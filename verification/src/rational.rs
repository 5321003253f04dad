//! Exact rational scalars.
//!
//! The engine computes with fractions of 64-bit integers.  A value is a pair
//! `num / den` with a positive denominator; operations reduce by a common
//! divisor and report `None` when a result cannot be represented, which the
//! engine surfaces as a numerical-invalidity error.  The specification-level
//! value of a scalar is the fraction `Q` of unbounded integers, compared by
//! cross-multiplication, so every contract states exact rational arithmetic.

use vstd::prelude::*;

verus! {

use vstd::arithmetic::div_mod::{lemma_fundamental_div_mod, lemma_mod_multiples_basic};
use vstd::arithmetic::mul::{lemma_mul_is_associative, lemma_mul_is_distributive_add,
    lemma_mul_is_distributive_add_other_way, lemma_mul_strictly_positive};

/// A fraction of mathematical integers: the specification value of `Rat`.
pub ghost struct Q {
    pub n: int,
    pub d: int,
}

/// A well-formed fraction has a positive denominator.
pub open spec fn q_wf(a: Q) -> bool {
    a.d > 0
}

/// Equality of fractions by cross-multiplication.
pub open spec fn q_eq(a: Q, b: Q) -> bool {
    a.n * b.d == b.n * a.d
}

pub open spec fn q_zero() -> Q {
    Q { n: 0, d: 1 }
}

pub open spec fn q_one() -> Q {
    Q { n: 1, d: 1 }
}

pub open spec fn q_add(a: Q, b: Q) -> Q {
    Q { n: a.n * b.d + b.n * a.d, d: a.d * b.d }
}

pub open spec fn q_mul(a: Q, b: Q) -> Q {
    Q { n: a.n * b.n, d: a.d * b.d }
}

pub open spec fn q_neg(a: Q) -> Q {
    Q { n: -a.n, d: a.d }
}

pub open spec fn q_sub(a: Q, b: Q) -> Q {
    q_add(a, q_neg(b))
}

/// Order on fractions; meaningful when both sides are well-formed.
pub open spec fn q_le(a: Q, b: Q) -> bool {
    a.n * b.d <= b.n * a.d
}

/// A fraction denotes zero exactly when its numerator is zero.
pub open spec fn q_is_zero(a: Q) -> bool {
    a.n == 0
}

pub proof fn lemma_q_eq_symmetric(a: Q, b: Q)
    requires
        q_eq(a, b),
    ensures
        q_eq(b, a),
{
}

pub proof fn lemma_q_eq_trans(a: Q, b: Q, c: Q) by (nonlinear_arith)
    requires
        q_wf(a),
        q_wf(b),
        q_wf(c),
        q_eq(a, b),
        q_eq(b, c),
    ensures
        q_eq(a, c),
{
}

pub proof fn lemma_q_add_wf(a: Q, b: Q)
    requires
        q_wf(a),
        q_wf(b),
    ensures
        q_wf(q_add(a, b)),
{
    lemma_mul_strictly_positive(a.d, b.d);
}

pub proof fn lemma_q_mul_wf(a: Q, b: Q)
    requires
        q_wf(a),
        q_wf(b),
    ensures
        q_wf(q_mul(a, b)),
{
    lemma_mul_strictly_positive(a.d, b.d);
}

pub proof fn lemma_q_add_congruence(a: Q, a2: Q, b: Q, b2: Q)
    requires
        q_wf(a),
        q_wf(a2),
        q_wf(b),
        q_wf(b2),
        q_eq(a, a2),
        q_eq(b, b2),
    ensures
        q_eq(q_add(a, b), q_add(a2, b2)),
{
    lemma_mul_is_distributive_add_other_way(a2.d * b2.d, a.n * b.d, b.n * a.d);
    lemma_mul_is_distributive_add_other_way(a.d * b.d, a2.n * b2.d, b2.n * a2.d);
    assert((a.n * b.d) * (a2.d * b2.d) == (a.n * a2.d) * (b.d * b2.d)) by (nonlinear_arith);
    assert((a2.n * a.d) * (b.d * b2.d) == (a2.n * b2.d) * (a.d * b.d)) by (nonlinear_arith);
    assert((b.n * a.d) * (a2.d * b2.d) == (b.n * b2.d) * (a.d * a2.d)) by (nonlinear_arith);
    assert((b2.n * b.d) * (a.d * a2.d) == (b2.n * a2.d) * (a.d * b.d)) by (nonlinear_arith);
}

pub proof fn lemma_q_mul_congruence(a: Q, a2: Q, b: Q, b2: Q)
    requires
        q_wf(a),
        q_wf(a2),
        q_wf(b),
        q_wf(b2),
        q_eq(a, a2),
        q_eq(b, b2),
    ensures
        q_eq(q_mul(a, b), q_mul(a2, b2)),
{
    assert((a.n * b.n) * (a2.d * b2.d) == (a.n * a2.d) * (b.n * b2.d)) by (nonlinear_arith);
    assert((a2.n * a.d) * (b2.n * b.d) == (a2.n * b2.n) * (a.d * b.d)) by (nonlinear_arith);
}

pub proof fn lemma_q_mul_comm(a: Q, b: Q)
    ensures
        q_mul(a, b) == q_mul(b, a),
{
}

pub proof fn lemma_q_mul_one(a: Q) by (nonlinear_arith)
    requires
        q_wf(a),
    ensures
        q_eq(q_mul(a, q_one()), a),
        q_eq(q_mul(q_one(), a), a),
{
}

pub proof fn lemma_q_mul_zero(a: Q)
    ensures
        q_is_zero(q_mul(a, q_zero())),
        q_is_zero(q_mul(q_zero(), a)),
{
}

pub proof fn lemma_q_add_zero(a: Q, z: Q) by (nonlinear_arith)
    requires
        q_wf(a),
        q_wf(z),
        q_is_zero(z),
    ensures
        q_eq(q_add(a, z), a),
        q_eq(q_add(z, a), a),
{
}

/// Distribution of a factor over a sum.
pub proof fn lemma_q_mul_distributes(a: Q, b: Q, c: Q)
    ensures
        q_eq(q_mul(c, q_add(a, b)), q_add(q_mul(c, a), q_mul(c, b))),
{
    let l = q_mul(c, q_add(a, b));
    let r = q_add(q_mul(c, a), q_mul(c, b));
    lemma_mul_is_distributive_add(c.n, a.n * b.d, b.n * a.d);
    lemma_mul_is_distributive_add(c.d, c.n * (a.n * b.d), c.n * (b.n * a.d));
    assert(c.d * (c.n * (a.n * b.d)) == (c.n * a.n) * (c.d * b.d)) by (nonlinear_arith);
    assert(c.d * (c.n * (b.n * a.d)) == (c.n * b.n) * (c.d * a.d)) by (nonlinear_arith);
    assert(r.n == c.d * l.n);
    assert((c.d * a.d) * (c.d * b.d) == c.d * (c.d * (a.d * b.d))) by (nonlinear_arith);
    assert(r.d == c.d * l.d);
    assert(l.n * (c.d * l.d) == (c.d * l.n) * l.d) by (nonlinear_arith);
}

/// Regrouping of two sums: `(a + b) + (c + d) == (a + c) + (b + d)`.
pub proof fn lemma_q_add_rearrange(a: Q, b: Q, c: Q, d: Q)
    ensures
        q_eq(q_add(q_add(a, b), q_add(c, d)), q_add(q_add(a, c), q_add(b, d))),
{
    let l = q_add(q_add(a, b), q_add(c, d));
    let r = q_add(q_add(a, c), q_add(b, d));
    lemma_mul_is_distributive_add_other_way(c.d * d.d, a.n * b.d, b.n * a.d);
    lemma_mul_is_distributive_add_other_way(a.d * b.d, c.n * d.d, d.n * c.d);
    lemma_mul_is_distributive_add_other_way(b.d * d.d, a.n * c.d, c.n * a.d);
    lemma_mul_is_distributive_add_other_way(a.d * c.d, b.n * d.d, d.n * b.d);
    assert((a.n * b.d) * (c.d * d.d) == (a.n * c.d) * (b.d * d.d)) by (nonlinear_arith);
    assert((b.n * a.d) * (c.d * d.d) == (b.n * d.d) * (a.d * c.d)) by (nonlinear_arith);
    assert((c.n * d.d) * (a.d * b.d) == (c.n * a.d) * (b.d * d.d)) by (nonlinear_arith);
    assert((d.n * c.d) * (a.d * b.d) == (d.n * b.d) * (a.d * c.d)) by (nonlinear_arith);
    assert(l.n == r.n);
    assert((a.d * b.d) * (c.d * d.d) == (a.d * c.d) * (b.d * d.d)) by (nonlinear_arith);
    assert(l.d == r.d);
    assert(q_eq(l, r));
}

pub proof fn lemma_q_le_trans(a: Q, b: Q, c: Q) by (nonlinear_arith)
    requires
        q_wf(a),
        q_wf(b),
        q_wf(c),
        q_le(a, b),
        q_le(b, c),
    ensures
        q_le(a, c),
{
}

/// Mutual order is equivalence.
pub proof fn lemma_q_le_antisym(a: Q, b: Q)
    requires
        q_le(a, b),
        q_le(b, a),
    ensures
        q_eq(a, b),
{
}

/// Order respects equivalence on both sides.
pub proof fn lemma_q_le_congruence(a: Q, a2: Q, b: Q, b2: Q) by (nonlinear_arith)
    requires
        q_wf(a),
        q_wf(a2),
        q_wf(b),
        q_wf(b2),
        q_eq(a, a2),
        q_eq(b, b2),
    ensures
        q_le(a, b) == q_le(a2, b2),
{
}

pub proof fn lemma_q_sub_wf(a: Q, b: Q)
    requires
        q_wf(a),
        q_wf(b),
    ensures
        q_wf(q_sub(a, b)),
{
    lemma_q_add_wf(a, q_neg(b));
}

pub proof fn lemma_q_sub_congruence(a: Q, a2: Q, b: Q, b2: Q)
    requires
        q_wf(a),
        q_wf(a2),
        q_wf(b),
        q_wf(b2),
        q_eq(a, a2),
        q_eq(b, b2),
    ensures
        q_eq(q_sub(a, b), q_sub(a2, b2)),
{
    assert(q_eq(q_neg(b), q_neg(b2))) by (nonlinear_arith)
        requires
            q_eq(b, b2),
    ;
    lemma_q_add_congruence(a, a2, q_neg(b), q_neg(b2));
}

/// Subtraction grows when its first argument grows and its second shrinks.
pub proof fn lemma_q_sub_monotone(x: Q, xb: Q, yb: Q, y: Q)
    requires
        q_wf(x),
        q_wf(xb),
        q_wf(y),
        q_wf(yb),
        q_le(x, xb),
        q_le(yb, y),
    ensures
        q_le(q_sub(x, y), q_sub(xb, yb)),
{
    let l = q_sub(x, y);
    let r = q_sub(xb, yb);
    lemma_mul_strictly_positive(y.d, yb.d);
    lemma_mul_strictly_positive(x.d, xb.d);
    vstd::arithmetic::mul::lemma_mul_inequality(x.n * xb.d, xb.n * x.d, y.d * yb.d);
    vstd::arithmetic::mul::lemma_mul_inequality(yb.n * y.d, y.n * yb.d, x.d * xb.d);
    lemma_mul_is_distributive_add_other_way(xb.d * yb.d, x.n * y.d, (-y.n) * x.d);
    assert((x.n * y.d) * (xb.d * yb.d) == (x.n * xb.d) * (y.d * yb.d)) by (nonlinear_arith);
    assert(((-y.n) * x.d) * (xb.d * yb.d) == -((y.n * yb.d) * (x.d * xb.d))) by (nonlinear_arith);
    lemma_mul_is_distributive_add_other_way(x.d * y.d, xb.n * yb.d, (-yb.n) * xb.d);
    assert((xb.n * yb.d) * (x.d * y.d) == (xb.n * x.d) * (y.d * yb.d)) by (nonlinear_arith);
    assert(((-yb.n) * xb.d) * (x.d * y.d) == -((yb.n * y.d) * (x.d * xb.d))) by (nonlinear_arith);
}

/// Negation reverses order.
pub proof fn lemma_q_le_neg_antitone(a: Q, b: Q) by (nonlinear_arith)
    requires
        q_wf(a),
        q_wf(b),
        q_le(a, b),
    ensures
        q_le(q_neg(b), q_neg(a)),
{
}

/// A fraction is bounded by the larger of itself and its negation.
pub proof fn lemma_q_le_total(a: Q, b: Q) by (nonlinear_arith)
    requires
        q_wf(a),
        q_wf(b),
        !q_le(a, b),
    ensures
        q_le(b, a),
{
}

/// Multiplication is associative on the nose.
pub proof fn lemma_q_mul_assoc(a: Q, b: Q, c: Q)
    ensures
        q_mul(q_mul(a, b), c) == q_mul(a, q_mul(b, c)),
{
    assert((a.n * b.n) * c.n == a.n * (b.n * c.n)) by (nonlinear_arith);
    assert((a.d * b.d) * c.d == a.d * (b.d * c.d)) by (nonlinear_arith);
}

/// One is the sum of a fraction and its complement.
pub proof fn lemma_q_complement(a: Q) by (nonlinear_arith)
    requires
        q_wf(a),
    ensures
        q_eq(q_add(a, q_sub(q_one(), a)), q_one()),
{
}

/// A fraction denotes zero exactly when it is equivalent to the zero
/// fraction.
pub proof fn lemma_q_is_zero_iff(a: Q) by (nonlinear_arith)
    ensures
        q_is_zero(a) <==> q_eq(a, q_zero()),
{
}

/// The sum of two nonnegative fractions is nonnegative.
pub proof fn lemma_q_add_nonneg(a: Q, b: Q) by (nonlinear_arith)
    requires
        q_wf(a),
        q_wf(b),
        q_le(q_zero(), a),
        q_le(q_zero(), b),
    ensures
        q_le(q_zero(), q_add(a, b)),
{
}

/// A sum of two nonnegative fractions is zero only when both are.
pub proof fn lemma_q_add_zero_split(a: Q, b: Q) by (nonlinear_arith)
    requires
        q_wf(a),
        q_wf(b),
        q_le(q_zero(), a),
        q_le(q_zero(), b),
        q_is_zero(q_add(a, b)),
    ensures
        q_is_zero(a),
        q_is_zero(b),
{
}

/// Negation distributes over addition on the nose.
pub proof fn lemma_q_neg_add(a: Q, b: Q)
    ensures
        q_neg(q_add(a, b)) == q_add(q_neg(a), q_neg(b)),
{
    assert((-a.n) * b.d + (-b.n) * a.d == -(a.n * b.d + b.n * a.d)) by (nonlinear_arith);
}

/// Subtracting and adding back cancels.
pub proof fn lemma_q_sub_add_cancel(x: Q, y: Q) by (nonlinear_arith)
    requires
        q_wf(x),
        q_wf(y),
    ensures
        q_eq(q_add(q_sub(x, y), y), x),
{
}

/// When `x` is equivalent to `a + d`, the difference `x - a` is `d`.
pub proof fn lemma_q_add_sub_cancel(a: Q, d: Q, x: Q)
    requires
        q_wf(a),
        q_wf(d),
        q_wf(x),
        q_eq(x, q_add(a, d)),
    ensures
        q_eq(q_sub(x, a), d),
{
    lemma_mul_is_distributive_add_other_way(d.d, x.n * a.d, (-a.n) * x.d);
    lemma_mul_is_distributive_add_other_way(x.d, a.n * d.d, d.n * a.d);
    assert((x.n * a.d) * d.d == x.n * (a.d * d.d)) by (nonlinear_arith);
    assert(((-a.n) * x.d) * d.d == -((a.n * d.d) * x.d)) by (nonlinear_arith);
    assert((d.n * a.d) * x.d == d.n * (x.d * a.d)) by (nonlinear_arith);
}

/// Cancellation of a nonzero factor.
pub proof fn lemma_q_mul_cancel(a: Q, b: Q, c: Q) by (nonlinear_arith)
    requires
        q_wf(a),
        q_wf(b),
        q_wf(c),
        !q_is_zero(c),
        q_eq(q_mul(a, c), q_mul(b, c)),
    ensures
        q_eq(a, b),
{
}


/// `d` divides `x`.
pub open spec fn divides(d: int, x: int) -> bool {
    exists|k: int| x == #[trigger] (d * k)
}

/// The greatest common divisor of `a >= 0` and `b >= 1`, by Euclid's
/// recursion.
pub open spec fn spec_gcd(a: int, b: int) -> int
    decreases a,
{
    if a <= 0 {
        b
    } else {
        spec_gcd(b % a, a)
    }
}

pub proof fn lemma_gcd_properties(a: int, b: int)
    requires
        a >= 0,
        b >= 1,
    ensures
        spec_gcd(a, b) >= 1,
        divides(spec_gcd(a, b), a),
        divides(spec_gcd(a, b), b),
    decreases a,
{
    if a <= 0 {
        assert(a == spec_gcd(a, b) * 0);
        assert(b == spec_gcd(a, b) * 1);
    } else {
        lemma_gcd_properties(b % a, a);
        let g = spec_gcd(b % a, a);
        let k1 = choose|k: int| a == #[trigger] (g * k);
        let k2 = choose|k: int| (b % a) == #[trigger] (g * k);
        lemma_fundamental_div_mod(b, a);
        assert(b == g * (k1 * (b / a) + k2)) by (nonlinear_arith)
            requires
                b == a * (b / a) + (b % a),
                a == g * k1,
                (b % a) == g * k2,
        ;
    }
}

/// A Bezout combination of `a` and `b` attains their greatest common
/// divisor.
pub proof fn lemma_bezout(a: int, b: int)
    requires
        a >= 0,
        b >= 1,
    ensures
        exists|x: int, y: int| #![trigger a * x, b * y] spec_gcd(a, b) == a * x + b * y,
    decreases a,
{
    if a <= 0 {
        assert(spec_gcd(a, b) == a * 0 + b * 1) by (nonlinear_arith)
            requires
                a == 0,
                spec_gcd(a, b) == b,
        ;
    } else {
        lemma_bezout(b % a, a);
        let (x0, y0) = choose|x0: int, y0: int|
            #![trigger (b % a) * x0, a * y0]
            spec_gcd(b % a, a) == (b % a) * x0 + a * y0;
        lemma_fundamental_div_mod(b, a);
        let x1 = y0 - (b / a) * x0;
        assert(spec_gcd(a, b) == a * x1 + b * x0) by (nonlinear_arith)
            requires
                spec_gcd(a, b) == (b % a) * x0 + a * y0,
                (b % a) == b - a * (b / a),
                x1 == y0 - (b / a) * x0,
        ;
    }
}

/// When one is a combination `a*x + b*y`, anything `b` divides after
/// multiplication by `a` it divides outright.
proof fn lemma_coprime_divides(a: int, b: int, c: int, x: int, y: int)
    requires
        a * x + b * y == 1,
        divides(b, a * c),
    ensures
        divides(b, c),
{
    let k = choose|k: int| a * c == #[trigger] (b * k);
    assert(c == b * (k * x + c * y)) by (nonlinear_arith)
        requires
            a * x + b * y == 1,
            a * c == b * k,
    ;
}

/// Dividing a fraction's parts by their greatest common divisor yields the
/// smallest parts among all equal fractions.
proof fn lemma_reduced_minimal(na: int, du: int, n2: int, d2: int)
    requires
        na >= 0,
        du >= 1,
        n2 >= 0,
        d2 >= 1,
        na * d2 == n2 * du,
    ensures
        du / spec_gcd(na, du) <= d2,
        na / spec_gcd(na, du) <= n2,
{
    let g = spec_gcd(na, du);
    lemma_gcd_properties(na, du);
    let n0 = choose|k: int| na == #[trigger] (g * k);
    let d0 = choose|k: int| du == #[trigger] (g * k);
    vstd::arithmetic::div_mod::lemma_fundamental_div_mod_converse(na, g, n0, 0);
    vstd::arithmetic::div_mod::lemma_fundamental_div_mod_converse(du, g, d0, 0);
    assert(n0 >= 0 && d0 >= 1) by (nonlinear_arith)
        requires
            na == g * n0,
            du == g * d0,
            g >= 1,
            na >= 0,
            du >= 1,
    ;
    // the same value at the reduced level
    assert(n0 * d2 == n2 * d0) by (nonlinear_arith)
        requires
            na * d2 == n2 * du,
            na == g * n0,
            du == g * d0,
            g >= 1,
    ;
    // a Bezout combination of the reduced parts attains one
    lemma_bezout(na, du);
    let (x, y) = choose|x: int, y: int| #![trigger na * x, du * y] g == na * x + du * y;
    assert(n0 * x + d0 * y == 1) by (nonlinear_arith)
        requires
            g == na * x + du * y,
            na == g * n0,
            du == g * d0,
            g >= 1,
    ;
    assert(n0 * d2 == d0 * n2) by (nonlinear_arith)
        requires
            n0 * d2 == n2 * d0,
    ;
    assert(divides(d0, n0 * d2));
    lemma_coprime_divides(n0, d0, d2, x, y);
    let k = choose|k: int| d2 == #[trigger] (d0 * k);
    assert(k >= 1 && d0 <= d2) by (nonlinear_arith)
        requires
            d2 == d0 * k,
            d0 >= 1,
            d2 >= 1,
    ;
    assert(n2 == n0 * k) by (nonlinear_arith)
        requires
            n0 * d2 == n2 * d0,
            d2 == d0 * k,
            d0 >= 1,
    ;
    assert(n0 <= n2) by (nonlinear_arith)
        requires
            n2 == n0 * k,
            k >= 1,
            n0 >= 0,
    ;
}

/// The value of a fraction is representable: some equal fraction has its
/// numerator and positive denominator within the 64-bit range.
pub open spec fn q_fits(q: Q) -> bool {
    exists|n: int, d: int|
        #![trigger n * q.d, q.n * d]
        1 <= d <= i64::MAX && -(i64::MAX as int) <= n <= i64::MAX && n * q.d == q.n * d
}

/// The zero fraction is representable.
pub proof fn lemma_q_fits_zero()
    ensures
        q_fits(q_zero()),
{
    assert((0int) * q_zero().d == q_zero().n * (1int));
}

/// Representability is a property of the value alone.
pub proof fn lemma_q_fits_congruent(p: Q, q: Q)
    requires
        q_wf(p),
        q_wf(q),
        q_eq(p, q),
    ensures
        q_fits(p) == q_fits(q),
{
    if q_fits(p) {
        let (n, d) = choose|n: int, d: int|
            #![trigger n * p.d, p.n * d]
            1 <= d <= i64::MAX && -(i64::MAX as int) <= n <= i64::MAX && n * p.d == p.n * d;
        let w = Q { n: n, d: d };
        lemma_q_eq_trans(w, p, q);
        assert(n * q.d == q.n * d);
    }
    if q_fits(q) {
        let (n, d) = choose|n: int, d: int|
            #![trigger n * q.d, q.n * d]
            1 <= d <= i64::MAX && -(i64::MAX as int) <= n <= i64::MAX && n * q.d == q.n * d;
        let w = Q { n: n, d: d };
        lemma_q_eq_symmetric(p, q);
        lemma_q_eq_trans(w, q, p);
        assert(n * p.d == p.n * d);
    }
}

/// The exact quotient of two fractions, its sign moved into the numerator.
pub open spec fn q_div(a: Q, b: Q) -> Q {
    if b.n >= 0 {
        Q { n: a.n * b.d, d: a.d * b.n }
    } else {
        Q { n: -(a.n * b.d), d: -(a.d * b.n) }
    }
}

pub proof fn lemma_q_div_wf(a: Q, b: Q) by (nonlinear_arith)
    requires
        q_wf(a),
        q_wf(b),
        !q_is_zero(b),
    ensures
        q_wf(q_div(a, b)),
{
}

/// The quotient multiplied back by the divisor gives the dividend.
pub proof fn lemma_q_div_mul(a: Q, b: Q) by (nonlinear_arith)
    requires
        q_wf(a),
        q_wf(b),
        !q_is_zero(b),
    ensures
        q_eq(q_mul(q_div(a, b), b), a),
{
}

/// Quotients respect equivalence of both operands.
pub proof fn lemma_q_div_congruent(a: Q, a2: Q, b: Q, b2: Q)
    requires
        q_wf(a),
        q_wf(a2),
        q_wf(b),
        q_wf(b2),
        !q_is_zero(b),
        q_eq(a, a2),
        q_eq(b, b2),
    ensures
        !q_is_zero(b2),
        q_eq(q_div(a, b), q_div(a2, b2)),
{
    assert(!q_is_zero(b2) && (b.n >= 0) == (b2.n >= 0)) by (nonlinear_arith)
        requires
            q_wf(b),
            q_wf(b2),
            q_eq(b, b2),
            b.n != 0,
    ;
    lemma_q_div_wf(a, b);
    lemma_q_div_wf(a2, b2);
    lemma_q_div_mul(a, b);
    lemma_q_div_mul(a2, b2);
    // both quotients multiplied by the equivalent divisors give equivalent
    // dividends, so they are equivalent themselves
    lemma_q_mul_wf(q_div(a, b), b);
    lemma_q_mul_wf(q_div(a2, b2), b2);
    lemma_q_mul_congruence(q_div(a2, b2), q_div(a2, b2), b2, b);
    lemma_q_mul_wf(q_div(a2, b2), b);
    lemma_q_eq_trans(q_mul(q_div(a2, b2), b), q_mul(q_div(a2, b2), b2), a2);
    lemma_q_eq_symmetric(a, a2);
    lemma_q_eq_trans(q_mul(q_div(a2, b2), b), a2, a);
    lemma_q_eq_symmetric(q_mul(q_div(a2, b2), b), a);
    lemma_q_eq_trans(q_mul(q_div(a, b), b), a, q_mul(q_div(a2, b2), b));
    lemma_q_mul_cancel(q_div(a, b), q_div(a2, b2), b);
}

/// An executable rational scalar: `num / den` with `den >= 1`.
#[derive(Debug, Clone, Copy)]
pub struct Rat {
    pub num: i64,
    pub den: i64,
}

impl View for Rat {
    type V = Q;

    open spec fn view(&self) -> Q {
        Q { n: self.num as int, d: self.den as int }
    }
}

impl Rat {
    /// Well-formedness: positive denominator, numerator safely negatable.
    pub open spec fn wf(self) -> bool {
        self.den >= 1 && self.num > i64::MIN
    }

    /// The fraction `num / den`; a negative denominator is moved into the sign
    /// of the numerator.
    pub fn new(num: i64, den: i64) -> (r: Rat)
        requires
            den != 0,
            num > i64::MIN,
            den > i64::MIN,
        ensures
            r.wf(),
            q_eq(r@, Q { n: num as int, d: den as int }),
    {
        if den < 0 {
            let r = Rat { num: -num, den: -den };
            proof {
                assert(q_eq(r@, Q { n: num as int, d: den as int })) by (nonlinear_arith)
                    requires
                        r.num == -(num as int),
                        r.den == -(den as int),
                ;
            }
            r
        } else {
            Rat { num, den }
        }
    }

    pub fn from_int(i: i64) -> (r: Rat)
        requires
            i > i64::MIN,
        ensures
            r.wf(),
            r@ == (Q { n: i as int, d: 1 }),
    {
        Rat { num: i, den: 1 }
    }

    pub fn zero() -> (r: Rat)
        ensures
            r.wf(),
            r@ == q_zero(),
    {
        Rat { num: 0, den: 1 }
    }

    pub fn one() -> (r: Rat)
        ensures
            r.wf(),
            r@ == q_one(),
    {
        Rat { num: 1, den: 1 }
    }

    pub fn is_zero(&self) -> (r: bool)
        ensures
            r == q_is_zero(self@),
    {
        self.num == 0
    }

    pub fn is_one(&self) -> (r: bool)
        requires
            self.wf(),
        ensures
            r == q_eq(self@, q_one()),
    {
        proof {
            assert(q_eq(self@, q_one()) == (self@.n == self@.d)) by (nonlinear_arith);
        }
        self.num == self.den
    }

    /// Exact equality test of the denoted fractions.
    pub fn eq_rat(&self, other: &Rat) -> (r: bool)
        requires
            self.wf(),
            other.wf(),
        ensures
            r == q_eq(self@, other@),
    {
        proof {
            lemma_i64_products_bounded(
                self.num as int,
                other.den as int,
                other.num as int,
                self.den as int,
            );
        }
        (self.num as i128) * (other.den as i128) == (other.num as i128) * (self.den as i128)
    }

    /// Order test of the denoted fractions.
    pub fn le(&self, other: &Rat) -> (r: bool)
        requires
            self.wf(),
            other.wf(),
        ensures
            r == q_le(self@, other@),
    {
        proof {
            lemma_i64_products_bounded(
                self.num as int,
                other.den as int,
                other.num as int,
                self.den as int,
            );
        }
        (self.num as i128) * (other.den as i128) <= (other.num as i128) * (self.den as i128)
    }

    pub fn neg(&self) -> (r: Rat)
        requires
            self.wf(),
        ensures
            r.wf(),
            r@ == q_neg(self@),
    {
        Rat { num: -self.num, den: self.den }
    }

    /// The magnitude of the fraction.
    pub fn abs(&self) -> (r: Rat)
        requires
            self.wf(),
        ensures
            r.wf(),
            q_le(q_zero(), self@) ==> r@ == self@,
            !q_le(q_zero(), self@) ==> r@ == q_neg(self@),
    {
        let nonneg = self.num >= 0;
        proof {
            assert(nonneg == q_le(q_zero(), self@)) by (nonlinear_arith)
                requires
                    self@.d > 0,
                    nonneg == (self@.n >= 0),
            ;
        }
        if nonneg {
            *self
        } else {
            self.neg()
        }
    }

    /// Exact sum; succeeds exactly when the sum's value is representable.
    pub fn checked_add(&self, other: &Rat) -> (r: Option<Rat>)
        requires
            self.wf(),
            other.wf(),
        ensures
            r matches Some(c) ==> c.wf() && q_eq(c@, q_add(self@, other@)),
            r is Some <==> q_fits(q_add(self@, other@)),
    {
        proof {
            lemma_i64_products_bounded(
                self.num as int,
                other.den as int,
                other.num as int,
                self.den as int,
            );
            lemma_i64_products_bounded(
                self.den as int,
                other.den as int,
                0,
                1,
            );
        }
        let n: i128 = (self.num as i128) * (other.den as i128) + (other.num as i128) * (self.den
            as i128);
        let d: i128 = (self.den as i128) * (other.den as i128);
        proof {
            lemma_mul_strictly_positive(self.den as int, other.den as int);
            assert(Q { n: n as int, d: d as int } == q_add(self@, other@));
        }
        reduce_and_fit(n, d)
    }

    /// Exact difference; succeeds exactly when the difference's value is
    /// representable.
    pub fn checked_sub(&self, other: &Rat) -> (r: Option<Rat>)
        requires
            self.wf(),
            other.wf(),
        ensures
            r matches Some(c) ==> c.wf() && q_eq(c@, q_sub(self@, other@)),
            r is Some <==> q_fits(q_sub(self@, other@)),
    {
        self.checked_add(&other.neg())
    }

    /// Exact product; succeeds exactly when the product's value is
    /// representable.
    pub fn checked_mul(&self, other: &Rat) -> (r: Option<Rat>)
        requires
            self.wf(),
            other.wf(),
        ensures
            r matches Some(c) ==> c.wf() && q_eq(c@, q_mul(self@, other@)),
            r is Some <==> q_fits(q_mul(self@, other@)),
    {
        proof {
            lemma_i64_products_bounded(
                self.num as int,
                other.num as int,
                self.den as int,
                other.den as int,
            );
            lemma_mul_strictly_positive(self.den as int, other.den as int);
        }
        let n: i128 = (self.num as i128) * (other.num as i128);
        let d: i128 = (self.den as i128) * (other.den as i128);
        proof {
            assert(Q { n: n as int, d: d as int } == q_mul(self@, other@));
        }
        reduce_and_fit(n, d)
    }

    /// Exact quotient, characterized by `result * other == self`; succeeds
    /// exactly when the quotient's value is representable.
    pub fn checked_div(&self, other: &Rat) -> (r: Option<Rat>)
        requires
            self.wf(),
            other.wf(),
            !q_is_zero(other@),
        ensures
            r matches Some(c) ==> c.wf() && q_eq(q_mul(c@, other@), self@),
            r is Some <==> q_fits(q_div(self@, other@)),
    {
        proof {
            lemma_i64_products_bounded(
                self.num as int,
                other.den as int,
                0,
                1,
            );
            lemma_i64_products_bounded(
                self.den as int,
                other.num as int,
                0,
                1,
            );
        }
        let mut n: i128 = (self.num as i128) * (other.den as i128);
        let mut d: i128 = (self.den as i128) * (other.num as i128);
        proof {
            assert(d != 0) by (nonlinear_arith)
                requires
                    d == (self.den as int) * (other.num as int),
                    self.den as int > 0,
                    other.num as int != 0,
            ;
        }
        proof {
            assert((other.num as int >= 0) == (d as int >= 0)) by (nonlinear_arith)
                requires
                    d as int == (self.den as int) * (other.num as int),
                    self.den as int > 0,
            ;
        }
        if d < 0 {
            n = -n;
            d = -d;
        }
        proof {
            assert(Q { n: n as int, d: d as int } == q_div(self@, other@));
        }
        let res = reduce_and_fit(n, d);
        proof {
            if res is Some {
                let c = res->0;
                assert(q_eq(q_mul(c@, other@), self@)) by (nonlinear_arith)
                    requires
                        c@.n * (d as int) == (n as int) * c@.d,
                        (n as int == self@.n * other@.d && d as int == self@.d * other@.n) || (
                        n as int == -(self@.n * other@.d) && d as int == -(self@.d
                            * other@.n)),
                        q_wf(self@),
                        q_wf(other@),
                        q_wf(c@),
                ;
            }
        }
        res
    }
}

/// Bound on sums of pairwise products of 64-bit values, used to justify
/// 128-bit intermediate arithmetic.
proof fn lemma_i64_products_bounded(a: int, b: int, c: int, d: int) by (nonlinear_arith)
    requires
        -(i64::MAX as int) <= a <= i64::MAX,
        -(i64::MAX as int) <= b <= i64::MAX,
        -(i64::MAX as int) <= c <= i64::MAX,
        -(i64::MAX as int) <= d <= i64::MAX,
    ensures
        i128::MIN < a * b + c * d < i128::MAX,
        i128::MIN < a * b < i128::MAX,
        i128::MIN < c * d < i128::MAX,
{
}

/// Euclid's algorithm; the result is the greatest common divisor.
fn gcd_u128(a: u128, b: u128) -> (g: u128)
    requires
        b >= 1,
    ensures
        g >= 1,
        a % g == 0,
        b % g == 0,
        g as int == spec_gcd(a as int, b as int),
    decreases a,
{
    if a == 0 {
        b
    } else {
        let g = gcd_u128(b % a, a);
        proof {
            lemma_common_divisor_of_mod(a as int, b as int, g as int);
        }
        g
    }
}

/// If `g` divides `a` and `b % a`, then `g` divides `b`.
proof fn lemma_common_divisor_of_mod(a: int, b: int, g: int)
    requires
        a >= 1,
        g >= 1,
        a % g == 0,
        (b % a) % g == 0,
        b >= 0,
    ensures
        b % g == 0,
{
    lemma_fundamental_div_mod(b, a);
    lemma_fundamental_div_mod(a, g);
    lemma_fundamental_div_mod(b % a, g);
    let k = (a / g) * (b / a) + ((b % a) / g);
    assert(b == k * g) by (nonlinear_arith)
        requires
            b == a * (b / a) + (b % a),
            a == g * (a / g),
            (b % a) == g * ((b % a) / g),
            k == (a / g) * (b / a) + ((b % a) / g),
    ;
    lemma_mod_multiples_basic(k, g);
}

/// Reduce the fraction `n / d` by the greatest common divisor of the
/// magnitudes and return it exactly when the value is representable.
fn reduce_and_fit(n: i128, d: i128) -> (r: Option<Rat>)
    requires
        1 <= d,
        i128::MIN < n,
    ensures
        r matches Some(c) ==> c.wf() && q_eq(c@, Q { n: n as int, d: d as int }),
        r is Some <==> q_fits(Q { n: n as int, d: d as int }),
{
    let neg: bool = n < 0;
    let na: u128 = if neg {
        (-n) as u128
    } else {
        n as u128
    };
    let du: u128 = d as u128;
    let g: u128 = gcd_u128(na, du);
    let qa: u128 = na / g;
    let qd: u128 = du / g;
    proof {
        lemma_fundamental_div_mod(na as int, g as int);
        lemma_fundamental_div_mod(du as int, g as int);
        lemma_reduced_parts(na as int, du as int, g as int, qa as int, qd as int);
    }
    if qa <= (i64::MAX as u128) && qd <= (i64::MAX as u128) {
        let num: i64 = if neg {
            -(qa as i64)
        } else {
            qa as i64
        };
        let den: i64 = qd as i64;
        let c = Rat { num, den };
        proof {
            assert(q_eq(c@, Q { n: n as int, d: d as int })) by (nonlinear_arith)
                requires
                    na as int == (g as int) * (qa as int),
                    du as int == (g as int) * (qd as int),
                    g as int >= 1,
                    (neg ==> na as int == -(n as int) && c@.n == -(qa as int)),
                    (!neg ==> na as int == n as int && c@.n == qa as int),
                    c@.d == qd as int,
                    d as int == du as int,
            ;
        }
        proof {
            assert(1 <= c@.d <= i64::MAX && -(i64::MAX as int) <= c@.n <= i64::MAX);
            assert(c@.n * (Q { n: n as int, d: d as int }).d == (Q {
                n: n as int,
                d: d as int,
            }).n * c@.d);
            assert(q_fits(Q { n: n as int, d: d as int }));
        }
        Some(c)
    } else {
        proof {
            if q_fits(Q { n: n as int, d: d as int }) {
                let q = Q { n: n as int, d: d as int };
                let (n2, d2) = choose|n2: int, d2: int|
                    #![trigger n2 * q.d, q.n * d2]
                    1 <= d2 <= i64::MAX && -(i64::MAX as int) <= n2 <= i64::MAX && n2 * q.d
                        == q.n * d2;
                let m2 = if n2 >= 0 {
                    n2
                } else {
                    -n2
                };
                // the same value on magnitudes
                assert((na as int) * d2 == m2 * (du as int)) by (nonlinear_arith)
                    requires
                        n2 * (d as int) == (n as int) * d2,
                        du as int == d as int,
                        d as int >= 1,
                        d2 >= 1,
                        (neg ==> na as int == -(n as int) && (n as int) < 0),
                        (!neg ==> na as int == n as int && (n as int) >= 0),
                        m2 == (if n2 >= 0 { n2 } else { -n2 }),
                ;
                lemma_reduced_minimal(na as int, du as int, m2, d2);
                assert(false);
            }
        }
        None
    }
}

/// After dividing by a common divisor the parts are no larger in magnitude,
/// and the denominator stays positive.
proof fn lemma_reduced_parts(na: int, du: int, g: int, qa: int, qd: int) by (nonlinear_arith)
    requires
        g >= 1,
        na >= 0,
        du >= 1,
        na == g * qa + na % g,
        du == g * qd + du % g,
        na % g == 0,
        du % g == 0,
        qa == na / g,
        qd == du / g,
    ensures
        0 <= qa <= na,
        1 <= qd <= du,
{
}

} // verus!
