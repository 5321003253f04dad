//! Exact complex scalars: pairs of rationals.

use vstd::prelude::*;

verus! {

use crate::rational::{
    lemma_q_add_congruence, lemma_q_add_wf, lemma_q_eq_trans, lemma_q_fits_congruent,
    lemma_q_mul_congruence, lemma_q_mul_wf, lemma_q_sub_congruence, lemma_q_sub_wf, q_add, q_eq,
    q_fits, q_is_zero, q_mul, q_neg, q_sub, q_wf, q_zero, Q, Rat,
};

/// A complex number of fractions: the specification value of `Cx`.
pub ghost struct QC {
    pub re: Q,
    pub im: Q,
}

pub open spec fn qc_wf(a: QC) -> bool {
    q_wf(a.re) && q_wf(a.im)
}

/// Equality of complex fractions, componentwise.
pub open spec fn qc_eq(a: QC, b: QC) -> bool {
    q_eq(a.re, b.re) && q_eq(a.im, b.im)
}

pub open spec fn qc_zero() -> QC {
    QC { re: q_zero(), im: q_zero() }
}

pub open spec fn qc_one() -> QC {
    QC { re: crate::rational::q_one(), im: q_zero() }
}

pub open spec fn qc_is_zero(a: QC) -> bool {
    q_is_zero(a.re) && q_is_zero(a.im)
}

pub open spec fn qc_add(a: QC, b: QC) -> QC {
    QC { re: q_add(a.re, b.re), im: q_add(a.im, b.im) }
}

pub open spec fn qc_mul(a: QC, b: QC) -> QC {
    QC { re: q_sub(q_mul(a.re, b.re), q_mul(a.im, b.im)), im: q_add(
        q_mul(a.re, b.im),
        q_mul(a.im, b.re),
    ) }
}

/// The squared magnitude `re^2 + im^2` of a complex fraction.
pub open spec fn qc_norm_sqr(a: QC) -> Q {
    q_add(q_mul(a.re, a.re), q_mul(a.im, a.im))
}

/// Both components of the complex sum are representable.
pub open spec fn qc_add_fits(a: QC, b: QC) -> bool {
    q_fits(q_add(a.re, b.re)) && q_fits(q_add(a.im, b.im))
}

/// Every value the complex product forms is representable: the four
/// component products and the combined real and imaginary parts.
pub open spec fn qc_mul_fits(a: QC, b: QC) -> bool {
    &&& q_fits(q_mul(a.re, b.re))
    &&& q_fits(q_mul(a.im, b.im))
    &&& q_fits(q_mul(a.re, b.im))
    &&& q_fits(q_mul(a.im, b.re))
    &&& q_fits(q_sub(q_mul(a.re, b.re), q_mul(a.im, b.im)))
    &&& q_fits(q_add(q_mul(a.re, b.im), q_mul(a.im, b.re)))
}

/// Every value the squared magnitude forms is representable.
pub open spec fn qc_norm_fits(a: QC) -> bool {
    q_fits(q_mul(a.re, a.re)) && q_fits(q_mul(a.im, a.im)) && q_fits(qc_norm_sqr(a))
}

pub proof fn lemma_q_neg_congruence(a: Q, a2: Q)
    requires
        q_eq(a, a2),
    ensures
        q_eq(q_neg(a), q_neg(a2)),
{
    assert((-a.n) * a2.d == -(a.n * a2.d)) by (nonlinear_arith);
    assert((-a2.n) * a.d == -(a2.n * a.d)) by (nonlinear_arith);
}

pub proof fn lemma_qc_add_wf(a: QC, b: QC)
    requires
        qc_wf(a),
        qc_wf(b),
    ensures
        qc_wf(qc_add(a, b)),
{
    lemma_q_add_wf(a.re, b.re);
    lemma_q_add_wf(a.im, b.im);
}

pub proof fn lemma_qc_mul_wf(a: QC, b: QC)
    requires
        qc_wf(a),
        qc_wf(b),
    ensures
        qc_wf(qc_mul(a, b)),
{
    lemma_q_mul_wf(a.re, b.re);
    lemma_q_mul_wf(a.im, b.im);
    lemma_q_mul_wf(a.re, b.im);
    lemma_q_mul_wf(a.im, b.re);
    lemma_q_add_wf(q_mul(a.re, b.im), q_mul(a.im, b.re));
    lemma_q_add_wf(q_mul(a.re, b.re), q_neg(q_mul(a.im, b.im)));
}

pub proof fn lemma_qc_norm_sqr_wf(a: QC)
    requires
        qc_wf(a),
    ensures
        q_wf(qc_norm_sqr(a)),
{
    lemma_q_mul_wf(a.re, a.re);
    lemma_q_mul_wf(a.im, a.im);
    lemma_q_add_wf(q_mul(a.re, a.re), q_mul(a.im, a.im));
}

pub proof fn lemma_qc_add_congruence(a: QC, a2: QC, b: QC, b2: QC)
    requires
        qc_wf(a),
        qc_wf(a2),
        qc_wf(b),
        qc_wf(b2),
        qc_eq(a, a2),
        qc_eq(b, b2),
    ensures
        qc_eq(qc_add(a, b), qc_add(a2, b2)),
{
    lemma_q_add_congruence(a.re, a2.re, b.re, b2.re);
    lemma_q_add_congruence(a.im, a2.im, b.im, b2.im);
}

pub proof fn lemma_qc_mul_congruence(a: QC, a2: QC, b: QC, b2: QC)
    requires
        qc_wf(a),
        qc_wf(a2),
        qc_wf(b),
        qc_wf(b2),
        qc_eq(a, a2),
        qc_eq(b, b2),
    ensures
        qc_eq(qc_mul(a, b), qc_mul(a2, b2)),
{
    lemma_q_mul_congruence(a.re, a2.re, b.re, b2.re);
    lemma_q_mul_congruence(a.im, a2.im, b.im, b2.im);
    lemma_q_mul_congruence(a.re, a2.re, b.im, b2.im);
    lemma_q_mul_congruence(a.im, a2.im, b.re, b2.re);
    lemma_q_mul_wf(a.re, b.re);
    lemma_q_mul_wf(a2.re, b2.re);
    lemma_q_mul_wf(a.im, b.im);
    lemma_q_mul_wf(a2.im, b2.im);
    lemma_q_neg_congruence(q_mul(a.im, b.im), q_mul(a2.im, b2.im));
    lemma_q_add_congruence(
        q_mul(a.re, b.re),
        q_mul(a2.re, b2.re),
        q_neg(q_mul(a.im, b.im)),
        q_neg(q_mul(a2.im, b2.im)),
    );
    lemma_q_mul_wf(a.re, b.im);
    lemma_q_mul_wf(a2.re, b2.im);
    lemma_q_mul_wf(a.im, b.re);
    lemma_q_mul_wf(a2.im, b2.re);
    lemma_q_add_congruence(
        q_mul(a.re, b.im),
        q_mul(a2.re, b2.im),
        q_mul(a.im, b.re),
        q_mul(a2.im, b2.re),
    );
}

/// A squared magnitude is never negative.
pub proof fn lemma_qc_norm_sqr_nonneg(a: QC) by (nonlinear_arith)
    requires
        qc_wf(a),
    ensures
        crate::rational::q_le(q_zero(), qc_norm_sqr(a)),
{
}

/// An executable complex scalar.
#[derive(Debug, Clone, Copy)]
pub struct Cx {
    pub re: Rat,
    pub im: Rat,
}

impl View for Cx {
    type V = QC;

    open spec fn view(&self) -> QC {
        QC { re: self.re@, im: self.im@ }
    }
}

impl Cx {
    pub open spec fn wf(self) -> bool {
        self.re.wf() && self.im.wf()
    }

    pub fn new(re: Rat, im: Rat) -> (r: Cx)
        requires
            re.wf(),
            im.wf(),
        ensures
            r.wf(),
            r@ == (QC { re: re@, im: im@ }),
    {
        Cx { re, im }
    }

    pub fn zero() -> (r: Cx)
        ensures
            r.wf(),
            r@ == qc_zero(),
    {
        Cx { re: Rat::zero(), im: Rat::zero() }
    }

    pub fn one() -> (r: Cx)
        ensures
            r.wf(),
            r@ == qc_one(),
    {
        Cx { re: Rat::one(), im: Rat::zero() }
    }

    pub fn is_zero(&self) -> (r: bool)
        ensures
            r == qc_is_zero(self@),
    {
        self.re.is_zero() && self.im.is_zero()
    }

    /// Exact complex sum; succeeds exactly when both components are
    /// representable.
    pub fn checked_add(&self, other: &Cx) -> (r: Option<Cx>)
        requires
            self.wf(),
            other.wf(),
        ensures
            r matches Some(c) ==> c.wf() && qc_eq(c@, qc_add(self@, other@)),
            r is Some <==> qc_add_fits(self@, other@),
    {
        let re = match self.re.checked_add(&other.re) {
            Some(x) => x,
            None => {
                return None;
            },
        };
        let im = match self.im.checked_add(&other.im) {
            Some(x) => x,
            None => {
                return None;
            },
        };
        Some(Cx { re, im })
    }

    /// Exact complex product; succeeds exactly when every value it forms is
    /// representable.
    pub fn checked_mul(&self, other: &Cx) -> (r: Option<Cx>)
        requires
            self.wf(),
            other.wf(),
        ensures
            r matches Some(c) ==> c.wf() && qc_eq(c@, qc_mul(self@, other@)),
            r is Some <==> qc_mul_fits(self@, other@),
    {
        let rr = match self.re.checked_mul(&other.re) {
            Some(x) => x,
            None => {
                return None;
            },
        };
        let ii = match self.im.checked_mul(&other.im) {
            Some(x) => x,
            None => {
                return None;
            },
        };
        let ri = match self.re.checked_mul(&other.im) {
            Some(x) => x,
            None => {
                return None;
            },
        };
        let ir = match self.im.checked_mul(&other.re) {
            Some(x) => x,
            None => {
                return None;
            },
        };
        proof {
            // the representatives subtract and add to the same values as
            // the exact products
            lemma_q_mul_wf(self@.re, other@.re);
            lemma_q_mul_wf(self@.im, other@.im);
            lemma_q_mul_wf(self@.re, other@.im);
            lemma_q_mul_wf(self@.im, other@.re);
            lemma_q_sub_congruence(
                rr@,
                q_mul(self@.re, other@.re),
                ii@,
                q_mul(self@.im, other@.im),
            );
            lemma_q_sub_wf(rr@, ii@);
            lemma_q_sub_wf(q_mul(self@.re, other@.re), q_mul(self@.im, other@.im));
            lemma_q_fits_congruent(
                q_sub(rr@, ii@),
                q_sub(q_mul(self@.re, other@.re), q_mul(self@.im, other@.im)),
            );
            lemma_q_add_congruence(
                ri@,
                q_mul(self@.re, other@.im),
                ir@,
                q_mul(self@.im, other@.re),
            );
            lemma_q_add_wf(ri@, ir@);
            lemma_q_add_wf(q_mul(self@.re, other@.im), q_mul(self@.im, other@.re));
            lemma_q_fits_congruent(
                q_add(ri@, ir@),
                q_add(q_mul(self@.re, other@.im), q_mul(self@.im, other@.re)),
            );
        }
        let re = match rr.checked_sub(&ii) {
            Some(x) => x,
            None => {
                return None;
            },
        };
        let im = match ri.checked_add(&ir) {
            Some(x) => x,
            None => {
                return None;
            },
        };
        proof {
            // the components are congruent to the exact real and imaginary
            // parts of the product
            lemma_q_mul_wf(self@.re, other@.re);
            lemma_q_mul_wf(self@.im, other@.im);
            lemma_q_mul_wf(self@.re, other@.im);
            lemma_q_mul_wf(self@.im, other@.re);
            lemma_q_neg_congruence(ii@, q_mul(self@.im, other@.im));
            lemma_q_add_congruence(
                rr@,
                q_mul(self@.re, other@.re),
                q_neg(ii@),
                q_neg(q_mul(self@.im, other@.im)),
            );
            lemma_q_add_wf(rr@, q_neg(ii@));
            lemma_q_add_wf(q_mul(self@.re, other@.re), q_neg(q_mul(self@.im, other@.im)));
            lemma_q_eq_trans(re@, q_add(rr@, q_neg(ii@)), qc_mul(self@, other@).re);
            lemma_q_add_congruence(
                ri@,
                q_mul(self@.re, other@.im),
                ir@,
                q_mul(self@.im, other@.re),
            );
            lemma_q_add_wf(ri@, ir@);
            lemma_q_add_wf(q_mul(self@.re, other@.im), q_mul(self@.im, other@.re));
            lemma_q_eq_trans(im@, q_add(ri@, ir@), qc_mul(self@, other@).im);
        }
        Some(Cx { re, im })
    }

    /// The exact squared magnitude; succeeds exactly when every value it
    /// forms is representable.
    pub fn norm_sqr(&self) -> (r: Option<Rat>)
        requires
            self.wf(),
        ensures
            r matches Some(c) ==> c.wf() && q_eq(c@, qc_norm_sqr(self@)),
            r is Some <==> qc_norm_fits(self@),
    {
        let rr = match self.re.checked_mul(&self.re) {
            Some(x) => x,
            None => {
                return None;
            },
        };
        let ii = match self.im.checked_mul(&self.im) {
            Some(x) => x,
            None => {
                return None;
            },
        };
        proof {
            // the representatives add to the same value as the exact
            // squared components
            lemma_q_mul_wf(self@.re, self@.re);
            lemma_q_mul_wf(self@.im, self@.im);
            lemma_q_add_congruence(rr@, q_mul(self@.re, self@.re), ii@, q_mul(self@.im, self@.im));
            lemma_q_add_wf(rr@, ii@);
            lemma_q_add_wf(q_mul(self@.re, self@.re), q_mul(self@.im, self@.im));
            lemma_q_fits_congruent(q_add(rr@, ii@), qc_norm_sqr(self@));
        }
        let total = match rr.checked_add(&ii) {
            Some(x) => x,
            None => {
                return None;
            },
        };
        proof {
            lemma_q_mul_wf(self@.re, self@.re);
            lemma_q_mul_wf(self@.im, self@.im);
            lemma_q_add_congruence(rr@, q_mul(self@.re, self@.re), ii@, q_mul(self@.im, self@.im));
            lemma_q_add_wf(rr@, ii@);
            lemma_q_add_wf(q_mul(self@.re, self@.re), q_mul(self@.im, self@.im));
            lemma_q_eq_trans(total@, q_add(rr@, ii@), qc_norm_sqr(self@));
        }
        Some(total)
    }
}

} // verus!
