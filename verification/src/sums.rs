//! Sums of rational sequences.
//!
//! The conservation laws of the engine are statements about sums: a column of
//! a stochastic operator sums to one, a state vector keeps its total mass
//! under a step.  This module defines the specification-level sum of a
//! sequence of fractions and proves the algebraic facts the engine needs:
//! well-formedness, congruence, linearity, scaling, and the exchange of a
//! double sum with its transpose.

use vstd::prelude::*;

verus! {

use crate::rational::{
    lemma_q_add_congruence, lemma_q_add_rearrange, lemma_q_add_wf, lemma_q_add_zero,
    lemma_q_eq_trans, lemma_q_fits_congruent, lemma_q_mul_distributes, lemma_q_mul_wf,
    lemma_q_mul_zero, q_add, q_eq, q_fits, q_is_zero, q_mul, q_wf, q_zero, Q,
};

/// Every fraction of the sequence is well-formed.
pub open spec fn all_wf(s: Seq<Q>) -> bool {
    forall|i: int| 0 <= i < s.len() ==> q_wf(#[trigger] s[i])
}

/// The sum of a sequence of fractions, folded from the left.
pub open spec fn q_sum(s: Seq<Q>) -> Q
    decreases s.len(),
{
    if s.len() == 0 {
        q_zero()
    } else {
        q_add(q_sum(s.drop_last()), s.last())
    }
}

pub proof fn lemma_q_sum_wf(s: Seq<Q>)
    requires
        all_wf(s),
    ensures
        q_wf(q_sum(s)),
    decreases s.len(),
{
    if s.len() > 0 {
        lemma_q_sum_wf(s.drop_last());
        lemma_q_add_wf(q_sum(s.drop_last()), s.last());
    }
}

/// A sequence of zero-valued fractions sums to a zero-valued fraction.
pub proof fn lemma_q_sum_zero(s: Seq<Q>)
    requires
        forall|i: int| 0 <= i < s.len() ==> q_is_zero(#[trigger] s[i]),
    ensures
        q_is_zero(q_sum(s)),
    decreases s.len(),
{
    if s.len() > 0 {
        lemma_q_sum_zero(s.drop_last());
    }
}

/// A sequence that is zero everywhere but possibly at one position sums to
/// that position's value.
pub proof fn lemma_q_sum_single(s: Seq<Q>, idx: int)
    requires
        0 <= idx < s.len(),
        all_wf(s),
        forall|k: int| 0 <= k < s.len() && k != idx ==> q_is_zero(#[trigger] s[k]),
    ensures
        q_eq(q_sum(s), s[idx]),
    decreases s.len(),
{
    let s0 = s.drop_last();
    lemma_q_sum_wf(s);
    lemma_q_sum_wf(s0);
    if idx == s.len() - 1 {
        lemma_q_sum_zero(s0);
        lemma_q_add_zero(s.last(), q_sum(s0));
    } else {
        lemma_q_sum_single(s0, idx);
        lemma_q_add_zero(q_sum(s0), s.last());
        lemma_q_eq_trans(q_sum(s), q_sum(s0), s[idx]);
    }
}

/// Every prefix of the sequence, the whole included, has a representable
/// sum.
pub open spec fn partial_sums_fit(s: Seq<Q>) -> bool {
    forall|k: int| 0 <= k <= s.len() ==> q_fits(#[trigger] q_sum(s.take(k)))
}

/// Prefix-sum representability is a property of the values alone.
pub proof fn lemma_partial_sums_fit_congruent(s: Seq<Q>, t: Seq<Q>)
    requires
        s.len() == t.len(),
        all_wf(s),
        all_wf(t),
        forall|i: int| 0 <= i < s.len() ==> q_eq(#[trigger] s[i], #[trigger] t[i]),
    ensures
        partial_sums_fit(s) == partial_sums_fit(t),
{
    assert forall|k: int| 0 <= k <= s.len() implies q_fits(#[trigger] q_sum(s.take(k))) == q_fits(
        #[trigger] q_sum(t.take(k)),
    ) by {
        assert forall|i: int| 0 <= i < k implies q_wf(#[trigger] s.take(k)[i]) && q_wf(
            t.take(k)[i],
        ) && q_eq(s.take(k)[i], t.take(k)[i]) by {
            assert(s.take(k)[i] == s[i]);
            assert(t.take(k)[i] == t[i]);
        }
        lemma_q_sum_congruence(s.take(k), t.take(k));
        lemma_q_sum_wf(s.take(k));
        lemma_q_sum_wf(t.take(k));
        lemma_q_fits_congruent(q_sum(s.take(k)), q_sum(t.take(k)));
    }
    if partial_sums_fit(s) {
        assert forall|k: int| 0 <= k <= t.len() implies q_fits(#[trigger] q_sum(t.take(k))) by {
            assert(q_fits(q_sum(s.take(k))));
        }
    }
    if partial_sums_fit(t) {
        assert forall|k: int| 0 <= k <= s.len() implies q_fits(#[trigger] q_sum(s.take(k))) by {
            assert(q_fits(q_sum(t.take(k))));
        }
    }
}

/// Sums of pointwise-equivalent sequences are equivalent.
pub proof fn lemma_q_sum_congruence(s: Seq<Q>, t: Seq<Q>)
    requires
        s.len() == t.len(),
        all_wf(s),
        all_wf(t),
        forall|i: int| 0 <= i < s.len() ==> q_eq(#[trigger] s[i], #[trigger] t[i]),
    ensures
        q_eq(q_sum(s), q_sum(t)),
    decreases s.len(),
{
    if s.len() == 0 {
    } else {
        lemma_q_sum_congruence(s.drop_last(), t.drop_last());
        lemma_q_sum_wf(s.drop_last());
        lemma_q_sum_wf(t.drop_last());
        lemma_q_add_congruence(q_sum(s.drop_last()), q_sum(t.drop_last()), s.last(), t.last());
    }
}

/// The pointwise sum of two sequences of equal length.
pub open spec fn pointwise_add(u: Seq<Q>, v: Seq<Q>) -> Seq<Q> {
    Seq::new(u.len(), |i: int| q_add(u[i], v[i]))
}

/// Summation is linear: the sum of a pointwise sum is the sum of the sums.
pub proof fn lemma_q_sum_pointwise_add(u: Seq<Q>, v: Seq<Q>)
    requires
        u.len() == v.len(),
        all_wf(u),
        all_wf(v),
    ensures
        q_eq(q_sum(pointwise_add(u, v)), q_add(q_sum(u), q_sum(v))),
    decreases u.len(),
{
    let w = pointwise_add(u, v);
    if u.len() == 0 {
        assert(q_is_zero(q_add(q_sum(u), q_sum(v))));
    } else {
        let u0 = u.drop_last();
        let v0 = v.drop_last();
        assert(w.drop_last() =~= pointwise_add(u0, v0));
        lemma_q_sum_pointwise_add(u0, v0);
        lemma_q_sum_wf(u0);
        lemma_q_sum_wf(v0);
        lemma_q_add_wf(q_sum(u0), q_sum(v0));
        assert forall|i: int| 0 <= i < w.len() implies q_wf(#[trigger] w[i]) by {
            lemma_q_add_wf(u[i], v[i]);
        }
        assert(all_wf(w));
        lemma_q_sum_wf(w.drop_last());
        lemma_q_add_wf(u.last(), v.last());
        // sum(w) == sum(w0) + (u_last + v_last)
        //        ~~ (sum(u0) + sum(v0)) + (u_last + v_last)    congruence
        //        ~~ (sum(u0) + u_last) + (sum(v0) + v_last)    regrouping
        lemma_q_add_congruence(
            q_sum(w.drop_last()),
            q_add(q_sum(u0), q_sum(v0)),
            w.last(),
            w.last(),
        );
        lemma_q_add_rearrange(q_sum(u0), q_sum(v0), u.last(), v.last());
        lemma_q_add_wf(q_sum(w.drop_last()), w.last());
        lemma_q_add_wf(q_add(q_sum(u0), q_sum(v0)), w.last());
        lemma_q_add_wf(q_sum(u0), u.last());
        lemma_q_add_wf(q_sum(v0), v.last());
        lemma_q_add_wf(q_add(q_sum(u0), u.last()), q_add(q_sum(v0), v.last()));
        lemma_q_eq_trans(
            q_sum(w),
            q_add(q_add(q_sum(u0), q_sum(v0)), q_add(u.last(), v.last())),
            q_add(q_add(q_sum(u0), u.last()), q_add(q_sum(v0), v.last())),
        );
    }
}

/// A sum of nonnegative fractions is nonnegative.
pub proof fn lemma_q_sum_nonneg(s: Seq<Q>)
    requires
        all_wf(s),
        forall|k: int| 0 <= k < s.len() ==> crate::rational::q_le(q_zero(), #[trigger] s[k]),
    ensures
        crate::rational::q_le(q_zero(), q_sum(s)),
    decreases s.len(),
{
    if s.len() > 0 {
        lemma_q_sum_nonneg(s.drop_last());
        lemma_q_sum_wf(s.drop_last());
        crate::rational::lemma_q_add_nonneg(q_sum(s.drop_last()), s.last());
    }
}

/// A sum of nonnegative fractions is zero only when every element is.
pub proof fn lemma_q_sum_zero_each(s: Seq<Q>)
    requires
        all_wf(s),
        forall|k: int| 0 <= k < s.len() ==> crate::rational::q_le(q_zero(), #[trigger] s[k]),
        q_is_zero(q_sum(s)),
    ensures
        forall|k: int| 0 <= k < s.len() ==> q_is_zero(#[trigger] s[k]),
    decreases s.len(),
{
    if s.len() > 0 {
        lemma_q_sum_nonneg(s.drop_last());
        lemma_q_sum_wf(s.drop_last());
        crate::rational::lemma_q_add_zero_split(q_sum(s.drop_last()), s.last());
        lemma_q_sum_zero_each(s.drop_last());
        assert forall|k: int| 0 <= k < s.len() implies q_is_zero(#[trigger] s[k]) by {
            if k < s.len() - 1 {
                assert(s.drop_last()[k] == s[k]);
                assert(q_is_zero(s.drop_last()[k]));
            }
        }
    }
}

/// The sequence negated elementwise.
pub open spec fn pointwise_neg(s: Seq<Q>) -> Seq<Q> {
    Seq::new(s.len(), |i: int| crate::rational::q_neg(s[i]))
}

/// The sum of the negated sequence is the negated sum, on the nose.
pub proof fn lemma_q_sum_neg(s: Seq<Q>)
    ensures
        q_sum(pointwise_neg(s)) == crate::rational::q_neg(q_sum(s)),
    decreases s.len(),
{
    let w = pointwise_neg(s);
    if s.len() == 0 {
    } else {
        assert(w.drop_last() =~= pointwise_neg(s.drop_last()));
        lemma_q_sum_neg(s.drop_last());
        crate::rational::lemma_q_neg_add(q_sum(s.drop_last()), s.last());
    }
}

/// The sequence scaled elementwise by a fraction.
pub open spec fn scale_seq(c: Q, s: Seq<Q>) -> Seq<Q> {
    Seq::new(s.len(), |i: int| q_mul(c, s[i]))
}

/// A common factor moves out of a sum.
pub proof fn lemma_q_sum_scale(c: Q, s: Seq<Q>)
    requires
        q_wf(c),
        all_wf(s),
    ensures
        q_eq(q_sum(scale_seq(c, s)), q_mul(c, q_sum(s))),
    decreases s.len(),
{
    let w = scale_seq(c, s);
    if s.len() == 0 {
        lemma_q_mul_zero(c);
        assert(w.len() == 0);
        assert(q_sum(w) == q_zero());
        assert(q_is_zero(q_mul(c, q_sum(s))));
        assert(q_eq(q_sum(w), q_mul(c, q_sum(s))));
    } else {
        let s0 = s.drop_last();
        assert(w.drop_last() =~= scale_seq(c, s0));
        lemma_q_sum_scale(c, s0);
        lemma_q_sum_wf(s0);
        lemma_q_mul_wf(c, q_sum(s0));
        assert forall|i: int| 0 <= i < w.len() implies q_wf(#[trigger] w[i]) by {
            lemma_q_mul_wf(c, s[i]);
        }
        assert(all_wf(w));
        lemma_q_sum_wf(w.drop_last());
        lemma_q_mul_wf(c, s.last());
        // sum(w) == sum(w0) + c*s_last ~~ c*sum(s0) + c*s_last ~~ c*(sum(s0) + s_last)
        lemma_q_add_congruence(
            q_sum(w.drop_last()),
            q_mul(c, q_sum(s0)),
            w.last(),
            w.last(),
        );
        lemma_q_mul_distributes(q_sum(s0), s.last(), c);
        lemma_q_add_wf(q_sum(w.drop_last()), w.last());
        lemma_q_add_wf(q_mul(c, q_sum(s0)), q_mul(c, s.last()));
        lemma_q_add_wf(q_sum(s0), s.last());
        lemma_q_mul_wf(c, q_add(q_sum(s0), s.last()));
        crate::rational::lemma_q_eq_symmetric(
            q_mul(c, q_add(q_sum(s0), s.last())),
            q_add(q_mul(c, q_sum(s0)), q_mul(c, s.last())),
        );
        lemma_q_eq_trans(
            q_sum(w),
            q_add(q_mul(c, q_sum(s0)), q_mul(c, s.last())),
            q_mul(c, q_add(q_sum(s0), s.last())),
        );
    }
}

/// A rectangular grid of fractions: every row has `cols` entries.
pub open spec fn rectangular(m: Seq<Seq<Q>>, cols: nat) -> bool {
    forall|i: int| 0 <= i < m.len() ==> (#[trigger] m[i]).len() == cols
}

/// Every entry of the grid is well-formed.
pub open spec fn grid_wf(m: Seq<Seq<Q>>) -> bool {
    forall|i: int| 0 <= i < m.len() ==> all_wf(#[trigger] m[i])
}

/// The sequence of row sums of a grid.
pub open spec fn row_sums(m: Seq<Seq<Q>>) -> Seq<Q> {
    Seq::new(m.len(), |i: int| q_sum(m[i]))
}

/// Column `j` of a grid as a sequence.
pub open spec fn column(m: Seq<Seq<Q>>, j: int) -> Seq<Q> {
    Seq::new(m.len(), |i: int| m[i][j])
}

/// The sequence of column sums of a grid with `cols` columns.
pub open spec fn col_sums(m: Seq<Seq<Q>>, cols: nat) -> Seq<Q> {
    Seq::new(cols, |j: int| q_sum(column(m, j)))
}

pub proof fn lemma_row_sums_wf(m: Seq<Seq<Q>>)
    requires
        grid_wf(m),
    ensures
        all_wf(row_sums(m)),
{
    assert forall|i: int| 0 <= i < m.len() implies q_wf(#[trigger] row_sums(m)[i]) by {
        lemma_q_sum_wf(m[i]);
    }
}

pub proof fn lemma_col_sums_wf(m: Seq<Seq<Q>>, cols: nat)
    requires
        grid_wf(m),
        rectangular(m, cols),
    ensures
        all_wf(col_sums(m, cols)),
{
    assert forall|j: int| 0 <= j < cols implies q_wf(#[trigger] col_sums(m, cols)[j]) by {
        assert(all_wf(column(m, j)));
        lemma_q_sum_wf(column(m, j));
    }
}

/// Exchanging the order of a double sum: summing all row sums gives the same
/// total as summing all column sums.
pub proof fn lemma_q_sum_exchange(m: Seq<Seq<Q>>, cols: nat)
    requires
        rectangular(m, cols),
        grid_wf(m),
    ensures
        q_eq(q_sum(row_sums(m)), q_sum(col_sums(m, cols))),
    decreases m.len(),
{
    if m.len() == 0 {
        assert forall|j: int| 0 <= j < cols implies q_is_zero(#[trigger] col_sums(m, cols)[j]) by {
            assert(column(m, j) =~= Seq::<Q>::empty());
        }
        lemma_q_sum_zero(col_sums(m, cols));
        assert(row_sums(m).len() == 0);
        assert(q_sum(row_sums(m)) == q_zero());
        assert(q_eq(q_sum(row_sums(m)), q_sum(col_sums(m, cols))));
    } else {
        let m0 = m.drop_last();
        let r = m.last();
        assert(all_wf(m[m.len() - 1]));
        assert(all_wf(r));
        assert(rectangular(m0, cols));
        assert(grid_wf(m0));
        // the row-sum side peels off the last row
        assert(row_sums(m).drop_last() =~= row_sums(m0));
        assert(row_sums(m).last() == q_sum(r));
        // each column of m is the column of m0 extended by the last row's entry
        assert forall|j: int| 0 <= j < cols implies #[trigger] col_sums(m, cols)[j] == q_add(
            col_sums(m0, cols)[j],
            r[j],
        ) by {
            assert(column(m, j).drop_last() =~= column(m0, j));
            assert(column(m, j).last() == r[j]);
        }
        assert(col_sums(m, cols) =~= pointwise_add(col_sums(m0, cols), r));
        lemma_col_sums_wf(m0, cols);
        lemma_row_sums_wf(m0);
        lemma_q_sum_pointwise_add(col_sums(m0, cols), r);
        lemma_q_sum_exchange(m0, cols);
        // sum(col_sums(m)) ~~ sum(col_sums(m0)) + sum(r)
        //                  ~~ sum(row_sums(m0)) + sum(r) == sum(row_sums(m))
        lemma_q_sum_wf(col_sums(m0, cols));
        lemma_q_sum_wf(row_sums(m0));
        lemma_q_sum_wf(r);
        crate::rational::lemma_q_eq_symmetric(q_sum(row_sums(m0)), q_sum(col_sums(m0, cols)));
        lemma_q_add_congruence(
            q_sum(row_sums(m0)),
            q_sum(col_sums(m0, cols)),
            q_sum(r),
            q_sum(r),
        );
        lemma_q_add_wf(q_sum(row_sums(m0)), q_sum(r));
        lemma_q_add_wf(q_sum(col_sums(m0, cols)), q_sum(r));
        lemma_col_sums_wf(m, cols);
        lemma_q_sum_wf(col_sums(m, cols));
        crate::rational::lemma_q_eq_symmetric(
            q_sum(pointwise_add(col_sums(m0, cols), r)),
            q_add(q_sum(col_sums(m0, cols)), q_sum(r)),
        );
        lemma_q_eq_trans(
            q_sum(row_sums(m)),
            q_add(q_sum(col_sums(m0, cols)), q_sum(r)),
            q_sum(pointwise_add(col_sums(m0, cols), r)),
        );
    }
}

} // verus!
