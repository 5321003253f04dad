//! Dense complex vectors and matrices.

use vstd::prelude::*;

verus! {

use crate::complex::{
    lemma_qc_add_congruence, lemma_qc_add_wf, lemma_qc_mul_wf, qc_add, qc_eq, qc_mul, qc_mul_fits,
    qc_wf, qc_zero, Cx, QC,
};
use crate::rational::{lemma_q_eq_trans, lemma_q_fits_congruent, q_add, q_eq, q_fits, Q};
use crate::sums::{partial_sums_fit, q_sum};

/// The complex fractions denoted by a sequence of scalars.
pub open spec fn cxs_view(v: Seq<Cx>) -> Seq<QC> {
    v.map(|i: int, x: Cx| x@)
}

pub open spec fn cxs_wf(v: Seq<Cx>) -> bool {
    forall|i: int| 0 <= i < v.len() ==> (#[trigger] v[i]).wf()
}

/// The real parts of a sequence of complex fractions.
pub open spec fn res_of(s: Seq<QC>) -> Seq<Q> {
    s.map(|i: int, c: QC| c.re)
}

/// The imaginary parts of a sequence of complex fractions.
pub open spec fn ims_of(s: Seq<QC>) -> Seq<Q> {
    s.map(|i: int, c: QC| c.im)
}

/// The sum of a sequence of complex fractions, componentwise.
pub open spec fn qc_sum(s: Seq<QC>) -> QC {
    QC { re: q_sum(res_of(s)), im: q_sum(ims_of(s)) }
}

/// The elementwise product of two equally long complex sequences.
pub open spec fn qc_prod_seq(r: Seq<QC>, v: Seq<QC>) -> Seq<QC> {
    Seq::new(r.len(), |j: int| qc_mul(r[j], v[j]))
}

/// Column `j` of a complex grid as a sequence.
pub open spec fn column_qc(m: Seq<Seq<QC>>, j: int) -> Seq<QC> {
    Seq::new(m.len(), |i: int| m[i][j])
}

/// Every prefix of both component running totals is representable.
pub open spec fn qc_sums_fit(s: Seq<QC>) -> bool {
    partial_sums_fit(res_of(s)) && partial_sums_fit(ims_of(s))
}

/// Every elementwise complex product of the two sequences is computable.
pub open spec fn cprods_fit(a: Seq<QC>, b: Seq<QC>) -> bool {
    forall|k: int| 0 <= k < a.len() ==> qc_mul_fits(#[trigger] a[k], #[trigger] b[k])
}

/// The complex dot product of the two sequences is computable.
pub open spec fn cdot_fits(r: Seq<QC>, v: Seq<QC>) -> bool {
    cprods_fit(r, v) && qc_sums_fit(qc_prod_seq(r, v))
}

/// The complex matrix-vector product is computable.
pub open spec fn capply_fits(m: Seq<Seq<QC>>, v: Seq<QC>) -> bool {
    forall|i: int| 0 <= i < m.len() ==> cdot_fits(#[trigger] m[i], v)
}

/// The complex matrix product is computable.
pub open spec fn cmatmul_fits(a: Seq<Seq<QC>>, b: Seq<Seq<QC>>, bcols: int) -> bool {
    forall|i: int, j: int|
        0 <= i < a.len() && 0 <= j < bcols ==> cdot_fits(
            #[trigger] a[i],
            #[trigger] column_qc(b, j),
        )
}

pub proof fn lemma_qc_seq_wf(s: Seq<QC>)
    requires
        forall|i: int| 0 <= i < s.len() ==> qc_wf(#[trigger] s[i]),
    ensures
        crate::sums::all_wf(res_of(s)),
        crate::sums::all_wf(ims_of(s)),
{
}

/// A vector of `len` complex zeros.
pub fn zero_cvec(len: usize) -> (r: Vec<Cx>)
    ensures
        r@.len() == len,
        cxs_wf(r@),
        forall|i: int| 0 <= i < len ==> #[trigger] cxs_view(r@)[i] == qc_zero(),
{
    let mut v: Vec<Cx> = Vec::new();
    let mut i: usize = 0;
    while i < len
        invariant
            0 <= i <= len,
            v@.len() == i,
            cxs_wf(v@),
            forall|k: int| 0 <= k < i ==> (#[trigger] v@[k])@ == qc_zero(),
        decreases len - i,
    {
        v.push(Cx::zero());
        i = i + 1;
    }
    v
}

/// The exact sum of a complex vector; succeeds exactly when every prefix
/// of both component running totals is representable.
pub fn sum_cxs(v: &Vec<Cx>) -> (r: Option<Cx>)
    requires
        cxs_wf(v@),
    ensures
        r matches Some(c) ==> c.wf() && qc_eq(c@, qc_sum(cxs_view(v@))),
        r is Some <==> qc_sums_fit(cxs_view(v@)),
{
    let ghost full = cxs_view(v@);
    let mut acc = Cx::zero();
    let mut j: usize = 0;
    proof {
        assert(res_of(full.take(0)) =~= Seq::<Q>::empty());
        assert(ims_of(full.take(0)) =~= Seq::<Q>::empty());
        assert(res_of(full).take(0) =~= Seq::<Q>::empty());
        assert(ims_of(full).take(0) =~= Seq::<Q>::empty());
        crate::rational::lemma_q_fits_zero();
    }
    while j < v.len()
        invariant
            0 <= j <= v@.len(),
            cxs_wf(v@),
            full == cxs_view(v@),
            acc.wf(),
            qc_eq(acc@, qc_sum(full.take(j as int))),
            forall|k: int| 0 <= k <= j ==> q_fits(#[trigger] q_sum(res_of(full).take(k))),
            forall|k: int| 0 <= k <= j ==> q_fits(#[trigger] q_sum(ims_of(full).take(k))),
        decreases v@.len() - j,
    {
        let x = v[j];
        let sum_opt = acc.checked_add(&x);
        proof {
            let pre = full.take(j as int);
            let post = full.take(j as int + 1);
            assert(res_of(post).drop_last() =~= res_of(pre));
            assert(res_of(post).last() == x@.re);
            assert(ims_of(post).drop_last() =~= ims_of(pre));
            assert(ims_of(post).last() == x@.im);
            assert(res_of(post) =~= res_of(full).take(j as int + 1));
            assert(ims_of(post) =~= ims_of(full).take(j as int + 1));
            assert forall|k: int| 0 <= k < pre.len() implies qc_wf(#[trigger] pre[k]) by {
                assert(pre[k] == full[k]);
            }
            assert forall|k: int| 0 <= k < post.len() implies qc_wf(#[trigger] post[k]) by {
                assert(post[k] == full[k]);
            }
            lemma_qc_seq_wf(pre);
            lemma_qc_seq_wf(post);
            crate::sums::lemma_q_sum_wf(res_of(pre));
            crate::sums::lemma_q_sum_wf(ims_of(pre));
            crate::sums::lemma_q_sum_wf(res_of(post));
            crate::sums::lemma_q_sum_wf(ims_of(post));
            lemma_qc_add_congruence(acc@, qc_sum(pre), x@, x@);
            lemma_qc_add_wf(acc@, x@);
            lemma_qc_add_wf(qc_sum(pre), x@);
            lemma_q_fits_congruent(q_add(acc@.re, x@.re), q_sum(res_of(post)));
            lemma_q_fits_congruent(q_add(acc@.im, x@.im), q_sum(ims_of(post)));
            assert(q_fits(q_add(acc@.re, x@.re)) == q_fits(
                q_sum(res_of(full).take(j as int + 1)),
            ));
            assert(q_fits(q_add(acc@.im, x@.im)) == q_fits(
                q_sum(ims_of(full).take(j as int + 1)),
            ));
        }
        let next = match sum_opt {
            Some(a) => a,
            None => {
                proof {
                    assert(!q_fits(q_sum(res_of(full).take(j as int + 1))) || !q_fits(
                        q_sum(ims_of(full).take(j as int + 1)),
                    ));
                    if qc_sums_fit(full) {
                        assert(q_fits(q_sum(res_of(full).take(j as int + 1))));
                        assert(q_fits(q_sum(ims_of(full).take(j as int + 1))));
                        assert(false);
                    }
                }
                return None;
            },
        };
        proof {
            let post = full.take(j as int + 1);
            crate::rational::lemma_q_eq_trans(next@.re, qc_add(acc@, x@).re, qc_sum(post).re);
            crate::rational::lemma_q_eq_trans(next@.im, qc_add(acc@, x@).im, qc_sum(post).im);
            assert(q_fits(q_sum(res_of(full).take(j as int + 1))));
            assert(q_fits(q_sum(ims_of(full).take(j as int + 1))));
            assert forall|k: int|
                0 <= k <= j + 1 implies q_fits(#[trigger] q_sum(res_of(full).take(k))) by {
                if k <= j {
                    assert(q_fits(q_sum(res_of(full).take(k))));
                }
            }
            assert forall|k: int|
                0 <= k <= j + 1 implies q_fits(#[trigger] q_sum(ims_of(full).take(k))) by {
                if k <= j {
                    assert(q_fits(q_sum(ims_of(full).take(k))));
                }
            }
        }
        acc = next;
        j = j + 1;
    }
    proof {
        assert(full.take(v@.len() as int) =~= full);
        assert(res_of(full).take(v@.len() as int) =~= res_of(full));
        assert(ims_of(full).take(v@.len() as int) =~= ims_of(full));
    }
    Some(acc)
}

/// The exact complex dot product of two equally long vectors; succeeds
/// exactly when every elementwise product and both component running totals
/// are representable.
pub fn dot_cxs(a: &Vec<Cx>, b: &Vec<Cx>) -> (r: Option<Cx>)
    requires
        a@.len() == b@.len(),
        cxs_wf(a@),
        cxs_wf(b@),
    ensures
        r matches Some(c) ==> c.wf() && qc_eq(c@, qc_sum(qc_prod_seq(cxs_view(a@), cxs_view(b@)))),
        r is Some <==> cdot_fits(cxs_view(a@), cxs_view(b@)),
{
    let ghost goal = qc_prod_seq(cxs_view(a@), cxs_view(b@));
    let mut prods: Vec<Cx> = Vec::new();
    let mut j: usize = 0;
    while j < a.len()
        invariant
            0 <= j <= a@.len(),
            a@.len() == b@.len(),
            cxs_wf(a@),
            cxs_wf(b@),
            goal == qc_prod_seq(cxs_view(a@), cxs_view(b@)),
            prods@.len() == j,
            cxs_wf(prods@),
            forall|k: int| 0 <= k < j ==> qc_eq((#[trigger] prods@[k])@, goal[k]),
            forall|k: int|
                0 <= k < j ==> qc_mul_fits(#[trigger] cxs_view(a@)[k], #[trigger] cxs_view(b@)[k]),
        decreases a@.len() - j,
    {
        let p = match a[j].checked_mul(&b[j]) {
            Some(p) => p,
            None => {
                proof {
                    assert(!qc_mul_fits(cxs_view(a@)[j as int], cxs_view(b@)[j as int]));
                }
                return None;
            },
        };
        prods.push(p);
        j = j + 1;
    }
    let ghost pv = cxs_view(prods@);
    proof {
        assert forall|k: int| 0 <= k < goal.len() implies qc_wf(#[trigger] goal[k]) by {
            lemma_qc_mul_wf(cxs_view(a@)[k], cxs_view(b@)[k]);
        }
        lemma_qc_seq_wf(goal);
        lemma_qc_seq_wf(pv);
        assert forall|k: int| 0 <= k < prods@.len() implies q_eq(
            #[trigger] res_of(pv)[k],
            res_of(goal)[k],
        ) && q_eq(ims_of(pv)[k], ims_of(goal)[k]) by {
            assert(qc_eq(prods@[k]@, goal[k]));
        }
        assert forall|k: int| 0 <= k < prods@.len() implies q_eq(
            #[trigger] ims_of(pv)[k],
            ims_of(goal)[k],
        ) by {
            assert(qc_eq(prods@[k]@, goal[k]));
        }
        crate::sums::lemma_partial_sums_fit_congruent(res_of(pv), res_of(goal));
        crate::sums::lemma_partial_sums_fit_congruent(ims_of(pv), ims_of(goal));
    }
    let total = match sum_cxs(&prods) {
        Some(t) => t,
        None => {
            return None;
        },
    };
    proof {
        crate::sums::lemma_q_sum_congruence(res_of(pv), res_of(goal));
        crate::sums::lemma_q_sum_congruence(ims_of(pv), ims_of(goal));
        crate::sums::lemma_q_sum_wf(res_of(pv));
        crate::sums::lemma_q_sum_wf(ims_of(pv));
        crate::sums::lemma_q_sum_wf(res_of(goal));
        crate::sums::lemma_q_sum_wf(ims_of(goal));
        lemma_q_eq_trans(total@.re, qc_sum(pv).re, qc_sum(goal).re);
        lemma_q_eq_trans(total@.im, qc_sum(pv).im, qc_sum(goal).im);
    }
    Some(total)
}

/// A dense row-major complex matrix.
#[derive(Debug, Clone)]
pub struct CMatrix {
    pub rows: usize,
    pub cols: usize,
    pub data: Vec<Vec<Cx>>,
}

impl CMatrix {
    pub open spec fn wf(self) -> bool {
        &&& self.data@.len() == self.rows
        &&& forall|i: int| 0 <= i < self.rows ==> (#[trigger] self.data@[i])@.len() == self.cols
        &&& forall|i: int| 0 <= i < self.rows ==> cxs_wf((#[trigger] self.data@[i])@)
    }

    pub open spec fn view(self) -> Seq<Seq<QC>> {
        self.data@.map(|i: int, row: Vec<Cx>| cxs_view(row@))
    }

    /// The all-zero matrix of the given shape.
    pub fn zeros(rows: usize, cols: usize) -> (r: CMatrix)
        ensures
            r.wf(),
            r.rows == rows,
            r.cols == cols,
            forall|i: int, j: int|
                0 <= i < rows && 0 <= j < cols ==> #[trigger] r.view()[i][j] == qc_zero(),
    {
        let mut data: Vec<Vec<Cx>> = Vec::new();
        let mut i: usize = 0;
        while i < rows
            invariant
                0 <= i <= rows,
                data@.len() == i,
                forall|k: int| 0 <= k < i ==> (#[trigger] data@[k])@.len() == cols,
                forall|k: int| 0 <= k < i ==> cxs_wf((#[trigger] data@[k])@),
                forall|k: int, j: int|
                    0 <= k < i && 0 <= j < cols ==> #[trigger] cxs_view(data@[k]@)[j] == qc_zero(),
            decreases rows - i,
        {
            data.push(zero_cvec(cols));
            i = i + 1;
        }
        CMatrix { rows, cols, data }
    }

    /// An entrywise copy of the matrix.
    pub fn clone_matrix(&self) -> (r: CMatrix)
        requires
            self.wf(),
        ensures
            r.wf(),
            r.rows == self.rows,
            r.cols == self.cols,
            r.view() == self.view(),
    {
        let mut data: Vec<Vec<Cx>> = Vec::new();
        let mut i: usize = 0;
        while i < self.rows
            invariant
                self.wf(),
                0 <= i <= self.rows,
                data@.len() == i,
                forall|t: int| 0 <= t < i ==> (#[trigger] data@[t])@ == self.data@[t]@,
            decreases self.rows - i,
        {
            let mut row: Vec<Cx> = Vec::new();
            let mut j: usize = 0;
            while j < self.cols
                invariant
                    self.wf(),
                    0 <= i < self.rows,
                    0 <= j <= self.cols,
                    row@.len() == j,
                    forall|b: int| 0 <= b < j ==> #[trigger] row@[b] == self.data@[i as int]@[b],
                decreases self.cols - j,
            {
                row.push(self.data[i][j]);
                j = j + 1;
            }
            proof {
                assert(row@ =~= self.data@[i as int]@);
            }
            data.push(row);
            i = i + 1;
        }
        let r = CMatrix { rows: self.rows, cols: self.cols, data };
        proof {
            assert(r.view() =~= self.view());
        }
        r
    }

    pub fn get(&self, i: usize, j: usize) -> (r: Cx)
        requires
            self.wf(),
            i < self.rows,
            j < self.cols,
        ensures
            r.wf(),
            r@ == self.view()[i as int][j as int],
    {
        self.data[i][j]
    }

    pub fn set(&mut self, i: usize, j: usize, v: Cx)
        requires
            old(self).wf(),
            i < old(self).rows,
            j < old(self).cols,
            v.wf(),
        ensures
            final(self).wf(),
            final(self).rows == old(self).rows,
            final(self).cols == old(self).cols,
            final(self).view()[i as int][j as int] == v@,
            forall|r: int, c: int|
                0 <= r < old(self).rows && 0 <= c < old(self).cols && !(r == i && c == j)
                    ==> #[trigger] final(self).view()[r][c] == old(self).view()[r][c],
    {
        let row = &mut self.data[i];
        row.set(j, v);
        proof {
            assert forall|r: int, c: int|
                0 <= r < self.rows && 0 <= c < self.cols && !(r == i as int && c == j as int)
                    implies #[trigger] self.view()[r][c] == old(self).view()[r][c] by {
                if r == i as int {
                    assert(self.data@[r]@[c] == old(self).data@[r]@[c]);
                }
            }
        }
    }

    /// Copy column `j` out as a vector.
    pub fn col_cvec(&self, j: usize) -> (r: Vec<Cx>)
        requires
            self.wf(),
            j < self.cols,
        ensures
            r@.len() == self.rows,
            cxs_wf(r@),
            forall|i: int| 0 <= i < self.rows ==> #[trigger] cxs_view(r@)[i] == self.view()[i][j as int],
    {
        let mut v: Vec<Cx> = Vec::new();
        let mut i: usize = 0;
        while i < self.rows
            invariant
                0 <= i <= self.rows,
                self.wf(),
                j < self.cols,
                v@.len() == i,
                cxs_wf(v@),
                forall|k: int| 0 <= k < i ==> (#[trigger] v@[k])@ == self.view()[k][j as int],
            decreases self.rows - i,
        {
            v.push(self.data[i][j]);
            i = i + 1;
        }
        v
    }

    /// The exact matrix product `self * other`; succeeds exactly when every
    /// row-by-column dot product is computable.
    pub fn matmul(&self, other: &CMatrix) -> (r: Option<CMatrix>)
        requires
            self.wf(),
            other.wf(),
            self.cols == other.rows,
        ensures
            r matches Some(p) ==> {
                &&& p.wf()
                &&& p.rows == self.rows
                &&& p.cols == other.cols
                &&& forall|i: int, j: int|
                    0 <= i < p.rows && 0 <= j < p.cols ==> qc_eq(
                        #[trigger] p.view()[i][j],
                        qc_sum(qc_prod_seq(self.view()[i], column_qc(other.view(), j))),
                    )
            },
            r is Some <==> cmatmul_fits(self.view(), other.view(), other.cols as int),
    {
        let mut data: Vec<Vec<Cx>> = Vec::new();
        let mut i: usize = 0;
        while i < self.rows
            invariant
                self.wf(),
                other.wf(),
                self.cols == other.rows,
                0 <= i <= self.rows,
                data@.len() == i,
                forall|t: int| 0 <= t < i ==> (#[trigger] data@[t])@.len() == other.cols,
                forall|t: int| 0 <= t < i ==> cxs_wf((#[trigger] data@[t])@),
                forall|t: int, j: int|
                    0 <= t < i && 0 <= j < other.cols ==> qc_eq(
                        (#[trigger] data@[t]@[j])@,
                        qc_sum(qc_prod_seq(self.view()[t], column_qc(other.view(), j))),
                    ),
                forall|t: int, j: int|
                    0 <= t < i && 0 <= j < other.cols ==> cdot_fits(
                        #[trigger] self.view()[t],
                        #[trigger] column_qc(other.view(), j),
                    ),
            decreases self.rows - i,
        {
            let mut row: Vec<Cx> = Vec::new();
            let mut j: usize = 0;
            while j < other.cols
                invariant
                    self.wf(),
                    other.wf(),
                    self.cols == other.rows,
                    0 <= i < self.rows,
                    0 <= j <= other.cols,
                    row@.len() == j,
                    cxs_wf(row@),
                    forall|b: int|
                        0 <= b < j ==> qc_eq(
                            (#[trigger] row@[b])@,
                            qc_sum(qc_prod_seq(self.view()[i as int], column_qc(other.view(), b))),
                        ),
                    forall|b: int|
                        0 <= b < j ==> cdot_fits(
                            self.view()[i as int],
                            #[trigger] column_qc(other.view(), b),
                        ),
                decreases other.cols - j,
            {
                let col = other.col_cvec(j);
                proof {
                    assert(cxs_view(self.data@[i as int]@) == self.view()[i as int]);
                    assert(cxs_view(col@) =~= column_qc(other.view(), j as int));
                }
                let entry = match dot_cxs(&self.data[i], &col) {
                    Some(e) => e,
                    None => {
                        proof {
                            assert(!cdot_fits(
                                self.view()[i as int],
                                column_qc(other.view(), j as int),
                            ));
                        }
                        return None;
                    },
                };
                row.push(entry);
                j = j + 1;
            }
            data.push(row);
            i = i + 1;
        }
        Some(CMatrix { rows: self.rows, cols: other.cols, data })
    }

    /// The exact matrix-vector product `self * state`; succeeds exactly
    /// when every row's dot product with the state is computable.
    pub fn apply_cvec(&self, state: &Vec<Cx>) -> (r: Option<Vec<Cx>>)
        requires
            self.wf(),
            cxs_wf(state@),
            state@.len() == self.cols,
        ensures
            r matches Some(v) ==> {
                &&& v@.len() == self.rows
                &&& cxs_wf(v@)
                &&& forall|i: int|
                    0 <= i < v@.len() ==> qc_eq(
                        #[trigger] cxs_view(v@)[i],
                        qc_sum(qc_prod_seq(self.view()[i], cxs_view(state@))),
                    )
            },
            r is Some <==> capply_fits(self.view(), cxs_view(state@)),
    {
        let mut out: Vec<Cx> = Vec::new();
        let mut i: usize = 0;
        while i < self.rows
            invariant
                self.wf(),
                cxs_wf(state@),
                state@.len() == self.cols,
                0 <= i <= self.rows,
                out@.len() == i,
                cxs_wf(out@),
                forall|k: int|
                    0 <= k < i ==> qc_eq(
                        (#[trigger] out@[k])@,
                        qc_sum(qc_prod_seq(self.view()[k], cxs_view(state@))),
                    ),
                forall|k: int|
                    0 <= k < i ==> cdot_fits(#[trigger] self.view()[k], cxs_view(state@)),
            decreases self.rows - i,
        {
            proof {
                assert(cxs_view(self.data@[i as int]@) == self.view()[i as int]);
            }
            let entry = match dot_cxs(&self.data[i], state) {
                Some(e) => e,
                None => {
                    proof {
                        assert(!cdot_fits(self.view()[i as int], cxs_view(state@)));
                    }
                    return None;
                },
            };
            out.push(entry);
            i = i + 1;
        }
        Some(out)
    }
}

} // verus!
