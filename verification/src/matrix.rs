//! Dense rational vectors and matrices.
//!
//! A vector is a `Vec<Rat>`, a matrix a row-major `Vec` of rows.  The
//! specification view of either is the sequence (of sequences) of denoted
//! fractions, and the arithmetic helpers state their results as exact
//! equalities on those views.

use vstd::prelude::*;

verus! {

use crate::rational::{
    lemma_q_add_congruence, lemma_q_add_wf, lemma_q_eq_trans, lemma_q_fits_congruent,
    lemma_q_fits_zero, lemma_q_mul_wf, q_add, q_eq, q_fits, q_mul, q_wf, Q, Rat,
};
use crate::sums::{all_wf, partial_sums_fit, q_sum};

/// The fractions denoted by a sequence of scalars.
pub open spec fn rats_view(v: Seq<Rat>) -> Seq<Q> {
    v.map(|i: int, x: Rat| x@)
}

/// Every scalar of the sequence is well-formed.
pub open spec fn rats_wf(v: Seq<Rat>) -> bool {
    forall|i: int| 0 <= i < v.len() ==> (#[trigger] v[i]).wf()
}

pub proof fn lemma_rats_view_wf(v: Seq<Rat>)
    requires
        rats_wf(v),
    ensures
        all_wf(rats_view(v)),
{
}

/// The elementwise product of two equally long sequences of fractions.
pub open spec fn prod_seq(r: Seq<Q>, v: Seq<Q>) -> Seq<Q> {
    Seq::new(r.len(), |j: int| q_mul(r[j], v[j]))
}

/// Every elementwise product of the two sequences is representable.
pub open spec fn products_fit(a: Seq<Q>, b: Seq<Q>) -> bool {
    forall|k: int| 0 <= k < a.len() ==> q_fits(#[trigger] q_mul(a[k], b[k]))
}

/// A vector of `len` zero scalars.
pub fn zero_vec(len: usize) -> (r: Vec<Rat>)
    ensures
        r@.len() == len,
        rats_wf(r@),
        forall|i: int| 0 <= i < len ==> #[trigger] rats_view(r@)[i] == crate::rational::q_zero(),
{
    let mut v: Vec<Rat> = Vec::new();
    let mut i: usize = 0;
    while i < len
        invariant
            0 <= i <= len,
            v@.len() == i,
            rats_wf(v@),
            forall|k: int| 0 <= k < i ==> (#[trigger] v@[k])@ == crate::rational::q_zero(),
        decreases len - i,
    {
        v.push(Rat::zero());
        i = i + 1;
    }
    v
}

/// The exact sum of a vector of scalars; succeeds exactly when every
/// prefix of the running total is representable.
pub fn sum_rats(v: &Vec<Rat>) -> (r: Option<Rat>)
    requires
        rats_wf(v@),
    ensures
        r matches Some(c) ==> c.wf() && q_eq(c@, q_sum(rats_view(v@))),
        r is Some <==> partial_sums_fit(rats_view(v@)),
{
    let ghost full = rats_view(v@);
    let mut acc = Rat::zero();
    let mut j: usize = 0;
    proof {
        assert(full.take(0) =~= Seq::<Q>::empty());
        lemma_q_fits_zero();
    }
    while j < v.len()
        invariant
            0 <= j <= v@.len(),
            rats_wf(v@),
            full == rats_view(v@),
            acc.wf(),
            q_eq(acc@, q_sum(full.take(j as int))),
            forall|k: int| 0 <= k <= j ==> q_fits(#[trigger] q_sum(full.take(k))),
        decreases v@.len() - j,
    {
        let x = v[j];
        let sum_opt = acc.checked_add(&x);
        proof {
            let pre = full.take(j as int);
            let post = full.take(j as int + 1);
            assert(post.drop_last() =~= pre);
            assert(post.last() == x@);
            crate::matrix::lemma_rats_view_wf(v@);
            crate::sums::lemma_q_sum_wf(pre);
            lemma_q_add_congruence(acc@, q_sum(pre), x@, x@);
            lemma_q_add_wf(acc@, x@);
            lemma_q_add_wf(q_sum(pre), x@);
            lemma_q_fits_congruent(q_add(acc@, x@), q_sum(post));
        }
        let next = match sum_opt {
            Some(a) => a,
            None => {
                proof {
                    assert(!q_fits(q_sum(full.take(j as int + 1))));
                }
                return None;
            },
        };
        proof {
            lemma_q_eq_trans(next@, q_add(acc@, x@), q_sum(full.take(j as int + 1)));
        }
        acc = next;
        j = j + 1;
    }
    proof {
        assert(full.take(v@.len() as int) =~= full);
    }
    Some(acc)
}

/// The exact dot product of two equally long vectors; succeeds exactly
/// when every elementwise product and every prefix of their running total
/// is representable.
pub fn dot_rats(a: &Vec<Rat>, b: &Vec<Rat>) -> (r: Option<Rat>)
    requires
        a@.len() == b@.len(),
        rats_wf(a@),
        rats_wf(b@),
    ensures
        r matches Some(c) ==> c.wf() && q_eq(c@, q_sum(prod_seq(rats_view(a@), rats_view(b@)))),
        r is Some <==> products_fit(rats_view(a@), rats_view(b@)) && partial_sums_fit(
            prod_seq(rats_view(a@), rats_view(b@)),
        ),
{
    let ghost goal = prod_seq(rats_view(a@), rats_view(b@));
    let mut prods: Vec<Rat> = Vec::new();
    let mut j: usize = 0;
    while j < a.len()
        invariant
            0 <= j <= a@.len(),
            a@.len() == b@.len(),
            rats_wf(a@),
            rats_wf(b@),
            goal == prod_seq(rats_view(a@), rats_view(b@)),
            prods@.len() == j,
            rats_wf(prods@),
            forall|k: int| 0 <= k < j ==> q_eq((#[trigger] prods@[k])@, goal[k]),
            forall|k: int|
                0 <= k < j ==> q_fits(#[trigger] q_mul(rats_view(a@)[k], rats_view(b@)[k])),
        decreases a@.len() - j,
    {
        let p = match a[j].checked_mul(&b[j]) {
            Some(p) => p,
            None => {
                proof {
                    assert(!q_fits(q_mul(rats_view(a@)[j as int], rats_view(b@)[j as int])));
                }
                return None;
            },
        };
        prods.push(p);
        j = j + 1;
    }
    let ghost pv = rats_view(prods@);
    proof {
        lemma_rats_view_wf(prods@);
        assert forall|k: int| 0 <= k < goal.len() implies q_wf(#[trigger] goal[k]) by {
            lemma_q_mul_wf(rats_view(a@)[k], rats_view(b@)[k]);
        }
        crate::sums::lemma_partial_sums_fit_congruent(pv, goal);
    }
    let total = match sum_rats(&prods) {
        Some(t) => t,
        None => {
            return None;
        },
    };
    proof {
        crate::sums::lemma_q_sum_congruence(pv, goal);
        crate::sums::lemma_q_sum_wf(pv);
        crate::sums::lemma_q_sum_wf(goal);
        lemma_q_eq_trans(total@, q_sum(pv), q_sum(goal));
    }
    Some(total)
}

/// A dense row-major matrix of rational scalars.
#[derive(Debug, Clone)]
pub struct RMatrix {
    pub rows: usize,
    pub cols: usize,
    pub data: Vec<Vec<Rat>>,
}

impl RMatrix {
    /// Shape and scalar well-formedness.
    pub open spec fn wf(self) -> bool {
        &&& self.data@.len() == self.rows
        &&& forall|i: int| 0 <= i < self.rows ==> (#[trigger] self.data@[i])@.len() == self.cols
        &&& forall|i: int| 0 <= i < self.rows ==> rats_wf((#[trigger] self.data@[i])@)
    }

    /// The grid of fractions this matrix denotes.
    pub open spec fn view(self) -> Seq<Seq<Q>> {
        self.data@.map(|i: int, row: Vec<Rat>| rats_view(row@))
    }

    pub proof fn lemma_wf_grid(self)
        requires
            self.wf(),
        ensures
            crate::sums::rectangular(self.view(), self.cols as nat),
            crate::sums::grid_wf(self.view()),
            self.view().len() == self.rows,
    {
    }

    /// The all-zero matrix of the given shape.
    pub fn zeros(rows: usize, cols: usize) -> (r: RMatrix)
        ensures
            r.wf(),
            r.rows == rows,
            r.cols == cols,
            forall|i: int, j: int|
                0 <= i < rows && 0 <= j < cols ==> #[trigger] r.view()[i][j]
                    == crate::rational::q_zero(),
    {
        let mut data: Vec<Vec<Rat>> = Vec::new();
        let mut i: usize = 0;
        while i < rows
            invariant
                0 <= i <= rows,
                data@.len() == i,
                forall|k: int| 0 <= k < i ==> (#[trigger] data@[k])@.len() == cols,
                forall|k: int| 0 <= k < i ==> rats_wf((#[trigger] data@[k])@),
                forall|k: int, j: int|
                    0 <= k < i && 0 <= j < cols ==> #[trigger] rats_view(data@[k]@)[j]
                        == crate::rational::q_zero(),
            decreases rows - i,
        {
            data.push(zero_vec(cols));
            i = i + 1;
        }
        RMatrix { rows, cols, data }
    }

    /// Read one entry.
    pub fn get(&self, i: usize, j: usize) -> (r: Rat)
        requires
            self.wf(),
            i < self.rows,
            j < self.cols,
        ensures
            r.wf(),
            r@ == self.view()[i as int][j as int],
    {
        self.data[i][j]
    }

    /// Replace one entry.
    pub fn set(&mut self, i: usize, j: usize, v: Rat)
        requires
            old(self).wf(),
            i < old(self).rows,
            j < old(self).cols,
            v.wf(),
        ensures
            final(self).wf(),
            final(self).rows == old(self).rows,
            final(self).cols == old(self).cols,
            final(self).view()[i as int][j as int] == v@,
            forall|r: int, c: int|
                0 <= r < old(self).rows && 0 <= c < old(self).cols && !(r == i && c == j)
                    ==> #[trigger] final(self).view()[r][c] == old(self).view()[r][c],
    {
        let row = &mut self.data[i];
        row.set(j, v);
        proof {
            assert forall|r: int, c: int|
                0 <= r < self.rows && 0 <= c < self.cols && !(r == i as int && c == j as int)
                    implies #[trigger] self.view()[r][c] == old(self).view()[r][c] by {
                if r == i as int {
                    assert(self.data@[r]@[c] == old(self).data@[r]@[c]);
                }
            }
        }
    }

    /// Copy column `j` out as a vector.
    pub fn col_vec(&self, j: usize) -> (r: Vec<Rat>)
        requires
            self.wf(),
            j < self.cols,
        ensures
            r@.len() == self.rows,
            rats_wf(r@),
            rats_view(r@) == crate::sums::column(self.view(), j as int),
    {
        let mut v: Vec<Rat> = Vec::new();
        let mut i: usize = 0;
        while i < self.rows
            invariant
                0 <= i <= self.rows,
                self.wf(),
                j < self.cols,
                v@.len() == i,
                rats_wf(v@),
                forall|k: int| 0 <= k < i ==> (#[trigger] v@[k])@ == self.view()[k][j as int],
            decreases self.rows - i,
        {
            v.push(self.data[i][j]);
            i = i + 1;
        }
        proof {
            assert(rats_view(v@) =~= crate::sums::column(self.view(), j as int));
        }
        v
    }

    /// The exact sum of column `j`; succeeds exactly when every prefix of
    /// the running total is representable.
    pub fn col_sum(&self, j: usize) -> (r: Option<Rat>)
        requires
            self.wf(),
            j < self.cols,
        ensures
            r matches Some(c) ==> c.wf() && q_eq(
                c@,
                q_sum(crate::sums::column(self.view(), j as int)),
            ),
            r is Some <==> partial_sums_fit(crate::sums::column(self.view(), j as int)),
    {
        let v = self.col_vec(j);
        sum_rats(&v)
    }
}

} // verus!
