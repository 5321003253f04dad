//! The classical transition operator.
//!
//! An `n x n` weight matrix over the nodes expands into an `n^2 x n^2`
//! operator over directed node incidences: entry `(i + j*n, j + k*n)` of the
//! operator is weight `(i, j)`, every other entry is zero.  The expanded
//! operator's columns are then normalized to sum to one, so the operator is
//! column-stochastic; a column summing to zero is left untouched.

use vstd::prelude::*;

verus! {

use crate::matrix::{prod_seq, products_fit, rats_view, rats_wf, RMatrix};
use crate::rational::{
    lemma_q_div_congruent, lemma_q_div_mul, lemma_q_div_wf, lemma_q_eq_symmetric,
    lemma_q_eq_trans, lemma_q_fits_congruent, lemma_q_is_zero_iff, lemma_q_mul_cancel,
    lemma_q_mul_comm, lemma_q_mul_congruence, lemma_q_mul_one, lemma_q_mul_wf, q_div, q_eq,
    q_fits, q_is_zero, q_mul, q_one, q_wf, q_zero, Q, Rat,
};
use crate::sums::{
    all_wf, column, grid_wf, lemma_partial_sums_fit_congruent, lemma_q_sum_congruence,
    lemma_q_sum_scale, lemma_q_sum_wf, partial_sums_fit, q_sum, rectangular, row_sums, scale_seq,
};
use crate::WalkError;

/// Which kind of normalization a transition operator undergoes.
#[derive(Debug, Clone, Copy, PartialEq, Eq, Structural)]
pub enum NormalizationMode {
    Stochastic,
    Unitary,
}

/// The sum of column `j` of a grid.
pub open spec fn col_total(m: Seq<Seq<Q>>, j: int) -> Q {
    q_sum(column(m, j))
}

/// Column `j` needs correction: its sum is neither zero nor one.
pub open spec fn col_touched(m: Seq<Seq<Q>>, j: int) -> bool {
    !q_eq(col_total(m, j), q_zero()) && !q_eq(col_total(m, j), q_one())
}

/// Some column of the grid needs correction.
pub open spec fn any_touched(m: Seq<Seq<Q>>, cols: int) -> bool {
    exists|j: int| 0 <= j < cols && col_touched(m, j)
}

/// All corrected columns share one factor, i.e. their sums agree.
pub open spec fn uniform_touched(m: Seq<Seq<Q>>, cols: int) -> bool {
    forall|j: int, k: int|
        0 <= j < cols && 0 <= k < cols && col_touched(m, j) && col_touched(m, k) ==> q_eq(
            col_total(m, j),
            col_total(m, k),
        )
}

/// `dst` is `src` with every touched column divided by its sum and every
/// other column kept as it is.
pub open spec fn normalized_from(src: Seq<Seq<Q>>, dst: Seq<Seq<Q>>, rows: int, cols: int) -> bool {
    forall|i: int, j: int|
        0 <= i < rows && 0 <= j < cols ==> (if col_touched(src, j) {
            q_eq(q_mul(#[trigger] dst[i][j], col_total(src, j)), src[i][j])
        } else {
            dst[i][j] == src[i][j]
        })
}

/// Every column of the grid sums to zero or to one.
pub open spec fn stochastic_cols(m: Seq<Seq<Q>>, cols: int) -> bool {
    forall|j: int|
        0 <= j < cols ==> q_eq(col_total(m, j), q_zero()) || q_eq(col_total(m, j), q_one())
}

/// Entry `(r, c)` of the expansion of the `n x n` weight grid `w`.
pub open spec fn built_entry(w: Seq<Seq<Q>>, n: int, r: int, c: int) -> Q {
    if r / n == c % n {
        w[r % n][r / n]
    } else {
        q_zero()
    }
}

/// The full `n^2 x n^2` expansion of the weight grid.
pub open spec fn build_spec(w: Seq<Seq<Q>>, n: nat) -> Seq<Seq<Q>> {
    Seq::new(n * n, |r: int| Seq::new(n * n, |c: int| built_entry(w, n as int, r, c)))
}

/// Entry `i` of the operator applied to a state: the dot product of row `i`
/// with the state.
pub open spec fn apply_entry(m: Seq<Seq<Q>>, v: Seq<Q>, i: int) -> Q {
    q_sum(prod_seq(m[i], v))
}

/// Row `i`'s dot product with the state is computable: every product and
/// every prefix of the running total is representable.
pub open spec fn row_apply_fits(row: Seq<Q>, v: Seq<Q>) -> bool {
    products_fit(row, v) && partial_sums_fit(prod_seq(row, v))
}

/// The whole matrix-vector product is computable.
pub open spec fn apply_fits(m: Seq<Seq<Q>>, v: Seq<Q>) -> bool {
    forall|i: int| 0 <= i < m.len() ==> row_apply_fits(#[trigger] m[i], v)
}

/// Every value the column normalization forms is representable: the
/// column-sum prefixes and, for each corrected column, the correction
/// factor and every corrected entry.
pub open spec fn normalize_fits(src: Seq<Seq<Q>>, rows: int, cols: int) -> bool {
    forall|j: int|
        0 <= j < cols ==> {
            &&& partial_sums_fit(#[trigger] column(src, j))
            &&& (col_touched(src, j) ==> q_fits(q_div(q_one(), col_total(src, j)))
                && forall|i: int|
                0 <= i < rows ==> q_fits(q_div(#[trigger] src[i][j], col_total(src, j))))
        }
}

/// The exact normalized operator as values: each touched column divided by
/// its sum, the rest unchanged.
pub open spec fn normalized_spec(src: Seq<Seq<Q>>, rows: nat, cols: nat) -> Seq<Seq<Q>> {
    Seq::new(
        rows,
        |i: int|
            Seq::new(
                cols,
                |j: int|
                    if col_touched(src, j) {
                        q_div(src[i][j], col_total(src, j))
                    } else {
                        src[i][j]
                    },
            ),
    )
}

/// Any result of the normalization agrees entrywise with the exact
/// normalized operator.
pub proof fn lemma_normalized_matches_spec(
    src: Seq<Seq<Q>>,
    dst: Seq<Seq<Q>>,
    rows: nat,
    cols: nat,
)
    requires
        src.len() == rows,
        dst.len() == rows,
        rectangular(src, cols),
        rectangular(dst, cols),
        grid_wf(src),
        grid_wf(dst),
        normalized_from(src, dst, rows as int, cols as int),
    ensures
        forall|i: int, j: int|
            0 <= i < rows && 0 <= j < cols ==> q_wf(#[trigger] normalized_spec(src, rows, cols)[i][j])
                && q_eq(dst[i][j], normalized_spec(src, rows, cols)[i][j]),
{
    assert forall|i: int, j: int|
        0 <= i < rows && 0 <= j < cols implies q_wf(
        #[trigger] normalized_spec(src, rows, cols)[i][j],
    ) && q_eq(dst[i][j], normalized_spec(src, rows, cols)[i][j]) by {
        lemma_column_wf(src, cols as int, rows as int, j);
        lemma_q_sum_wf(column(src, j));
        let s = col_total(src, j);
        if col_touched(src, j) {
            lemma_q_is_zero_iff(s);
            lemma_q_div_wf(src[i][j], s);
            lemma_q_div_mul(src[i][j], s);
            lemma_q_mul_wf(dst[i][j], s);
            lemma_q_mul_wf(q_div(src[i][j], s), s);
            lemma_q_eq_symmetric(q_mul(q_div(src[i][j], s), s), src[i][j]);
            lemma_q_eq_trans(q_mul(dst[i][j], s), src[i][j], q_mul(q_div(src[i][j], s), s));
            lemma_q_mul_cancel(dst[i][j], q_div(src[i][j], s), s);
        }
    }
}

/// Whether a matrix-vector product is computable depends only on the
/// operator's values.
pub proof fn lemma_apply_fits_congruent(m1: Seq<Seq<Q>>, m2: Seq<Seq<Q>>, v: Seq<Q>, cols: nat)
    requires
        m1.len() == m2.len(),
        rectangular(m1, cols),
        rectangular(m2, cols),
        grid_wf(m1),
        grid_wf(m2),
        v.len() == cols,
        all_wf(v),
        forall|i: int, j: int|
            0 <= i < m1.len() && 0 <= j < cols ==> q_eq(#[trigger] m1[i][j], #[trigger] m2[i][j]),
    ensures
        apply_fits(m1, v) == apply_fits(m2, v),
{
    assert forall|i: int|
        0 <= i < m1.len() implies row_apply_fits(#[trigger] m1[i], v) == row_apply_fits(
        #[trigger] m2[i],
        v,
    ) by {
        assert forall|k: int|
            0 <= k < cols implies q_fits(#[trigger] q_mul(m1[i][k], v[k])) == q_fits(
            #[trigger] q_mul(m2[i][k], v[k]),
        ) && q_wf(q_mul(m1[i][k], v[k])) && q_wf(q_mul(m2[i][k], v[k])) && q_eq(
            q_mul(m1[i][k], v[k]),
            q_mul(m2[i][k], v[k]),
        ) by {
            lemma_q_mul_congruence(m1[i][k], m2[i][k], v[k], v[k]);
            lemma_q_mul_wf(m1[i][k], v[k]);
            lemma_q_mul_wf(m2[i][k], v[k]);
            lemma_q_fits_congruent(q_mul(m1[i][k], v[k]), q_mul(m2[i][k], v[k]));
        }
        assert forall|k: int|
            0 <= k < prod_seq(m1[i], v).len() implies q_wf(#[trigger] prod_seq(m1[i], v)[k])
            && q_eq(prod_seq(m1[i], v)[k], prod_seq(m2[i], v)[k]) by {
            assert(prod_seq(m1[i], v)[k] == q_mul(m1[i][k], v[k]));
            assert(prod_seq(m2[i], v)[k] == q_mul(m2[i][k], v[k]));
            lemma_q_mul_wf(m1[i][k], v[k]);
            lemma_q_mul_congruence(m1[i][k], m2[i][k], v[k], v[k]);
        }
        assert forall|k: int|
            0 <= k < prod_seq(m2[i], v).len() implies q_wf(#[trigger] prod_seq(m2[i], v)[k]) by {
            assert(prod_seq(m2[i], v)[k] == q_mul(m2[i][k], v[k]));
            lemma_q_mul_wf(m2[i][k], v[k]);
        }
        lemma_partial_sums_fit_congruent(prod_seq(m1[i], v), prod_seq(m2[i], v));
        if products_fit(m1[i], v) {
            assert forall|k: int| 0 <= k < cols implies q_fits(
                #[trigger] q_mul(m2[i][k], v[k]),
            ) by {
                assert(q_fits(q_mul(m1[i][k], v[k])));
            }
        }
        if products_fit(m2[i], v) {
            assert forall|k: int| 0 <= k < cols implies q_fits(
                #[trigger] q_mul(m1[i][k], v[k]),
            ) by {
                assert(q_fits(q_mul(m2[i][k], v[k])));
            }
        }
    }
    if apply_fits(m1, v) {
        assert forall|i: int| 0 <= i < m2.len() implies row_apply_fits(#[trigger] m2[i], v) by {
            assert(row_apply_fits(m1[i], v));
        }
    }
    if apply_fits(m2, v) {
        assert forall|i: int| 0 <= i < m1.len() implies row_apply_fits(#[trigger] m1[i], v) by {
            assert(row_apply_fits(m2[i], v));
        }
    }
}

/// The edge-indexed classical transition operator.
#[derive(Debug, Clone)]
pub struct ClassicalTransitionMatrix {
    /// The number of graph nodes the operator was built for.
    pub node_count: usize,
    /// The `n^2 x n^2` column-stochastic operator.
    pub matrix: RMatrix,
}

impl ClassicalTransitionMatrix {
    pub open spec fn wf(self) -> bool {
        &&& self.matrix.wf()
        &&& self.matrix.rows == self.node_count * self.node_count
        &&& self.matrix.cols == self.node_count * self.node_count
    }

    /// Build the expanded operator from a square weight matrix and normalize
    /// its columns.  Fails with `NotSquare` exactly on non-square input, and
    /// with `NumericalInvalidity` when exact arithmetic cannot represent a
    /// column sum or a corrected entry.
    pub fn try_from(weights: &RMatrix) -> (r: Result<ClassicalTransitionMatrix, WalkError>)
        requires
            weights.wf(),
            weights.rows * weights.rows <= usize::MAX,
        ensures
            weights.rows != weights.cols <==> r == Err::<ClassicalTransitionMatrix, WalkError>(
                WalkError::NotSquare,
            ),
            r matches Ok(t) ==> {
                &&& t.wf()
                &&& t.node_count == weights.rows
                &&& normalized_from(
                    build_spec(weights.view(), weights.rows as nat),
                    t.matrix.view(),
                    (weights.rows * weights.rows) as int,
                    (weights.rows * weights.rows) as int,
                )
                &&& stochastic_cols(t.matrix.view(), (weights.rows * weights.rows) as int)
            },
            weights.rows == weights.cols ==> (r is Ok <==> normalize_fits(
                build_spec(weights.view(), weights.rows as nat),
                (weights.rows * weights.rows) as int,
                (weights.rows * weights.rows) as int,
            )),
            r is Err ==> r == Err::<ClassicalTransitionMatrix, WalkError>(WalkError::NotSquare)
                || r == Err::<ClassicalTransitionMatrix, WalkError>(WalkError::NumericalInvalidity),
    {
        if weights.rows != weights.cols {
            return Err(WalkError::NotSquare);
        }
        let mut matrix = Self::build_expanded(weights);
        match normalize_stochastic(&mut matrix) {
            Ok(_) => Ok(ClassicalTransitionMatrix { node_count: weights.rows, matrix }),
            Err(e) => Err(e),
        }
    }

    /// The raw expansion of the weight matrix, before any normalization.
    pub fn build_expanded(weights: &RMatrix) -> (m: RMatrix)
        requires
            weights.wf(),
            weights.rows == weights.cols,
            weights.rows * weights.rows <= usize::MAX,
        ensures
            m.wf(),
            m.rows == weights.rows * weights.rows,
            m.cols == weights.rows * weights.rows,
            m.view() == build_spec(weights.view(), weights.rows as nat),
    {
        let n = weights.rows;
        let size = n * n;
        let mut data: Vec<Vec<Rat>> = Vec::new();
        let mut r: usize = 0;
        while r < size
            invariant
                weights.wf(),
                weights.rows == n,
                weights.cols == n,
                size == n * n,
                0 <= r <= size,
                data@.len() == r,
                forall|i: int| 0 <= i < r ==> (#[trigger] data@[i])@.len() == size,
                forall|i: int| 0 <= i < r ==> rats_wf((#[trigger] data@[i])@),
                forall|i: int, j: int|
                    0 <= i < r && 0 <= j < size ==> (#[trigger] data@[i]@[j])@ == built_entry(
                        weights.view(),
                        n as int,
                        i,
                        j,
                    ),
            decreases size - r,
        {
            let mut row: Vec<Rat> = Vec::new();
            let mut c: usize = 0;
            proof {
                assert((r as int) / (n as int) < n) by (nonlinear_arith)
                    requires
                        0 <= r < n * n,
                        n > 0,
                ;
                assert((r as int) % (n as int) < n);
            }
            while c < size
                invariant
                    weights.wf(),
                    weights.rows == n,
                    weights.cols == n,
                    size == n * n,
                    0 <= r < size,
                    (r as int) / (n as int) < n,
                    (r as int) % (n as int) < n,
                    n > 0,
                    0 <= c <= size,
                    row@.len() == c,
                    rats_wf(row@),
                    forall|j: int|
                        0 <= j < c ==> (#[trigger] row@[j])@ == built_entry(
                            weights.view(),
                            n as int,
                            r as int,
                            j,
                        ),
                decreases size - c,
            {
                let entry = if r / n == c % n {
                    weights.get(r % n, r / n)
                } else {
                    Rat::zero()
                };
                row.push(entry);
                c = c + 1;
            }
            data.push(row);
            r = r + 1;
        }
        let m = RMatrix { rows: size, cols: size, data };
        proof {
            assert forall|i: int| 0 <= i < size implies #[trigger] m.view()[i] == build_spec(
                weights.view(),
                n as nat,
            )[i] by {
                assert(m.view()[i] =~= build_spec(weights.view(), n as nat)[i]);
            }
            assert(m.view() =~= build_spec(weights.view(), n as nat));
        }
        m
    }

    /// The initial state: all mass on the self-incidence of the start node
    /// (node `s` arrived-from node `s`), or of node zero when none is given.
    pub fn get_initial_state(&self, start_node_idx: &Option<usize>) -> (r: Vec<Rat>)
        requires
            self.wf(),
            start_node_idx matches Some(s) ==> s < self.node_count,
        ensures
            r@.len() == self.matrix.cols,
            rats_wf(r@),
            rats_view(r@) == initial_state_spec(
                self.node_count as int,
                self.matrix.cols as int,
                *start_node_idx,
            ),
    {
        let n = self.node_count;
        let mut r = crate::matrix::zero_vec(self.matrix.cols);
        if r.len() == 0 {
            proof {
                assert(rats_view(r@) =~= initial_state_spec(
                    self.node_count as int,
                    self.matrix.cols as int,
                    *start_node_idx,
                ));
            }
            return r;
        }
        let idx = match start_node_idx {
            Some(s) => {
                let sv = *s;
                proof {
                    assert(sv * n + sv < n * n) by (nonlinear_arith)
                        requires
                            0 <= sv < n,
                    ;
                }
                sv * n + sv
            },
            None => 0,
        };
        let ghost prior = r@;
        r.set(idx, Rat::one());
        proof {
            assert forall|i: int|
                0 <= i < r@.len() && i != idx implies #[trigger] rats_view(r@)[i] == q_zero() by {
                assert(r@[i] == prior[i]);
                assert(rats_view(prior)[i] == q_zero());
            }
            assert(rats_view(r@)[idx as int] == q_one());
            assert(rats_view(r@) =~= initial_state_spec(
                self.node_count as int,
                self.matrix.cols as int,
                *start_node_idx,
            ));
        }
        r
    }

    /// The operator applied to a state vector: an exact matrix-vector
    /// product.  Fails with `DimensionMismatch` exactly when the state's
    /// length differs from the operator's column count.
    pub fn apply(&self, state: &Vec<Rat>) -> (r: Result<Vec<Rat>, WalkError>)
        requires
            self.wf(),
            rats_wf(state@),
        ensures
            state@.len() != self.matrix.cols <==> r == Err::<Vec<Rat>, WalkError>(
                WalkError::DimensionMismatch,
            ),
            state@.len() == self.matrix.cols ==> (r is Ok <==> apply_fits(
                self.matrix.view(),
                rats_view(state@),
            )),
            r matches Ok(v) ==> {
                &&& v@.len() == self.matrix.rows
                &&& rats_wf(v@)
                &&& forall|i: int|
                    0 <= i < v@.len() ==> q_eq(
                        #[trigger] rats_view(v@)[i],
                        apply_entry(self.matrix.view(), rats_view(state@), i),
                    )
            },
            r is Err ==> r == Err::<Vec<Rat>, WalkError>(WalkError::DimensionMismatch) || r
                == Err::<Vec<Rat>, WalkError>(WalkError::NumericalInvalidity),
    {
        if state.len() != self.matrix.cols {
            return Err(WalkError::DimensionMismatch);
        }
        let mut out: Vec<Rat> = Vec::new();
        let mut i: usize = 0;
        while i < self.matrix.rows
            invariant
                self.wf(),
                rats_wf(state@),
                state@.len() == self.matrix.cols,
                0 <= i <= self.matrix.rows,
                out@.len() == i,
                rats_wf(out@),
                forall|k: int|
                    0 <= k < i ==> q_eq(
                        (#[trigger] out@[k])@,
                        apply_entry(self.matrix.view(), rats_view(state@), k),
                    ),
                forall|k: int|
                    0 <= k < i ==> row_apply_fits(#[trigger] self.matrix.view()[k], rats_view(state@)),
            decreases self.matrix.rows - i,
        {
            let row = &self.matrix.data[i];
            proof {
                assert(rats_view(row@) == self.matrix.view()[i as int]);
            }
            let entry = match crate::matrix::dot_rats(row, state) {
                Some(e) => e,
                None => {
                    proof {
                        assert(!row_apply_fits(self.matrix.view()[i as int], rats_view(state@)));
                    }
                    return Err(WalkError::NumericalInvalidity);
                },
            };
            out.push(entry);
            i = i + 1;
        }
        Ok(out)
    }
}

/// The column index the initial state occupies: the self-incidence of the
/// start node.
pub open spec fn initial_index(n: int, start: Option<usize>) -> int {
    match start {
        Some(s) => s * n + s,
        None => 0,
    }
}

/// The initial state vector: all mass at the start node's self-incidence,
/// or the empty vector for an empty graph.
pub open spec fn initial_state_spec(n: int, len: int, start: Option<usize>) -> Seq<Q> {
    Seq::new(
        len as nat,
        |i: int|
            if i == initial_index(n, start) {
                q_one()
            } else {
                q_zero()
            },
    )
}

/// Normalize every column of the matrix to sum to one; columns already
/// summing to zero or one are left untouched.  The report says whether no
/// column was corrected, all corrected columns shared one factor, or the
/// factors differed.  On an arithmetic failure the matrix is unchanged.
pub fn normalize_stochastic(m: &mut RMatrix) -> (r: Result<
    crate::transition_matrix_correction_type::TransitionMatrixCorrectionType,
    WalkError,
>)
    requires
        old(m).wf(),
    ensures
        r matches Ok(rep) ==> {
            &&& final(m).wf()
            &&& final(m).rows == old(m).rows
            &&& final(m).cols == old(m).cols
            &&& normalized_from(
                old(m).view(),
                final(m).view(),
                old(m).rows as int,
                old(m).cols as int,
            )
            &&& stochastic_cols(final(m).view(), old(m).cols as int)
            &&& rep.wf()
            &&& (rep is NoCorrection <==> !any_touched(old(m).view(), old(m).cols as int))
            &&& (rep is Scalar <==> any_touched(old(m).view(), old(m).cols as int)
                && uniform_touched(old(m).view(), old(m).cols as int))
            &&& (rep is NonScalar <==> any_touched(old(m).view(), old(m).cols as int)
                && !uniform_touched(old(m).view(), old(m).cols as int))
            &&& (rep matches crate::transition_matrix_correction_type::TransitionMatrixCorrectionType::Scalar(f)
                ==> forall|j: int|
                    0 <= j < old(m).cols && col_touched(old(m).view(), j) ==> q_eq(
                        q_mul(f@, col_total(old(m).view(), j)),
                        q_one(),
                    ))
            &&& (rep matches crate::transition_matrix_correction_type::TransitionMatrixCorrectionType::NonScalar(v)
                ==> {
                    &&& v@.len() == old(m).cols
                    &&& forall|j: int|
                        0 <= j < old(m).cols ==> (if col_touched(old(m).view(), j) {
                            q_eq(
                                q_mul(#[trigger] rats_view(v@)[j], col_total(old(m).view(), j)),
                                q_one(),
                            )
                        } else {
                            q_is_zero(rats_view(v@)[j])
                        })
                })
        },
        r is Ok <==> normalize_fits(old(m).view(), old(m).rows as int, old(m).cols as int),
        r is Err ==> *final(m) == *old(m) && r == Err::<
            crate::transition_matrix_correction_type::TransitionMatrixCorrectionType,
            WalkError,
        >(WalkError::NumericalInvalidity),
{
    let rows = m.rows;
    let cols = m.cols;
    let ghost src = m.view();
    proof {
        m.lemma_wf_grid();
    }

    // First pass: the exact sum of every column.
    let mut sums: Vec<Rat> = Vec::new();
    let mut j: usize = 0;
    while j < cols
        invariant
            m.wf(),
            m == old(m),
            rows == m.rows,
            cols == m.cols,
            src == m.view(),
            0 <= j <= cols,
            sums@.len() == j,
            forall|k: int| 0 <= k < j ==> (#[trigger] sums@[k]).wf(),
            forall|k: int| 0 <= k < j ==> q_eq((#[trigger] sums@[k])@, col_total(src, k)),
            forall|k: int| 0 <= k < j ==> partial_sums_fit(#[trigger] column(src, k)),
        decreases cols - j,
    {
        match m.col_sum(j) {
            Some(s) => {
                sums.push(s);
            },
            None => {
                proof {
                    assert(!partial_sums_fit(column(src, j as int)));
                    assert(!normalize_fits(src, rows as int, cols as int));
                }
                return Err(WalkError::NumericalInvalidity);
            },
        }
        j = j + 1;
    }

    // Decide which columns need correction, and the factor for each.
    let mut touched: Vec<bool> = Vec::new();
    let mut factors: Vec<Rat> = Vec::new();
    let mut j: usize = 0;
    while j < cols
        invariant
            m.wf(),
            m == old(m),
            rows == m.rows,
            cols == m.cols,
            src == m.view(),
            0 <= j <= cols,
            sums@.len() == cols,
            forall|k: int| 0 <= k < cols ==> (#[trigger] sums@[k]).wf(),
            forall|k: int| 0 <= k < cols ==> q_eq((#[trigger] sums@[k])@, col_total(src, k)),
            touched@.len() == j,
            factors@.len() == j,
            forall|k: int| 0 <= k < j ==> (#[trigger] touched@[k]) == col_touched(src, k),
            forall|k: int| 0 <= k < j ==> (#[trigger] factors@[k]).wf(),
            forall|k: int|
                0 <= k < j && col_touched(src, k) ==> q_eq(
                    q_mul((#[trigger] factors@[k])@, col_total(src, k)),
                    q_one(),
                ),
            forall|k: int|
                0 <= k < j && !col_touched(src, k) ==> q_is_zero((#[trigger] factors@[k])@),
            forall|k: int| 0 <= k < j && col_touched(src, k) ==> (#[trigger] sums@[k]).num != 0,
            forall|k: int| 0 <= k < cols ==> partial_sums_fit(#[trigger] column(src, k)),
            forall|k: int|
                0 <= k < j && col_touched(src, k) ==> q_fits(
                    #[trigger] q_div(q_one(), col_total(src, k)),
                ),
        decreases cols - j,
    {
        let s = sums[j];
        proof {
            lemma_column_wf(src, m.cols as int, m.rows as int, j as int);
            lemma_q_sum_wf(column(src, j as int));
        }
        let is_zero_col = s.is_zero();
        let is_one_col = s.is_one();
        proof {
            // the executable tests agree with the specification predicates
            if is_zero_col {
                lemma_q_eq_symmetric(s@, col_total(src, j as int));
                lemma_q_eq_trans(col_total(src, j as int), s@, q_zero());
            } else {
                if q_eq(col_total(src, j as int), q_zero()) {
                    lemma_q_eq_trans(s@, col_total(src, j as int), q_zero());
                }
            }
            if is_one_col {
                lemma_q_eq_symmetric(s@, col_total(src, j as int));
                lemma_q_eq_trans(col_total(src, j as int), s@, q_one());
            } else {
                if q_eq(col_total(src, j as int), q_one()) {
                    lemma_q_eq_trans(s@, col_total(src, j as int), q_one());
                }
            }
        }
        if is_zero_col || is_one_col {
            touched.push(false);
            factors.push(Rat::zero());
        } else {
            proof {
                // the factor's value is the same whether the representative
                // or the exact column total divides
                crate::rational::lemma_q_div_congruent(
                    q_one(),
                    q_one(),
                    s@,
                    col_total(src, j as int),
                );
                lemma_q_div_wf(q_one(), s@);
                lemma_q_div_wf(q_one(), col_total(src, j as int));
                lemma_q_fits_congruent(
                    q_div(q_one(), s@),
                    q_div(q_one(), col_total(src, j as int)),
                );
            }
            let f = match Rat::one().checked_div(&s) {
                Some(f) => f,
                None => {
                    proof {
                        assert(!q_fits(q_div(q_one(), col_total(src, j as int))));
                        assert(!normalize_fits(src, rows as int, cols as int));
                    }
                    return Err(WalkError::NumericalInvalidity);
                },
            };
            proof {
                // f * sum ~ 1, and sum ~ column total, so f * total ~ 1
                lemma_q_mul_congruence(f@, f@, s@, col_total(src, j as int));
                lemma_q_mul_wf(f@, s@);
                lemma_q_mul_wf(f@, col_total(src, j as int));
                lemma_q_eq_symmetric(q_mul(f@, s@), q_mul(f@, col_total(src, j as int)));
                lemma_q_eq_trans(
                    q_mul(f@, col_total(src, j as int)),
                    q_mul(f@, s@),
                    q_one(),
                );
            }
            touched.push(true);
            factors.push(f);
        }
        j = j + 1;
    }

    // Is any column touched, and do all touched columns share their sum?
    let mut first_touched: Option<usize> = None;
    let mut uniform = true;
    let mut j: usize = 0;
    while j < cols
        invariant
            m.wf(),
            m == old(m),
            rows == m.rows,
            cols == m.cols,
            src == m.view(),
            0 <= j <= cols,
            sums@.len() == cols,
            touched@.len() == cols,
            forall|k: int| 0 <= k < cols ==> (#[trigger] sums@[k]).wf(),
            forall|k: int| 0 <= k < cols ==> q_eq((#[trigger] sums@[k])@, col_total(src, k)),
            forall|k: int| 0 <= k < cols ==> (#[trigger] touched@[k]) == col_touched(src, k),
            first_touched matches Some(f) ==> f < cols && col_touched(src, f as int),
            first_touched is None ==> forall|k: int| 0 <= k < j ==> !col_touched(src, k),
            uniform ==> forall|k: int|
                0 <= k < j && col_touched(src, k) ==> (first_touched matches Some(f) && q_eq(
                    col_total(src, k),
                    col_total(src, f as int),
                )),
            !uniform ==> (first_touched matches Some(f) && exists|k: int|
                0 <= k < j && col_touched(src, k) && !q_eq(
                    col_total(src, k),
                    col_total(src, f as int),
                )),
            forall|k: int| 0 <= k < cols ==> partial_sums_fit(#[trigger] column(src, k)),
            forall|k: int|
                0 <= k < cols && col_touched(src, k) ==> q_fits(
                    #[trigger] q_div(q_one(), col_total(src, k)),
                ),
        decreases cols - j,
    {
        if touched[j] {
            match first_touched {
                None => {
                    first_touched = Some(j);
                    proof {
                        lemma_column_wf(src, cols as int, rows as int, j as int);
                        lemma_q_sum_wf(column(src, j as int));
                    }
                },
                Some(f) => {
                    if uniform && !sums[j].eq_rat(&sums[f]) {
                        proof {
                            // the sums differ, so the column totals differ
                            lemma_column_wf(src, cols as int, rows as int, j as int);
                            lemma_column_wf(src, cols as int, rows as int, f as int);
                            lemma_q_sum_wf(column(src, j as int));
                            lemma_q_sum_wf(column(src, f as int));
                            if q_eq(col_total(src, j as int), col_total(src, f as int)) {
                                lemma_q_eq_trans(
                                    sums@[j as int]@,
                                    col_total(src, j as int),
                                    col_total(src, f as int),
                                );
                                lemma_q_eq_symmetric(sums@[f as int]@, col_total(src, f as int));
                                lemma_q_eq_trans(
                                    sums@[j as int]@,
                                    col_total(src, f as int),
                                    sums@[f as int]@,
                                );
                            }
                        }
                        uniform = false;
                    } else {
                        proof {
                            if uniform {
                                lemma_column_wf(src, cols as int, rows as int, j as int);
                                lemma_column_wf(src, cols as int, rows as int, f as int);
                                lemma_q_sum_wf(column(src, j as int));
                                lemma_q_sum_wf(column(src, f as int));
                                lemma_q_eq_symmetric(sums@[j as int]@, col_total(src, j as int));
                                lemma_q_eq_trans(
                                    col_total(src, j as int),
                                    sums@[j as int]@,
                                    sums@[f as int]@,
                                );
                                lemma_q_eq_trans(
                                    col_total(src, j as int),
                                    sums@[f as int]@,
                                    col_total(src, f as int),
                                );
                            }
                        }
                    }
                },
            }
        }
        j = j + 1;
    }

    // Second pass: divide every entry of a touched column by that column's
    // sum, building the corrected matrix without disturbing the input.
    let mut data: Vec<Vec<Rat>> = Vec::new();
    let mut i: usize = 0;
    while i < rows
        invariant
            m.wf(),
            m == old(m),
            rows == m.rows,
            cols == m.cols,
            src == m.view(),
            sums@.len() == cols,
            touched@.len() == cols,
            forall|k: int| 0 <= k < cols ==> (#[trigger] sums@[k]).wf(),
            forall|k: int| 0 <= k < cols ==> q_eq((#[trigger] sums@[k])@, col_total(src, k)),
            forall|k: int| 0 <= k < cols ==> (#[trigger] touched@[k]) == col_touched(src, k),
            forall|k: int| 0 <= k < cols && col_touched(src, k) ==> (#[trigger] sums@[k]).num != 0,
            forall|k: int| 0 <= k < cols ==> partial_sums_fit(#[trigger] column(src, k)),
            forall|k: int|
                0 <= k < cols && col_touched(src, k) ==> q_fits(
                    #[trigger] q_div(q_one(), col_total(src, k)),
                ),
            forall|a: int, b: int|
                0 <= a < i && 0 <= b < cols && col_touched(src, b) ==> q_fits(
                    #[trigger] q_div(src[a][b], col_total(src, b)),
                ),
            0 <= i <= rows,
            data@.len() == i,
            forall|a: int| 0 <= a < i ==> (#[trigger] data@[a])@.len() == cols,
            forall|a: int| 0 <= a < i ==> rats_wf((#[trigger] data@[a])@),
            forall|a: int, b: int|
                0 <= a < i && 0 <= b < cols ==> (if col_touched(src, b) {
                    q_eq(q_mul((#[trigger] data@[a]@[b])@, col_total(src, b)), src[a][b])
                } else {
                    (data@[a]@[b])@ == src[a][b]
                }),
        decreases rows - i,
    {
        let mut row: Vec<Rat> = Vec::new();
        let mut c: usize = 0;
        while c < cols
            invariant
                m.wf(),
                m == old(m),
                rows == m.rows,
                cols == m.cols,
                src == m.view(),
                sums@.len() == cols,
                touched@.len() == cols,
                forall|k: int| 0 <= k < cols ==> (#[trigger] sums@[k]).wf(),
                forall|k: int| 0 <= k < cols ==> q_eq((#[trigger] sums@[k])@, col_total(src, k)),
                forall|k: int| 0 <= k < cols ==> (#[trigger] touched@[k]) == col_touched(src, k),
                forall|k: int|
                    0 <= k < cols && col_touched(src, k) ==> (#[trigger] sums@[k]).num != 0,
                forall|a: int, b: int|
                    0 <= a < i && 0 <= b < cols && col_touched(src, b) ==> q_fits(
                        #[trigger] q_div(src[a][b], col_total(src, b)),
                    ),
                forall|b: int|
                    0 <= b < c && col_touched(src, b) ==> q_fits(
                        #[trigger] q_div(src[i as int][b], col_total(src, b)),
                    ),
                0 <= i < rows,
                0 <= c <= cols,
                row@.len() == c,
                rats_wf(row@),
                forall|b: int|
                    0 <= b < c ==> (if col_touched(src, b) {
                        q_eq(q_mul((#[trigger] row@[b])@, col_total(src, b)), src[i as int][b])
                    } else {
                        (row@[b])@ == src[i as int][b]
                    }),
            decreases cols - c,
        {
            let e = m.get(i, c);
            if touched[c] {
                let s = sums[c];
                proof {
                    // the corrected entry's value is the same whether the
                    // representative or the exact column total divides
                    lemma_column_wf(src, cols as int, rows as int, c as int);
                    lemma_q_sum_wf(column(src, c as int));
                    crate::rational::lemma_q_div_congruent(
                        e@,
                        e@,
                        s@,
                        col_total(src, c as int),
                    );
                    lemma_q_div_wf(e@, s@);
                    lemma_q_div_wf(e@, col_total(src, c as int));
                    lemma_q_fits_congruent(
                        q_div(e@, s@),
                        q_div(e@, col_total(src, c as int)),
                    );
                }
                let scaled = match e.checked_div(&s) {
                    Some(x) => x,
                    None => {
                        proof {
                            assert(!q_fits(q_div(src[i as int][c as int], col_total(src, c as int))));
                            assert(!normalize_fits(src, rows as int, cols as int));
                        }
                        return Err(WalkError::NumericalInvalidity);
                    },
                };
                proof {
                    // scaled * sum ~ entry, and sum ~ total, so scaled * total ~ entry
                    lemma_column_wf(src, cols as int, rows as int, c as int);
                    lemma_q_sum_wf(column(src, c as int));
                    lemma_q_mul_congruence(scaled@, scaled@, s@, col_total(src, c as int));
                    lemma_q_mul_wf(scaled@, s@);
                    lemma_q_mul_wf(scaled@, col_total(src, c as int));
                    lemma_q_eq_symmetric(
                        q_mul(scaled@, s@),
                        q_mul(scaled@, col_total(src, c as int)),
                    );
                    lemma_q_eq_trans(
                        q_mul(scaled@, col_total(src, c as int)),
                        q_mul(scaled@, s@),
                        src[i as int][c as int],
                    );
                }
                row.push(scaled);
            } else {
                row.push(e);
            }
            c = c + 1;
        }
        data.push(row);
        i = i + 1;
    }
    let result = RMatrix { rows, cols, data };
    proof {
        lemma_normalized_columns(src, result.view(), rows as int, cols as int);
        // every value the normalization formed was representable
        assert forall|j2: int|
            0 <= j2 < cols implies (partial_sums_fit(#[trigger] column(src, j2)) && (col_touched(
            src,
            j2,
        ) ==> q_fits(q_div(q_one(), col_total(src, j2))) && forall|i2: int|
            0 <= i2 < rows ==> q_fits(q_div(#[trigger] src[i2][j2], col_total(src, j2))))) by {
            if col_touched(src, j2) {
                assert forall|i2: int|
                    0 <= i2 < rows implies q_fits(
                    q_div(#[trigger] src[i2][j2], col_total(src, j2)),
                ) by {
                    assert(q_fits(q_div(src[i2][j2], col_total(src, j2))));
                }
            }
        }
        assert(normalize_fits(src, rows as int, cols as int));
    }
    *m = result;

    // Assemble the report.
    match first_touched {
        None => {
            proof {
                assert(!any_touched(src, cols as int));
            }
            Ok(
                crate::transition_matrix_correction_type::TransitionMatrixCorrectionType::NoCorrection,
            )
        },
        Some(f) => {
            proof {
                assert(col_touched(src, f as int));
                assert(any_touched(src, cols as int));
            }
            if uniform {
                proof {
                    assert forall|a: int, b: int|
                        0 <= a < cols && 0 <= b < cols && col_touched(src, a) && col_touched(
                            src,
                            b,
                        ) implies q_eq(col_total(src, a), col_total(src, b)) by {
                        lemma_column_wf(src, cols as int, rows as int, a);
                        lemma_column_wf(src, cols as int, rows as int, b);
                        lemma_column_wf(src, cols as int, rows as int, f as int);
                        lemma_q_sum_wf(column(src, a));
                        lemma_q_sum_wf(column(src, b));
                        lemma_q_sum_wf(column(src, f as int));
                        lemma_q_eq_symmetric(col_total(src, b), col_total(src, f as int));
                        lemma_q_eq_trans(
                            col_total(src, a),
                            col_total(src, f as int),
                            col_total(src, b),
                        );
                    }
                    assert(uniform_touched(src, cols as int));
                }
                let factor = factors[f];
                proof {
                    assert forall|jj: int|
                        0 <= jj < cols && col_touched(src, jj) implies q_eq(
                        q_mul(factor@, col_total(src, jj)),
                        q_one(),
                    ) by {
                        lemma_column_wf(src, cols as int, rows as int, jj);
                        lemma_column_wf(src, cols as int, rows as int, f as int);
                        lemma_q_sum_wf(column(src, jj));
                        lemma_q_sum_wf(column(src, f as int));
                        lemma_q_eq_symmetric(col_total(src, jj), col_total(src, f as int));
                        lemma_q_mul_congruence(
                            factor@,
                            factor@,
                            col_total(src, jj),
                            col_total(src, f as int),
                        );
                        lemma_q_mul_wf(factor@, col_total(src, jj));
                        lemma_q_mul_wf(factor@, col_total(src, f as int));
                        lemma_q_eq_trans(
                            q_mul(factor@, col_total(src, jj)),
                            q_mul(factor@, col_total(src, f as int)),
                            q_one(),
                        );
                    }
                }
                Ok(
                    crate::transition_matrix_correction_type::TransitionMatrixCorrectionType::Scalar(
                        factor,
                    ),
                )
            } else {
                proof {
                    let k = choose|k: int|
                        0 <= k < cols && col_touched(src, k) && !q_eq(
                            col_total(src, k),
                            col_total(src, f as int),
                        );
                    assert(!uniform_touched(src, cols as int));
                }
                Ok(
                    crate::transition_matrix_correction_type::TransitionMatrixCorrectionType::NonScalar(
                        factors,
                    ),
                )
            }
        },
    }
}

/// Columns of a well-formed grid are well-formed sequences.
proof fn lemma_column_wf(m: Seq<Seq<Q>>, cols: int, rows: int, j: int)
    requires
        grid_wf(m),
        rectangular(m, cols as nat),
        m.len() == rows,
        0 <= j < cols,
    ensures
        all_wf(column(m, j)),
{
}

/// After dividing each touched column by its sum, every column of the result
/// sums to zero or to one.
proof fn lemma_normalized_columns(src: Seq<Seq<Q>>, dst: Seq<Seq<Q>>, rows: int, cols: int)
    requires
        rows >= 0,
        cols >= 0,
        src.len() == rows,
        dst.len() == rows,
        rectangular(src, cols as nat),
        rectangular(dst, cols as nat),
        grid_wf(src),
        grid_wf(dst),
        normalized_from(src, dst, rows, cols),
    ensures
        stochastic_cols(dst, cols),
{
    assert forall|j: int|
        0 <= j < cols implies q_eq(col_total(dst, j), q_zero()) || q_eq(
        col_total(dst, j),
        q_one(),
    ) by {
        lemma_column_wf(src, cols, rows, j);
        lemma_column_wf(dst, cols, rows, j);
        lemma_q_sum_wf(column(src, j));
        lemma_q_sum_wf(column(dst, j));
        if col_touched(src, j) {
            let s = col_total(src, j);
            let cn = column(dst, j);
            let co = column(src, j);
            // s * dst[i][j] ~ src[i][j] for every row i
            assert forall|i: int| 0 <= i < rows implies q_eq(
                #[trigger] scale_seq(s, cn)[i],
                co[i],
            ) by {
                lemma_q_mul_comm(s, cn[i]);
            }
            assert forall|i: int| 0 <= i < scale_seq(s, cn).len() implies q_wf(
                #[trigger] scale_seq(s, cn)[i],
            ) by {
                lemma_q_mul_wf(s, cn[i]);
            }
            lemma_q_sum_congruence(scale_seq(s, cn), co);
            lemma_q_sum_scale(s, cn);
            lemma_q_sum_wf(scale_seq(s, cn));
            lemma_q_mul_wf(s, q_sum(cn));
            // s * sum(cn) ~ sum(co) == s
            lemma_q_eq_symmetric(q_sum(scale_seq(s, cn)), q_mul(s, q_sum(cn)));
            lemma_q_eq_trans(q_mul(s, q_sum(cn)), q_sum(scale_seq(s, cn)), q_sum(co));
            // s * 1 ~ s
            lemma_q_mul_one(s);
            lemma_q_mul_comm(s, q_one());
            lemma_q_mul_wf(s, q_one());
            // s * sum(cn) ~ s * 1
            lemma_q_eq_symmetric(q_mul(s, q_one()), s);
            lemma_q_eq_trans(q_mul(s, q_sum(cn)), q_sum(co), q_mul(s, q_one()));
            // cancel s (nonzero since the column is touched)
            if q_is_zero(s) {
                assert(q_eq(s, q_zero()));
            }
            lemma_q_mul_comm(cn_total_helper(cn), s);
            lemma_q_mul_comm(q_one(), s);
            assert(q_eq(q_mul(q_sum(cn), s), q_mul(q_one(), s)));
            lemma_q_mul_cancel(q_sum(cn), q_one(), s);
        } else {
            assert(column(dst, j) =~= column(src, j));
        }
    }
}

/// The sum of a column, named so commutativity rewrites apply to it.
spec fn cn_total_helper(cn: Seq<Q>) -> Q {
    q_sum(cn)
}

/// A row of the grid holds some nonzero entry.
pub open spec fn row_nonzero(m: Seq<Seq<Q>>, i: int) -> bool {
    exists|j: int| 0 <= j < m[i].len() && !q_is_zero(#[trigger] m[i][j])
}

impl ClassicalTransitionMatrix {
    /// The indices of the operator's rows that hold a nonzero entry, in
    /// increasing order.  Together with `col_index`, this is the compressed
    /// row indexing of the operator: pair `(i, j)` labels full row `i*n + j`,
    /// and its compressed row index is its rank in this list.
    pub fn nonzero_rows(&self) -> (r: Vec<usize>)
        requires
            self.wf(),
        ensures
            forall|k: int|
                0 <= k < r@.len() ==> (#[trigger] r@[k]) < self.matrix.rows && row_nonzero(
                    self.matrix.view(),
                    r@[k] as int,
                ),
            forall|k1: int, k2: int| 0 <= k1 < k2 < r@.len() ==> r@[k1] < r@[k2],
            forall|i: int|
                0 <= i < self.matrix.rows && row_nonzero(self.matrix.view(), i) ==> r@.contains(
                    i as usize,
                ),
    {
        let mut out: Vec<usize> = Vec::new();
        let mut i: usize = 0;
        while i < self.matrix.rows
            invariant
                self.wf(),
                0 <= i <= self.matrix.rows,
                forall|k: int|
                    0 <= k < out@.len() ==> (#[trigger] out@[k]) < i && row_nonzero(
                        self.matrix.view(),
                        out@[k] as int,
                    ),
                forall|k1: int, k2: int| 0 <= k1 < k2 < out@.len() ==> out@[k1] < out@[k2],
                forall|r: int|
                    0 <= r < i && row_nonzero(self.matrix.view(), r) ==> out@.contains(r as usize),
            decreases self.matrix.rows - i,
        {
            let mut found = false;
            let mut c: usize = 0;
            while c < self.matrix.cols
                invariant
                    self.wf(),
                    0 <= i < self.matrix.rows,
                    0 <= c <= self.matrix.cols,
                    found ==> row_nonzero(self.matrix.view(), i as int),
                    !found ==> forall|j: int|
                        0 <= j < c ==> q_is_zero(#[trigger] self.matrix.view()[i as int][j]),
                decreases self.matrix.cols - c,
            {
                if !self.matrix.data[i][c].is_zero() {
                    proof {
                        assert(!q_is_zero(self.matrix.view()[i as int][c as int]));
                    }
                    found = true;
                }
                c = c + 1;
            }
            let ghost prior = out@;
            if found {
                out.push(i);
            }
            proof {
                assert forall|r: int|
                    0 <= r < i + 1 && row_nonzero(self.matrix.view(), r) implies out@.contains(
                    r as usize,
                ) by {
                    if r < i {
                        assert(prior.contains(r as usize));
                        let k = choose|k: int| 0 <= k < prior.len() && prior[k] == r as usize;
                        assert(out@[k] == r as usize);
                    } else {
                        assert(found);
                        assert(out@[out@.len() - 1] == i);
                    }
                }
            }
            i = i + 1;
        }
        out
    }

    /// The full-operator column index of incidence pair `(i, j)`.
    pub fn col_index(&self, i: usize, j: usize) -> (r: usize)
        requires
            self.wf(),
            i < self.node_count,
            j < self.node_count,
        ensures
            r == i * self.node_count + j,
    {
        proof {
            assert(i * self.node_count + j < self.node_count * self.node_count)
                by (nonlinear_arith)
                requires
                    0 <= i < self.node_count,
                    0 <= j < self.node_count,
            ;
        }
        i * self.node_count + j
    }

    /// The operator with its all-zero rows removed, together with the list of
    /// full-matrix row indices that the compressed rows came from.
    pub fn compressed(&self) -> (r: (RMatrix, Vec<usize>))
        requires
            self.wf(),
        ensures
            ({
                let (cm, nz) = r;
                &&& cm.wf()
                &&& cm.cols == self.matrix.cols
                &&& cm.rows == nz@.len()
                &&& forall|k: int|
                    0 <= k < nz@.len() ==> (#[trigger] nz@[k]) < self.matrix.rows && row_nonzero(
                        self.matrix.view(),
                        nz@[k] as int,
                    )
                &&& forall|k1: int, k2: int| 0 <= k1 < k2 < nz@.len() ==> nz@[k1] < nz@[k2]
                &&& forall|i: int|
                    0 <= i < self.matrix.rows && row_nonzero(self.matrix.view(), i)
                        ==> nz@.contains(i as usize)
                &&& forall|k: int, c: int|
                    0 <= k < nz@.len() && 0 <= c < self.matrix.cols ==> #[trigger] cm.view()[k][c]
                        == self.matrix.view()[nz@[k] as int][c]
            }),
    {
        let nz = self.nonzero_rows();
        let mut data: Vec<Vec<Rat>> = Vec::new();
        let mut k: usize = 0;
        while k < nz.len()
            invariant
                self.wf(),
                0 <= k <= nz@.len(),
                forall|t: int|
                    0 <= t < nz@.len() ==> (#[trigger] nz@[t]) < self.matrix.rows,
                data@.len() == k,
                forall|t: int| 0 <= t < k ==> (#[trigger] data@[t])@.len() == self.matrix.cols,
                forall|t: int| 0 <= t < k ==> rats_wf((#[trigger] data@[t])@),
                forall|t: int, c: int|
                    0 <= t < k && 0 <= c < self.matrix.cols ==> (#[trigger] data@[t]@[c])@
                        == self.matrix.view()[nz@[t] as int][c],
            decreases nz@.len() - k,
        {
            let src_row = nz[k];
            let mut row: Vec<Rat> = Vec::new();
            let mut c: usize = 0;
            while c < self.matrix.cols
                invariant
                    self.wf(),
                    src_row < self.matrix.rows,
                    0 <= c <= self.matrix.cols,
                    row@.len() == c,
                    rats_wf(row@),
                    forall|b: int|
                        0 <= b < c ==> (#[trigger] row@[b])@ == self.matrix.view()[src_row as int][b],
                decreases self.matrix.cols - c,
            {
                row.push(self.matrix.data[src_row][c]);
                c = c + 1;
            }
            data.push(row);
            k = k + 1;
        }
        let cm = RMatrix { rows: data.len(), cols: self.matrix.cols, data };
        (cm, nz)
    }
}

/// Applying a column-stochastic operator conserves the total mass of the
/// state: when every column of `m` sums to one, the entries of `m · v` sum to
/// the same total as the entries of `v`.
pub proof fn lemma_stochastic_apply_conserves(m: Seq<Seq<Q>>, v: Seq<Q>)
    requires
        rectangular(m, v.len() as nat),
        grid_wf(m),
        all_wf(v),
        forall|j: int| 0 <= j < v.len() ==> q_eq(col_total(m, j), q_one()),
    ensures
        q_eq(q_sum(Seq::new(m.len(), |i: int| apply_entry(m, v, i))), q_sum(v)),
{
    let rows = m.len() as int;
    let cols = v.len() as int;
    let p = Seq::new(m.len(), |i: int| prod_seq(m[i], v));
    assert(rectangular(p, v.len() as nat));
    assert forall|i: int| 0 <= i < rows implies all_wf(#[trigger] p[i]) by {
        assert forall|j: int| 0 <= j < p[i].len() implies q_wf(#[trigger] p[i][j]) by {
            lemma_q_mul_wf(m[i][j], v[j]);
        }
    }
    assert(grid_wf(p));
    assert(row_sums(p) =~= Seq::new(m.len(), |i: int| apply_entry(m, v, i)));
    crate::sums::lemma_q_sum_exchange(p, v.len() as nat);
    // each column sum of the product grid is equivalent to the state entry
    assert forall|j: int| 0 <= j < cols implies q_eq(
        #[trigger] crate::sums::col_sums(p, v.len() as nat)[j],
        v[j],
    ) by {
        let cp = column(p, j);
        let cm = column(m, j);
        assert forall|i: int| 0 <= i < rows implies #[trigger] cp[i] == scale_seq(v[j], cm)[i] by {
            lemma_q_mul_comm(m[i][j], v[j]);
        }
        assert(cp =~= scale_seq(v[j], cm));
        lemma_column_wf(m, cols, rows, j);
        lemma_column_wf(p, cols, rows, j);
        lemma_q_sum_wf(cp);
        lemma_q_sum_scale(v[j], cm);
        lemma_q_sum_wf(cm);
        lemma_q_mul_wf(v[j], q_sum(cm));
        // v[j] * total(column) ~ v[j] * 1 ~ v[j]
        lemma_q_mul_congruence(v[j], v[j], col_total(m, j), q_one());
        lemma_q_mul_one(v[j]);
        lemma_q_mul_wf(v[j], q_one());
        lemma_q_eq_trans(q_sum(cp), q_mul(v[j], col_total(m, j)), q_mul(v[j], q_one()));
        lemma_q_eq_trans(q_sum(cp), q_mul(v[j], q_one()), v[j]);
    }
    crate::sums::lemma_col_sums_wf(p, v.len() as nat);
    lemma_q_sum_congruence(crate::sums::col_sums(p, v.len() as nat), v);
    crate::sums::lemma_row_sums_wf(p);
    lemma_q_sum_wf(row_sums(p));
    lemma_q_sum_wf(crate::sums::col_sums(p, v.len() as nat));
    lemma_q_sum_wf(v);
    lemma_q_eq_trans(
        q_sum(row_sums(p)),
        q_sum(crate::sums::col_sums(p, v.len() as nat)),
        q_sum(v),
    );
}

} // verus!
