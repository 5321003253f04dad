//! The classical walk's state: a rational state vector over the incidence
//! index, a step counter, and the operator that advances it.

use vstd::prelude::*;

verus! {

use crate::classical_transition_matrix::{
    apply_entry, apply_fits, build_spec, col_total, initial_state_spec, normalize_fits,
    normalized_from, normalized_spec, stochastic_cols, ClassicalTransitionMatrix,
};
use crate::matrix::{rats_view, rats_wf, RMatrix};
use crate::rational::{lemma_q_eq_trans, q_eq, q_mul, q_one, q_wf, Q, Rat};
use crate::sums::{all_wf, grid_wf, lemma_q_sum_congruence, lemma_q_sum_wf, q_sum, rectangular};
use crate::WalkError;

/// The state the manager reaches right after a rebuild: the initial vector
/// scattered once through the operator, with the step counter at zero.
pub open spec fn freshly_built(
    sm: ClassicalStateManager,
    weights: RMatrix,
    start: Option<usize>,
) -> bool {
    &&& sm.transition_matrix.wf()
    &&& sm.transition_matrix.node_count == weights.rows
    &&& normalized_from(
        build_spec(weights.view(), weights.rows as nat),
        sm.transition_matrix.matrix.view(),
        (weights.rows * weights.rows) as int,
        (weights.rows * weights.rows) as int,
    )
    &&& stochastic_cols(
        sm.transition_matrix.matrix.view(),
        (weights.rows * weights.rows) as int,
    )
    &&& sm.step == 0
    &&& sm.start_node_idx == start
    &&& sm.state@.len() == sm.transition_matrix.matrix.cols
    &&& rats_wf(sm.state@)
    &&& forall|i: int|
        0 <= i < sm.state@.len() ==> q_eq(
            #[trigger] rats_view(sm.state@)[i],
            apply_entry(
                sm.transition_matrix.matrix.view(),
                crate::classical_transition_matrix::initial_state_spec(
                    sm.transition_matrix.node_count as int,
                    sm.transition_matrix.matrix.cols as int,
                    start,
                ),
                i,
            ),
        )
}

/// Every value the rebuild path forms is representable: the input is
/// square, the normalization of the expanded operator stays in range, and so
/// does the one scattering application of the initial state.
pub open spec fn build_succeeds(weights: RMatrix, start: Option<usize>) -> bool {
    let size = (weights.rows * weights.rows) as int;
    let src = build_spec(weights.view(), weights.rows as nat);
    &&& weights.rows == weights.cols
    &&& normalize_fits(src, size, size)
    &&& apply_fits(
        normalized_spec(
            src,
            (weights.rows * weights.rows) as nat,
            (weights.rows * weights.rows) as nat,
        ),
        initial_state_spec(weights.rows as int, size, start),
    )
}

/// The classical walk state manager.
#[derive(Debug, Clone)]
pub struct ClassicalStateManager {
    pub state: Vec<Rat>,
    pub step: usize,
    pub transition_matrix: ClassicalTransitionMatrix,
    pub start_node_idx: Option<usize>,
}

impl ClassicalStateManager {
    pub open spec fn wf(self) -> bool {
        &&& self.transition_matrix.wf()
        &&& rats_wf(self.state@)
        &&& (self.start_node_idx matches Some(s) ==> s
            < self.transition_matrix.node_count)
    }

    /// Build the manager from a weight matrix: the operator is built and
    /// normalized, the state is the initial vector scattered once onto the
    /// start node's outgoing incidences, and the counter is zero.
    pub fn try_from(weights: &RMatrix) -> (r: Result<ClassicalStateManager, WalkError>)
        requires
            weights.wf(),
            weights.rows * weights.rows <= usize::MAX,
        ensures
            weights.rows != weights.cols <==> r == Err::<ClassicalStateManager, WalkError>(
                WalkError::NotSquare,
            ),
            r matches Ok(sm) ==> sm.wf() && freshly_built(sm, *weights, None::<usize>),
            r is Ok <==> build_succeeds(*weights, None::<usize>),
            r is Err ==> r == Err::<ClassicalStateManager, WalkError>(WalkError::NotSquare) || r
                == Err::<ClassicalStateManager, WalkError>(WalkError::NumericalInvalidity),
    {
        match Self::init_parts(weights, &None) {
            Ok((transition_matrix, state)) => Ok(
                ClassicalStateManager { state, step: 0, transition_matrix, start_node_idx: None },
            ),
            Err(e) => Err(e),
        }
    }

    /// The shared rebuild path of construction and reset: build the
    /// operator, take the initial state, and scatter it once.
    fn init_parts(weights: &RMatrix, start: &Option<usize>) -> (r: Result<
        (ClassicalTransitionMatrix, Vec<Rat>),
        WalkError,
    >)
        requires
            weights.wf(),
            weights.rows * weights.rows <= usize::MAX,
            start matches Some(s) ==> s < weights.rows,
        ensures
            weights.rows != weights.cols <==> r == Err::<
                (ClassicalTransitionMatrix, Vec<Rat>),
                WalkError,
            >(WalkError::NotSquare),
            r matches Ok(parts) ==> ({
                let (t, state) = parts;
                &&& t.wf()
                &&& t.node_count == weights.rows
                &&& normalized_from(
                    build_spec(weights.view(), weights.rows as nat),
                    t.matrix.view(),
                    (weights.rows * weights.rows) as int,
                    (weights.rows * weights.rows) as int,
                )
                &&& stochastic_cols(t.matrix.view(), (weights.rows * weights.rows) as int)
                &&& state@.len() == t.matrix.cols
                &&& rats_wf(state@)
                &&& forall|i: int|
                    0 <= i < state@.len() ==> q_eq(
                        #[trigger] rats_view(state@)[i],
                        apply_entry(
                            t.matrix.view(),
                            crate::classical_transition_matrix::initial_state_spec(
                                t.node_count as int,
                                t.matrix.cols as int,
                                *start,
                            ),
                            i,
                        ),
                    )
            }),
            r is Ok <==> build_succeeds(*weights, *start),
            r is Err ==> r == Err::<(ClassicalTransitionMatrix, Vec<Rat>), WalkError>(
                WalkError::NotSquare,
            ) || r == Err::<(ClassicalTransitionMatrix, Vec<Rat>), WalkError>(
                WalkError::NumericalInvalidity,
            ),
    {
        let transition_matrix = match ClassicalTransitionMatrix::try_from(weights) {
            Ok(t) => t,
            Err(e) => {
                return Err(e);
            },
        };
        let initial = transition_matrix.get_initial_state(start);
        proof {
            let n = weights.rows;
            let sizen = (n * n) as nat;
            let src = build_spec(weights.view(), n as nat);
            let nspec = normalized_spec(src, sizen, sizen);
            let init = initial_state_spec(n as int, (n * n) as int, *start);
            // the expanded source grid is well-formed
            assert forall|i: int| 0 <= i < src.len() implies all_wf(#[trigger] src[i]) by {
                assert forall|j: int| 0 <= j < src[i].len() implies q_wf(#[trigger] src[i][j]) by {
                    assert(0 <= i % (n as int) < n && 0 <= i / (n as int) < n)
                        by (nonlinear_arith)
                        requires
                            0 <= i < n * n,
                            n >= 0,
                    ;
                }
            }
            assert(grid_wf(src));
            transition_matrix.matrix.lemma_wf_grid();
            crate::classical_transition_matrix::lemma_normalized_matches_spec(
                src,
                transition_matrix.matrix.view(),
                sizen,
                sizen,
            );
            // so is the exact normalized operator
            assert forall|i: int| 0 <= i < nspec.len() implies all_wf(#[trigger] nspec[i]) by {
                assert forall|j: int|
                    0 <= j < nspec[i].len() implies q_wf(#[trigger] nspec[i][j]) by {
                    assert(q_wf(normalized_spec(src, sizen, sizen)[i][j]));
                }
            }
            assert(grid_wf(nspec));
            assert(rectangular(nspec, sizen));
            // and the initial vector
            assert forall|i: int| 0 <= i < init.len() implies q_wf(#[trigger] init[i]) by {}
            assert(all_wf(init));
            // the operator's representatives and its exact values compute
            // alike
            crate::classical_transition_matrix::lemma_apply_fits_congruent(
                transition_matrix.matrix.view(),
                nspec,
                init,
                sizen,
            );
            assert(rats_view(initial@) == init);
        }
        // scatter the self-incidence mass onto the start node's real
        // outgoing incidences without counting it as a step
        match transition_matrix.apply(&initial) {
            Ok(state) => Ok((transition_matrix, state)),
            Err(_) => Err(WalkError::NumericalInvalidity),
        }
    }

    /// Advance the walk one step: the state becomes the operator applied to
    /// it and the counter increases.  Fails with `DimensionMismatch` exactly
    /// when the operator's column count does not match the state, in which
    /// case nothing changes; on an arithmetic failure nothing changes
    /// either.
    pub fn step_forward(&mut self) -> (r: Result<(), WalkError>)
        requires
            old(self).wf(),
        ensures
            final(self).wf(),
            r == Err::<(), WalkError>(WalkError::DimensionMismatch) <==> old(self).state@.len()
                != old(self).transition_matrix.matrix.cols,
            r is Ok <==> (old(self).state@.len() == old(self).transition_matrix.matrix.cols
                && old(self).step < usize::MAX && apply_fits(
                old(self).transition_matrix.matrix.view(),
                rats_view(old(self).state@),
            )),
            r matches Ok(u) ==> {
                &&& final(self).step == old(self).step + 1
                &&& final(self).transition_matrix == old(self).transition_matrix
                &&& final(self).start_node_idx == old(self).start_node_idx
                &&& final(self).state@.len() == old(self).transition_matrix.matrix.rows
                &&& forall|i: int|
                    0 <= i < final(self).state@.len() ==> q_eq(
                        #[trigger] rats_view(final(self).state@)[i],
                        apply_entry(
                            old(self).transition_matrix.matrix.view(),
                            rats_view(old(self).state@),
                            i,
                        ),
                    )
            },
            r is Err ==> *final(self) == *old(self),
    {
        match self.transition_matrix.apply(&self.state) {
            Ok(updated) => {
                if self.step == usize::MAX {
                    // a counter past the machine range cannot be represented
                    return Err(WalkError::NumericalInvalidity);
                }
                self.state = updated;
                self.step = self.step + 1;
                Ok(())
            },
            Err(e) => Err(e),
        }
    }

    /// The per-node distribution: the state vector in contiguous chunks of
    /// `node_count`, each chunk summed to one scalar.
    pub fn get_state_data(&self) -> (r: Result<Vec<Rat>, WalkError>)
        requires
            self.wf(),
        ensures
            self.state@.len() != self.transition_matrix.matrix.cols ==> r == Err::<
                Vec<Rat>,
                WalkError,
            >(WalkError::DimensionMismatch),
            r matches Ok(v) ==> {
                &&& self.state@.len() == self.transition_matrix.matrix.cols
                &&& v@.len() == self.transition_matrix.node_count
                &&& rats_wf(v@)
                &&& forall|k: int|
                    0 <= k < v@.len() ==> q_eq(
                        #[trigger] rats_view(v@)[k],
                        q_sum(
                            rats_view(self.state@).subrange(
                                k * self.transition_matrix.node_count,
                                (k + 1) * self.transition_matrix.node_count,
                            ),
                        ),
                    )
            },
            r is Ok <==> (self.state@.len() == self.transition_matrix.matrix.cols && forall|k: int|
                0 <= k < self.transition_matrix.node_count ==> crate::sums::partial_sums_fit(
                    #[trigger] rats_view(self.state@).subrange(
                        k * self.transition_matrix.node_count,
                        (k + 1) * self.transition_matrix.node_count,
                    ),
                )),
            r is Err ==> r == Err::<Vec<Rat>, WalkError>(WalkError::DimensionMismatch) || r
                == Err::<Vec<Rat>, WalkError>(WalkError::NumericalInvalidity),
    {
        let n = self.transition_matrix.node_count;
        if self.state.len() != self.transition_matrix.matrix.cols {
            return Err(WalkError::DimensionMismatch);
        }
        let mut out: Vec<Rat> = Vec::new();
        let mut k: usize = 0;
        proof {
            assert(self.state@.len() == n * n);
        }
        while k < n
            invariant
                self.wf(),
                n == self.transition_matrix.node_count,
                self.state@.len() == n * n,
                0 <= k <= n,
                out@.len() == k,
                rats_wf(out@),
                forall|t: int|
                    0 <= t < k ==> q_eq(
                        (#[trigger] out@[t])@,
                        q_sum(rats_view(self.state@).subrange(t * n, (t + 1) * n)),
                    ),
                forall|t: int|
                    0 <= t < k ==> crate::sums::partial_sums_fit(
                        #[trigger] rats_view(self.state@).subrange(t * n, (t + 1) * n),
                    ),
            decreases n - k,
        {
            proof {
                assert((k + 1) * n <= n * n) by (nonlinear_arith)
                    requires
                        0 <= k < n,
                ;
                assert(k * n <= (k + 1) * n) by (nonlinear_arith)
                    requires
                        n >= 0,
                        k >= 0,
                ;
                assert(k * n + n == (k + 1) * n) by (nonlinear_arith);
            }
            let mut chunk: Vec<Rat> = Vec::new();
            let mut i: usize = 0;
            while i < n
                invariant
                    self.wf(),
                    n == self.transition_matrix.node_count,
                    self.state@.len() == n * n,
                    0 <= k < n,
                    k * n <= (k + 1) * n,
                    (k + 1) * n <= n * n,
                    k * n + n == (k + 1) * n,
                    0 <= i <= n,
                    chunk@.len() == i,
                    rats_wf(chunk@),
                    forall|t: int|
                        0 <= t < i ==> (#[trigger] chunk@[t]) == self.state@[k * n + t],
                decreases n - i,
            {
                chunk.push(self.state[k * n + i]);
                i = i + 1;
            }
            proof {
                assert(rats_view(chunk@) =~= rats_view(self.state@).subrange(
                    k as int * n,
                    (k as int + 1) * n,
                ));
            }
            let total = match crate::matrix::sum_rats(&chunk) {
                Some(t) => t,
                None => {
                    proof {
                        assert(!crate::sums::partial_sums_fit(
                            rats_view(self.state@).subrange(k as int * n, (k as int + 1) * n),
                        ));
                    }
                    return Err(WalkError::NumericalInvalidity);
                },
            };
            out.push(total);
            k = k + 1;
        }
        Ok(out)
    }

    /// Rebuild the operator from a weight matrix and return the walk to its
    /// initial state with the counter at zero, exactly as construction
    /// leaves it.  On failure nothing changes.
    pub fn reset_state(&mut self, weights: &RMatrix) -> (r: Result<(), WalkError>)
        requires
            old(self).wf(),
            weights.wf(),
            weights.rows * weights.rows <= usize::MAX,
            old(self).start_node_idx matches Some(s) ==> s < weights.rows,
        ensures
            final(self).wf(),
            r matches Ok(u) ==> freshly_built(*final(self), *weights, old(self).start_node_idx),
            r is Ok <==> build_succeeds(*weights, old(self).start_node_idx),
            r is Err ==> *final(self) == *old(self),
            weights.rows != weights.cols <==> r == Err::<(), WalkError>(WalkError::NotSquare),
    {
        match Self::init_parts(weights, &self.start_node_idx) {
            Ok((transition_matrix, state)) => {
                self.transition_matrix = transition_matrix;
                self.state = state;
                self.step = 0;
                Ok(())
            },
            Err(e) => Err(e),
        }
    }

    /// Replace the operator from a weight matrix, keeping the state; on
    /// failure the manager is unchanged.
    pub fn set_transition_matrix_from(&mut self, weights: &RMatrix)
        requires
            old(self).wf(),
            weights.wf(),
            weights.rows * weights.rows <= usize::MAX,
        ensures
            final(self).wf(),
            final(self).state == old(self).state,
            final(self).step == old(self).step,
            final(self).start_node_idx == old(self).start_node_idx,
            final(self).transition_matrix == old(self).transition_matrix || {
                let t = final(self).transition_matrix;
                &&& t.wf()
                &&& t.node_count == weights.rows
                &&& normalized_from(
                    build_spec(weights.view(), weights.rows as nat),
                    t.matrix.view(),
                    (weights.rows * weights.rows) as int,
                    (weights.rows * weights.rows) as int,
                )
                &&& stochastic_cols(t.matrix.view(), (weights.rows * weights.rows) as int)
            },
    {
        match ClassicalTransitionMatrix::try_from(weights) {
            Ok(t) => {
                if match self.start_node_idx {
                    Some(s) => s < t.node_count,
                    None => true,
                } {
                    self.transition_matrix = t;
                }
            },
            Err(_) => {},
        }
    }

    pub fn get_step(&self) -> (r: usize)
        ensures
            r == self.step,
    {
        self.step
    }

    /// Whether the operator was built for this many nodes.
    pub fn is_transition_matrix_sized_correctly(&self, node_count: usize) -> (r: bool)
        requires
            self.wf(),
            node_count * node_count <= usize::MAX,
        ensures
            r == (node_count * node_count == self.transition_matrix.matrix.cols),
    {
        node_count * node_count == self.transition_matrix.matrix.cols
    }

    pub fn set_start_node_idx(&mut self, start_node_idx: usize)
        requires
            old(self).wf(),
            start_node_idx < old(self).transition_matrix.node_count,
        ensures
            final(self).wf(),
            *final(self) == (ClassicalStateManager {
                start_node_idx: Some(start_node_idx),
                ..*old(self)
            }),
    {
        self.start_node_idx = Some(start_node_idx);
    }
}


/// Normalization is a function of its input up to equivalence: two grids
/// normalized from the same source agree entrywise.
pub proof fn lemma_normalized_unique(
    src: Seq<Seq<Q>>,
    d1: Seq<Seq<Q>>,
    d2: Seq<Seq<Q>>,
    rows: int,
    cols: int,
)
    requires
        src.len() == rows,
        d1.len() == rows,
        d2.len() == rows,
        rows >= 0,
        cols >= 0,
        crate::sums::rectangular(src, cols as nat),
        crate::sums::rectangular(d1, cols as nat),
        crate::sums::rectangular(d2, cols as nat),
        crate::sums::grid_wf(src),
        crate::sums::grid_wf(d1),
        crate::sums::grid_wf(d2),
        normalized_from(src, d1, rows, cols),
        normalized_from(src, d2, rows, cols),
    ensures
        forall|i: int, j: int|
            0 <= i < rows && 0 <= j < cols ==> q_eq(#[trigger] d1[i][j], #[trigger] d2[i][j]),
{
    assert forall|i: int, j: int|
        0 <= i < rows && 0 <= j < cols implies q_eq(#[trigger] d1[i][j], #[trigger] d2[i][j]) by {
        let s = col_total(src, j);
        assert(crate::sums::all_wf(crate::sums::column(src, j)));
        crate::sums::lemma_q_sum_wf(crate::sums::column(src, j));
        if crate::classical_transition_matrix::col_touched(src, j) {
            crate::rational::lemma_q_is_zero_iff(s);
            crate::rational::lemma_q_mul_wf(d1[i][j], s);
            crate::rational::lemma_q_mul_wf(d2[i][j], s);
            crate::rational::lemma_q_eq_symmetric(q_mul(d2[i][j], s), src[i][j]);
            crate::rational::lemma_q_eq_trans(q_mul(d1[i][j], s), src[i][j], q_mul(d2[i][j], s));
            crate::rational::lemma_q_mul_cancel(d1[i][j], d2[i][j], s);
        }
    }
}

/// A fresh build is determined up to equivalence: two managers freshly
/// built from the same weight matrix with the same start node hold
/// entrywise-equivalent states, and therefore display the same per-node
/// distribution.  In particular, resetting after any number of steps
/// returns the walk to exactly what construction produced.
pub proof fn lemma_reset_matches_construction(
    sm1: ClassicalStateManager,
    sm2: ClassicalStateManager,
    weights: RMatrix,
    start: Option<usize>,
)
    requires
        weights.wf(),
        weights.rows == weights.cols,
        sm1.transition_matrix.matrix.wf(),
        sm2.transition_matrix.matrix.wf(),
        freshly_built(sm1, weights, start),
        freshly_built(sm2, weights, start),
    ensures
        sm1.step == 0 && sm2.step == 0,
        sm1.state@.len() == sm2.state@.len(),
        forall|i: int|
            0 <= i < sm1.state@.len() ==> q_eq(
                #[trigger] rats_view(sm1.state@)[i],
                #[trigger] rats_view(sm2.state@)[i],
            ),
        forall|k: int|
            0 <= k < sm1.transition_matrix.node_count ==> q_eq(
                q_sum(
                    #[trigger] rats_view(sm1.state@).subrange(
                        k * sm1.transition_matrix.node_count,
                        (k + 1) * sm1.transition_matrix.node_count,
                    ),
                ),
                q_sum(
                    rats_view(sm2.state@).subrange(
                        k * sm2.transition_matrix.node_count,
                        (k + 1) * sm2.transition_matrix.node_count,
                    ),
                ),
            ),
{
    let n = weights.rows as int;
    let size = n * n;
    let src = build_spec(weights.view(), weights.rows as nat);
    let m1 = sm1.transition_matrix.matrix.view();
    let m2 = sm2.transition_matrix.matrix.view();
    let init = crate::classical_transition_matrix::initial_state_spec(n, size, start);
    // the source grid is well-formed: its entries are weights or zero
    assert forall|i: int| 0 <= i < size implies crate::sums::all_wf(#[trigger] src[i]) by {
        assert forall|j: int| 0 <= j < src[i].len() implies q_wf(#[trigger] src[i][j]) by {
            assert(0 <= i % n < n && 0 <= i / n < n) by (nonlinear_arith)
                requires
                    0 <= i < n * n,
                    n > 0,
            ;
        }
    }
    sm1.transition_matrix.matrix.lemma_wf_grid();
    sm2.transition_matrix.matrix.lemma_wf_grid();
    lemma_normalized_unique(src, m1, m2, size, size);
    // the initial vector is well-formed
    assert forall|i: int| 0 <= i < init.len() implies q_wf(#[trigger] init[i]) by {}
    // the two scattered states agree entrywise
    assert forall|i: int|
        0 <= i < sm1.state@.len() implies q_eq(
        #[trigger] rats_view(sm1.state@)[i],
        #[trigger] rats_view(sm2.state@)[i],
    ) by {
        let p1 = crate::matrix::prod_seq(m1[i], init);
        let p2 = crate::matrix::prod_seq(m2[i], init);
        assert forall|j: int| 0 <= j < p1.len() implies q_wf(#[trigger] p1[j]) by {
            crate::rational::lemma_q_mul_wf(m1[i][j], init[j]);
        }
        assert forall|j: int| 0 <= j < p2.len() implies q_wf(#[trigger] p2[j]) by {
            crate::rational::lemma_q_mul_wf(m2[i][j], init[j]);
        }
        assert forall|j: int| 0 <= j < p1.len() implies q_eq(#[trigger] p1[j], #[trigger] p2[j]) by {
            crate::rational::lemma_q_mul_wf(m1[i][j], init[j]);
            crate::rational::lemma_q_mul_wf(m2[i][j], init[j]);
            crate::rational::lemma_q_mul_congruence(m1[i][j], m2[i][j], init[j], init[j]);
        }
        crate::sums::lemma_q_sum_congruence(p1, p2);
        crate::sums::lemma_q_sum_wf(p1);
        crate::sums::lemma_q_sum_wf(p2);
        crate::rational::lemma_q_eq_symmetric(rats_view(sm2.state@)[i], q_sum(p2));
        crate::rational::lemma_q_eq_trans(rats_view(sm1.state@)[i], q_sum(p1), q_sum(p2));
        crate::rational::lemma_q_eq_trans(
            rats_view(sm1.state@)[i],
            q_sum(p2),
            rats_view(sm2.state@)[i],
        );
    }
    // and so do the per-node chunk sums
    assert forall|k: int|
        0 <= k < sm1.transition_matrix.node_count implies q_eq(
        q_sum(
            #[trigger] rats_view(sm1.state@).subrange(
                k * sm1.transition_matrix.node_count,
                (k + 1) * sm1.transition_matrix.node_count,
            ),
        ),
        q_sum(
            rats_view(sm2.state@).subrange(
                k * sm2.transition_matrix.node_count,
                (k + 1) * sm2.transition_matrix.node_count,
            ),
        ),
    ) by {
        let c1 = rats_view(sm1.state@).subrange(k * n, (k + 1) * n);
        let c2 = rats_view(sm2.state@).subrange(k * n, (k + 1) * n);
        assert(0 <= k * n && (k + 1) * n <= size && k * n + n == (k + 1) * n)
            by (nonlinear_arith)
            requires
                0 <= k < n,
                size == n * n,
        ;
        assert forall|i: int| 0 <= i < c1.len() implies q_wf(#[trigger] c1[i]) && q_wf(c2[i])
            && q_eq(c1[i], c2[i]) by {
            assert(c1[i] == rats_view(sm1.state@)[k * n + i]);
            assert(c2[i] == rats_view(sm2.state@)[k * n + i]);
        }
        crate::sums::lemma_q_sum_congruence(c1, c2);
    }
}

/// Probability conservation of the classical walk: when every column of the
/// operator sums to one, one step keeps the total mass of the state.
pub proof fn lemma_step_forward_conserves(op: Seq<Seq<Q>>, before: Seq<Q>, after: Seq<Q>)
    requires
        rectangular(op, before.len() as nat),
        grid_wf(op),
        all_wf(before),
        all_wf(after),
        after.len() == op.len(),
        forall|j: int| 0 <= j < before.len() ==> q_eq(col_total(op, j), q_one()),
        forall|i: int| 0 <= i < after.len() ==> q_eq(#[trigger] after[i], apply_entry(op, before, i)),
    ensures
        q_eq(q_sum(after), q_sum(before)),
{
    let exact = Seq::new(op.len(), |i: int| apply_entry(op, before, i));
    crate::classical_transition_matrix::lemma_stochastic_apply_conserves(op, before);
    assert forall|i: int| 0 <= i < exact.len() implies q_wf(#[trigger] exact[i]) by {
        assert forall|j: int| 0 <= j < crate::matrix::prod_seq(op[i], before).len() implies q_wf(
            #[trigger] crate::matrix::prod_seq(op[i], before)[j],
        ) by {
            crate::rational::lemma_q_mul_wf(op[i][j], before[j]);
        }
        lemma_q_sum_wf(crate::matrix::prod_seq(op[i], before));
    }
    lemma_q_sum_congruence(after, exact);
    lemma_q_sum_wf(after);
    lemma_q_sum_wf(exact);
    lemma_q_sum_wf(before);
    lemma_q_eq_trans(q_sum(after), q_sum(exact), q_sum(before));
}

} // verus!
