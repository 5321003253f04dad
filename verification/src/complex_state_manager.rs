//! The quantum walk's state: a complex amplitude vector over the half-edge
//! index, a step counter, the combined operator, and the absorbing-target
//! bookkeeping.
//!
//! The amplitude vector carries an implicit overall normalization: every
//! displayed probability divides by the vector's squared norm.  This keeps
//! every quantity of the engine an exact rational — the initial equal
//! superposition and the absorption step need no square roots.

use vstd::prelude::*;

verus! {

use crate::complex::{qc_norm_fits, qc_norm_sqr, qc_wf, qc_zero, Cx, QC};
use crate::complex_matrix::{cxs_view, cxs_wf, CMatrix};
use crate::complex_transition_matrix::ComplexTransitionMatrix;
use crate::matrix::{rats_view, rats_wf};
use crate::rational::{
    lemma_q_eq_symmetric, lemma_q_eq_trans, lemma_q_fits_congruent, lemma_q_mul_congruence,
    lemma_q_mul_wf, lemma_q_sub_wf, q_add, q_div, q_eq, q_fits, q_is_zero, q_mul, q_one, q_sub,
    q_wf, q_zero, Q, Rat,
};
use crate::sums::partial_sums_fit;
use crate::sums::q_sum;
use crate::WalkError;

/// The squared magnitudes of an amplitude vector.
pub open spec fn norms_of(v: Seq<QC>) -> Seq<Q> {
    Seq::new(v.len(), |i: int| qc_norm_sqr(v[i]))
}

/// The squared-magnitude sequence restricted to the half-edges leaving node
/// `t`; all other positions are zero.
pub open spec fn masked_by_node(ns: Seq<Q>, labels: Seq<(usize, usize)>, t: int) -> Seq<Q> {
    Seq::new(
        ns.len(),
        |i: int|
            if labels[i].0 == t {
                ns[i]
            } else {
                q_zero()
            },
    )
}

/// The squared-magnitude sequence restricted to half-edges leaving any
/// target node.
pub open spec fn masked_by_targets(
    ns: Seq<Q>,
    labels: Seq<(usize, usize)>,
    targets: Seq<bool>,
) -> Seq<Q> {
    Seq::new(
        ns.len(),
        |i: int|
            if targets[labels[i].0 as int] {
                ns[i]
            } else {
                q_zero()
            },
    )
}

/// Some half-edge leaves a target node.
pub open spec fn has_target_half_edge(labels: Seq<(usize, usize)>, targets: Seq<bool>) -> bool {
    exists|i: int| 0 <= i < labels.len() && targets[(#[trigger] labels[i]).0 as int]
}

/// The quantum walk state manager.
#[derive(Debug, Clone)]
pub struct ComplexStateManager {
    pub state: Vec<Cx>,
    pub step: usize,
    pub transition_matrix: ComplexTransitionMatrix,
    pub labels: Vec<(usize, usize)>,
    pub node_count: usize,
    pub start_node_idx: Option<usize>,
    pub target_node_indexes: Vec<bool>,
    pub target_node_accumulation: Vec<Rat>,
    pub amount_removed_by_accumulation: Rat,
}

impl ComplexStateManager {
    /// Well-formedness of everything but the live state vector.
    pub open spec fn config_wf(self) -> bool {
        &&& self.transition_matrix.wf()
        &&& self.labels@.len() == self.transition_matrix.matrix.cols
        &&& forall|i: int|
            0 <= i < self.labels@.len() ==> (#[trigger] self.labels@[i]).0 < self.node_count
        &&& self.target_node_indexes@.len() == self.node_count
        &&& self.target_node_accumulation@.len() == self.node_count
        &&& rats_wf(self.target_node_accumulation@)
        &&& self.amount_removed_by_accumulation.wf()
    }

    pub open spec fn wf(self) -> bool {
        &&& self.config_wf()
        &&& cxs_wf(self.state@)
        &&& self.state@.len() == self.transition_matrix.matrix.cols
    }

    /// The absorption accounting every reachable manager maintains: mass
    /// accumulates only at target nodes, and the buckets sum to the total
    /// removed mass.  Construction and reset establish it, and stepping
    /// keeps it while the target set stands.
    pub open spec fn accounting_inv(self) -> bool {
        &&& (forall|t: int|
            0 <= t < self.node_count && !self.target_node_indexes@[t] ==> q_is_zero(
                #[trigger] rats_view(self.target_node_accumulation@)[t],
            ))
        &&& q_eq(
            q_sum(rats_view(self.target_node_accumulation@)),
            self.amount_removed_by_accumulation@,
        )
    }

    /// Build the manager: the state is the equal superposition over the
    /// start node's outgoing half-edges, the counter is zero, and the
    /// absorption accumulators are empty.
    pub fn new(
        matrix: &CMatrix,
        labels: &Vec<(usize, usize)>,
        node_count: usize,
        start_node_idx: usize,
        target_node_indexes: Vec<bool>,
    ) -> (r: ComplexStateManager)
        requires
            matrix.wf(),
            matrix.rows == matrix.cols,
            labels@.len() == matrix.cols,
            forall|i: int| 0 <= i < labels@.len() ==> (#[trigger] labels@[i]).0 < node_count,
            target_node_indexes@.len() == node_count,
        ensures
            r.wf(),
            r.step == 0,
            r.transition_matrix.matrix.view() == matrix.view(),
            r.transition_matrix.matrix.cols == matrix.cols,
            r.labels@ == labels@,
            r.node_count == node_count,
            r.start_node_idx == Some(start_node_idx),
            r.target_node_indexes == target_node_indexes,
            forall|t: int|
                0 <= t < node_count ==> #[trigger] rats_view(r.target_node_accumulation@)[t]
                    == q_zero(),
            r.amount_removed_by_accumulation@ == q_zero(),
            forall|i: int|
                0 <= i < r.state@.len() ==> #[trigger] cxs_view(r.state@)[i] == (if labels@[i].0
                    == start_node_idx {
                    crate::complex::qc_one()
                } else {
                    qc_zero()
                }),
            r.accounting_inv(),
    {
        let transition_matrix = ComplexTransitionMatrix::new(matrix.clone_matrix());
        let state = transition_matrix.get_initial_state(Some(start_node_idx), labels);
        let r = ComplexStateManager {
            state,
            step: 0,
            transition_matrix,
            labels: clone_labels(labels),
            node_count,
            start_node_idx: Some(start_node_idx),
            target_node_indexes,
            target_node_accumulation: crate::matrix::zero_vec(node_count),
            amount_removed_by_accumulation: Rat::zero(),
        };
        proof {
            crate::sums::lemma_q_sum_zero(rats_view(r.target_node_accumulation@));
        }
        r
    }

    pub fn get_step(&self) -> (r: usize)
        ensures
            r == self.step,
    {
        self.step
    }

    pub fn set_start_node_idx(&mut self, start_node_idx: usize)
        requires
            old(self).wf(),
        ensures
            final(self).wf(),
            *final(self) == (ComplexStateManager {
                start_node_idx: Some(start_node_idx),
                ..*old(self)
            }),
    {
        self.start_node_idx = Some(start_node_idx);
    }

    pub fn set_target_node_indexes(&mut self, target_node_indexes: Vec<bool>)
        requires
            old(self).wf(),
            target_node_indexes@.len() == old(self).node_count,
        ensures
            final(self).wf(),
            *final(self) == (ComplexStateManager { target_node_indexes, ..*old(self) }),
    {
        self.target_node_indexes = target_node_indexes;
    }

    /// Return the walk to its initial state: the equal superposition over
    /// the start node, zero accumulation, counter zero.  The operator is
    /// kept.
    pub fn reset_state(&mut self)
        requires
            old(self).config_wf(),
        ensures
            final(self).wf(),
            final(self).step == 0,
            final(self).transition_matrix == old(self).transition_matrix,
            final(self).labels@ == old(self).labels@,
            final(self).node_count == old(self).node_count,
            final(self).start_node_idx == old(self).start_node_idx,
            final(self).target_node_indexes == old(self).target_node_indexes,
            forall|t: int|
                0 <= t < old(self).node_count ==> #[trigger] rats_view(
                    final(self).target_node_accumulation@,
                )[t] == q_zero(),
            final(self).amount_removed_by_accumulation@ == q_zero(),
            forall|i: int|
                0 <= i < final(self).state@.len() ==> #[trigger] cxs_view(final(self).state@)[i]
                    == (if old(self).labels@[i].0 == (match old(self).start_node_idx {
                    Some(s) => s as int,
                    None => 0,
                }) {
                    crate::complex::qc_one()
                } else {
                    qc_zero()
                }),
            final(self).state@.len() == old(self).labels@.len(),
            final(self).accounting_inv(),
    {
        self.step = 0;
        self.state = self.transition_matrix.get_initial_state(self.start_node_idx, &self.labels);
        self.target_node_accumulation = crate::matrix::zero_vec(self.node_count);
        self.amount_removed_by_accumulation = Rat::zero();
        proof {
            crate::sums::lemma_q_sum_zero(rats_view(self.target_node_accumulation@));
        }
    }

    /// Adopt a new combined operator.  When its dimension no longer matches
    /// the state the walk is reset alongside the new label set; otherwise
    /// the state survives the swap.
    pub fn make_transition_matrix_compatible(
        &mut self,
        matrix: &CMatrix,
        labels: &Vec<(usize, usize)>,
    )
        requires
            old(self).wf(),
            matrix.wf(),
            matrix.rows == matrix.cols,
            labels@.len() == matrix.cols,
            forall|i: int|
                0 <= i < labels@.len() ==> (#[trigger] labels@[i]).0 < old(self).node_count,
        ensures
            final(self).wf(),
            final(self).transition_matrix.matrix.view() == matrix.view(),
            final(self).transition_matrix.matrix.cols == matrix.cols,
            final(self).node_count == old(self).node_count,
            final(self).start_node_idx == old(self).start_node_idx,
            final(self).target_node_indexes == old(self).target_node_indexes,
            final(self).labels@ == labels@,
            old(self).state@.len() == matrix.cols ==> final(self).state == old(self).state
                && final(self).step == old(self).step
                && final(self).target_node_accumulation == old(self).target_node_accumulation
                && final(self).amount_removed_by_accumulation
                    == old(self).amount_removed_by_accumulation,
            old(self).state@.len() != matrix.cols ==> final(self).step == 0
                && final(self).amount_removed_by_accumulation@ == q_zero()
                && (forall|t: int|
                    0 <= t < old(self).node_count ==> #[trigger] rats_view(
                        final(self).target_node_accumulation@,
                    )[t] == q_zero())
                && final(self).state@.len() == labels@.len()
                && (forall|i: int|
                    0 <= i < final(self).state@.len() ==> #[trigger] cxs_view(
                        final(self).state@,
                    )[i] == (if labels@[i].0 == (match old(self).start_node_idx {
                        Some(s) => s as int,
                        None => 0,
                    }) {
                        crate::complex::qc_one()
                    } else {
                        qc_zero()
                    })),
    {
        if self.state.len() != matrix.cols {
            self.transition_matrix = ComplexTransitionMatrix::new(matrix.clone_matrix());
            self.labels = clone_labels(labels);
            self.reset_state();
        } else {
            self.transition_matrix = ComplexTransitionMatrix::new(matrix.clone_matrix());
            self.labels = clone_labels(labels);
        }
    }

    pub fn set_transition_matrix_from(&mut self, combined_matrix: &CMatrix)
        requires
            old(self).wf(),
            combined_matrix.wf(),
            combined_matrix.rows == combined_matrix.cols,
            combined_matrix.cols == old(self).state@.len(),
        ensures
            final(self).wf(),
            *final(self) == (ComplexStateManager {
                transition_matrix: final(self).transition_matrix,
                ..*old(self)
            }),
            final(self).transition_matrix.matrix.view() == combined_matrix.view(),
            final(self).transition_matrix.matrix.cols == combined_matrix.cols,
    {
        self.transition_matrix = ComplexTransitionMatrix::new(combined_matrix.clone_matrix());
    }

    /// The per-node accumulated absorption, as recorded so far.
    pub fn get_target_accumulation(&self) -> (r: Vec<Rat>)
        requires
            self.wf(),
        ensures
            r@.len() == self.node_count,
            rats_wf(r@),
            forall|t: int|
                0 <= t < self.node_count ==> #[trigger] rats_view(r@)[t] == rats_view(
                    self.target_node_accumulation@,
                )[t],
    {
        let mut out: Vec<Rat> = Vec::new();
        let mut t: usize = 0;
        while t < self.target_node_accumulation.len()
            invariant
                self.wf(),
                0 <= t <= self.node_count,
                self.target_node_accumulation@.len() == self.node_count,
                out@.len() == t,
                rats_wf(out@),
                forall|k: int|
                    0 <= k < t ==> #[trigger] out@[k] == self.target_node_accumulation@[k],
            decreases self.target_node_accumulation@.len() - t,
        {
            out.push(self.target_node_accumulation[t]);
            t = t + 1;
        }
        out
    }
}

/// How one absorption pass transforms the manager's bookkeeping, stated
/// over the amplitude vector `mid` that entered the pass: when no half-edge
/// leaves a target node, or the vector has no mass, nothing changes; else
/// every target half-edge's amplitude is removed, each target node's bucket
/// grows by the still-unremoved share of that node's mass, and the total
/// removed grows by the still-unremoved share of all target mass.
pub open spec fn absorb_rel(
    mid: Seq<QC>,
    labels: Seq<(usize, usize)>,
    targets: Seq<bool>,
    acc_old: Seq<Q>,
    acc_new: Seq<Q>,
    a_old: Q,
    a_new: Q,
    state_new: Seq<QC>,
) -> bool {
    let ns = norms_of(mid);
    let total = q_sum(ns);
    let tm = q_sum(masked_by_targets(ns, labels, targets));
    if !has_target_half_edge(labels, targets) || q_is_zero(total) {
        state_new == mid && acc_new == acc_old && a_new == a_old
    } else {
        &&& state_new.len() == mid.len()
        &&& forall|i: int|
            0 <= i < mid.len() ==> #[trigger] state_new[i] == (if targets[labels[i].0 as int] {
                qc_zero()
            } else {
                mid[i]
            })
        &&& acc_new.len() == acc_old.len()
        &&& forall|t: int|
            0 <= t < acc_old.len() ==> (if targets[t] {
                q_eq(
                    q_mul(q_sub(#[trigger] acc_new[t], acc_old[t]), total),
                    q_mul(q_sub(q_one(), a_old), q_sum(masked_by_node(ns, labels, t))),
                )
            } else {
                q_eq(acc_new[t], acc_old[t])
            })
        &&& q_eq(q_mul(q_sub(a_new, a_old), total), q_mul(q_sub(q_one(), a_old), tm))
    }
}

proof fn lemma_absorb_rel_unchanged(
    mid: Seq<QC>,
    labels: Seq<(usize, usize)>,
    targets: Seq<bool>,
    acc: Seq<Q>,
    a: Q,
)
    requires
        !has_target_half_edge(labels, targets) || q_is_zero(q_sum(norms_of(mid))),
    ensures
        absorb_rel(mid, labels, targets, acc, acc, a, a, mid),
{
}

impl ComplexStateManager {
    /// Advance the walk one step: propagate the amplitudes through the
    /// combined operator, then absorb at the target nodes.  Either the
    /// whole step lands or, on an arithmetic failure, nothing changes.
    #[verifier::rlimit(80)]
    pub fn step_forward(&mut self) -> (r: Result<(), WalkError>)
        requires
            old(self).wf(),
        ensures
            final(self).wf(),
            r is Err ==> {
                &&& final(self).state@ == old(self).state@
                &&& final(self).step == old(self).step
                &&& final(self).transition_matrix == old(self).transition_matrix
                &&& final(self).labels == old(self).labels
                &&& final(self).node_count == old(self).node_count
                &&& final(self).start_node_idx == old(self).start_node_idx
                &&& final(self).target_node_indexes == old(self).target_node_indexes
                &&& final(self).target_node_accumulation@ == old(self).target_node_accumulation@
                &&& final(self).amount_removed_by_accumulation
                    == old(self).amount_removed_by_accumulation
                &&& r == Err::<(), WalkError>(WalkError::NumericalInvalidity)
            },
            r is Err ==> !(old(self).step < usize::MAX) || !crate::complex_matrix::capply_fits(
                old(self).transition_matrix.matrix.view(),
                cxs_view(old(self).state@),
            ) || (exists|mid: Seq<QC>|
                {
                    &&& mid.len() == old(self).transition_matrix.matrix.rows
                    &&& (forall|i: int|
                        0 <= i < mid.len() ==> qc_wf(#[trigger] mid[i])
                            && crate::complex::qc_eq(
                            mid[i],
                            crate::complex_matrix::qc_sum(
                                crate::complex_matrix::qc_prod_seq(
                                    old(self).transition_matrix.matrix.view()[i],
                                    cxs_view(old(self).state@),
                                ),
                            ),
                        ))
                    &&& !(#[trigger] absorb_fits(
                        mid,
                        old(self).labels@,
                        old(self).target_node_indexes@,
                        rats_view(old(self).target_node_accumulation@),
                        old(self).amount_removed_by_accumulation@,
                        old(self).node_count as nat,
                    ))
                }),
            r is Ok ==> {
                &&& final(self).step == old(self).step + 1
                &&& final(self).transition_matrix == old(self).transition_matrix
                &&& final(self).labels == old(self).labels
                &&& final(self).node_count == old(self).node_count
                &&& final(self).start_node_idx == old(self).start_node_idx
                &&& final(self).target_node_indexes == old(self).target_node_indexes
                &&& (old(self).accounting_inv() ==> final(self).accounting_inv())
                &&& (has_target_half_edge(old(self).labels@, old(self).target_node_indexes@)
                    ==> forall|i: int|
                    0 <= i < final(self).state@.len() && old(self).target_node_indexes@[(
                    #[trigger] old(self).labels@[i]).0 as int] ==> q_is_zero(
                        qc_norm_sqr(cxs_view(final(self).state@)[i]),
                    ))
                &&& exists|mid: Seq<QC>|
                    {
                        &&& mid.len() == old(self).state@.len()
                        &&& (forall|i: int|
                            0 <= i < mid.len() ==> qc_wf(#[trigger] mid[i]) && crate::complex::qc_eq(
                                mid[i],
                                crate::complex_matrix::qc_sum(
                                    crate::complex_matrix::qc_prod_seq(
                                        old(self).transition_matrix.matrix.view()[i],
                                        cxs_view(old(self).state@),
                                    ),
                                ),
                            ))
                        &&& #[trigger] absorb_rel(
                            mid,
                            old(self).labels@,
                            old(self).target_node_indexes@,
                            rats_view(old(self).target_node_accumulation@),
                            rats_view(final(self).target_node_accumulation@),
                            old(self).amount_removed_by_accumulation@,
                            final(self).amount_removed_by_accumulation@,
                            cxs_view(final(self).state@),
                        )
                    }
            },
    {
        if self.step == usize::MAX {
            return Err(WalkError::NumericalInvalidity);
        }
        let mid = match self.transition_matrix.apply(&self.state) {
            Ok(v) => v,
            Err(_) => {
                return Err(WalkError::NumericalInvalidity);
            },
        };
        let ghost mid_view = cxs_view(mid@);
        let saved_state = clone_cxs(&self.state);
        let saved_accum = clone_rats(&self.target_node_accumulation);
        let saved_removed = self.amount_removed_by_accumulation;
        self.state = mid;
        match self.apply_target_nodes() {
            Ok(_) => {
                self.step = self.step + 1;
                proof {
                    assert(mid_view.len() == old(self).state@.len());
                    assert forall|i: int| 0 <= i < mid_view.len() implies qc_wf(
                        #[trigger] mid_view[i],
                    ) by {}
                    assert(absorb_rel(
                        mid_view,
                        old(self).labels@,
                        old(self).target_node_indexes@,
                        rats_view(old(self).target_node_accumulation@),
                        rats_view(self.target_node_accumulation@),
                        old(self).amount_removed_by_accumulation@,
                        self.amount_removed_by_accumulation@,
                        cxs_view(self.state@),
                    ));
                    if has_target_half_edge(old(self).labels@, old(self).target_node_indexes@) {
                        lemma_absorption_clears_targets(
                            mid_view,
                            old(self).labels@,
                            old(self).target_node_indexes@,
                            rats_view(old(self).target_node_accumulation@),
                            rats_view(self.target_node_accumulation@),
                            old(self).amount_removed_by_accumulation@,
                            self.amount_removed_by_accumulation@,
                            cxs_view(self.state@),
                        );
                    }
                    if old(self).accounting_inv() {
                        // the pass kept the accounting balanced
                        assert forall|t: int|
                            0 <= t < old(self).node_count implies q_wf(
                            #[trigger] rats_view(old(self).target_node_accumulation@)[t],
                        ) by {}
                        assert forall|t: int|
                            0 <= t < self.node_count implies q_wf(
                            #[trigger] rats_view(self.target_node_accumulation@)[t],
                        ) by {}
                        lemma_absorption_keeps_bucket_support(
                            mid_view,
                            old(self).labels@,
                            old(self).target_node_indexes@,
                            rats_view(old(self).target_node_accumulation@),
                            rats_view(self.target_node_accumulation@),
                            old(self).amount_removed_by_accumulation@,
                            self.amount_removed_by_accumulation@,
                            cxs_view(self.state@),
                        );
                        lemma_absorption_keeps_bucket_sum(
                            mid_view,
                            old(self).labels@,
                            old(self).target_node_indexes@,
                            rats_view(old(self).target_node_accumulation@),
                            rats_view(self.target_node_accumulation@),
                            old(self).amount_removed_by_accumulation@,
                            self.amount_removed_by_accumulation@,
                            cxs_view(self.state@),
                        );
                    }
                }
                Ok(())
            },
            Err(e) => {
                self.state = saved_state;
                self.target_node_accumulation = saved_accum;
                self.amount_removed_by_accumulation = saved_removed;
                Err(e)
            },
        }
    }

    /// One absorption pass over the current state, exactly as `absorb_rel`
    /// describes it with the current state in the role of `mid`.
    fn apply_target_nodes(&mut self) -> (r: Result<(), WalkError>)
        requires
            old(self).wf(),
        ensures
            final(self).wf(),
            final(self).step == old(self).step,
            final(self).transition_matrix == old(self).transition_matrix,
            final(self).labels == old(self).labels,
            final(self).node_count == old(self).node_count,
            final(self).start_node_idx == old(self).start_node_idx,
            final(self).target_node_indexes == old(self).target_node_indexes,
            final(self).state@.len() == old(self).state@.len(),
            r is Err ==> *final(self) == *old(self) && r == Err::<(), WalkError>(
                WalkError::NumericalInvalidity,
            ),
            r is Err ==> !absorb_fits(
                cxs_view(old(self).state@),
                old(self).labels@,
                old(self).target_node_indexes@,
                rats_view(old(self).target_node_accumulation@),
                old(self).amount_removed_by_accumulation@,
                old(self).node_count as nat,
            ),
            r is Ok ==> absorb_rel(
                cxs_view(old(self).state@),
                old(self).labels@,
                old(self).target_node_indexes@,
                rats_view(old(self).target_node_accumulation@),
                rats_view(final(self).target_node_accumulation@),
                old(self).amount_removed_by_accumulation@,
                final(self).amount_removed_by_accumulation@,
                cxs_view(final(self).state@),
            ),
    {
        match absorb_pass(
            &self.state,
            &self.labels,
            &self.target_node_indexes,
            &self.target_node_accumulation,
            &self.amount_removed_by_accumulation,
            self.node_count,
        ) {
            Ok((st, ac, rm)) => {
                self.state = st;
                self.target_node_accumulation = ac;
                self.amount_removed_by_accumulation = rm;
                Ok(())
            },
            Err(e) => Err(e),
        }
    }
}

/// One absorption pass over an amplitude vector: the returned triple is the
/// new state, the new per-node accumulation, and the new total removed,
/// related to the inputs by `absorb_rel`.
fn absorb_pass(
    state: &Vec<Cx>,
    labels: &Vec<(usize, usize)>,
    targets: &Vec<bool>,
    accum: &Vec<Rat>,
    removed: &Rat,
    node_count: usize,
) -> (r: Result<(Vec<Cx>, Vec<Rat>, Rat), WalkError>)
    requires
        cxs_wf(state@),
        labels@.len() == state@.len(),
        forall|i: int| 0 <= i < labels@.len() ==> (#[trigger] labels@[i]).0 < node_count,
        targets@.len() == node_count,
        accum@.len() == node_count,
        rats_wf(accum@),
        removed.wf(),
    ensures
        r matches Ok(parts) ==> ({
            let (st, ac, rm) = parts;
            &&& st@.len() == state@.len()
            &&& cxs_wf(st@)
            &&& ac@.len() == node_count
            &&& rats_wf(ac@)
            &&& rm.wf()
            &&& absorb_rel(
                cxs_view(state@),
                labels@,
                targets@,
                rats_view(accum@),
                rats_view(ac@),
                removed@,
                rm@,
                cxs_view(st@),
            )
        }),
        r is Err ==> !absorb_fits(
            cxs_view(state@),
            labels@,
            targets@,
            rats_view(accum@),
            removed@,
            node_count as nat,
        ),
        r is Err ==> r == Err::<(Vec<Cx>, Vec<Rat>, Rat), WalkError>(
            WalkError::NumericalInvalidity,
        ),
{
    let ghost mid = cxs_view(state@);
    let ghost nsg = norms_of(mid);
    // does any half-edge leave a target node at all?
    let mut any = false;
    let mut i: usize = 0;
    while i < labels.len()
        invariant
            labels@.len() == state@.len(),
            forall|k: int| 0 <= k < labels@.len() ==> (#[trigger] labels@[k]).0 < node_count,
            targets@.len() == node_count,
            0 <= i <= labels@.len(),
            any ==> has_target_half_edge(labels@, targets@),
            !any ==> forall|t: int|
                0 <= t < i ==> !targets@[(#[trigger] labels@[t]).0 as int],
        decreases labels@.len() - i,
    {
        if targets[labels[i].0] {
            any = true;
        }
        i = i + 1;
    }
    if !any {
        proof {
            assert(!has_target_half_edge(labels@, targets@));
            lemma_absorb_rel_unchanged(mid, labels@, targets@, rats_view(accum@), removed@);
        }
        return Ok((clone_cxs(state), clone_rats(accum), *removed));
    }
    // the squared magnitudes and their total
    let ns = match norms_vec(state) {
        Ok(v) => v,
        Err(e) => {
            return Err(e);
        },
    };
    proof {
        lemma_norms_wf(mid);
        crate::matrix::lemma_rats_view_wf(ns@);
        crate::sums::lemma_partial_sums_fit_congruent(rats_view(ns@), nsg);
    }
    let total = match crate::matrix::sum_rats(&ns) {
        Some(t) => t,
        None => {
            return Err(WalkError::NumericalInvalidity);
        },
    };
    proof {
        crate::sums::lemma_q_sum_congruence(rats_view(ns@), nsg);
        crate::sums::lemma_q_sum_wf(rats_view(ns@));
        crate::sums::lemma_q_sum_wf(nsg);
        lemma_q_eq_trans(total@, q_sum(rats_view(ns@)), q_sum(nsg));
    }
    if total.is_zero() {
        proof {
            // a zero sum of magnitudes means the spec total is zero too
            assert(q_eq(total@, q_zero()));
            lemma_q_eq_symmetric(total@, q_sum(nsg));
            lemma_q_eq_trans(q_sum(nsg), total@, q_zero());
            crate::rational::lemma_q_is_zero_iff(q_sum(nsg));
            lemma_absorb_rel_unchanged(mid, labels@, targets@, rats_view(accum@), removed@);
        }
        return Ok((clone_cxs(state), clone_rats(accum), *removed));
    }
    proof {
        if q_is_zero(q_sum(nsg)) {
            crate::rational::lemma_q_is_zero_iff(q_sum(nsg));
            lemma_q_eq_trans(total@, q_sum(nsg), q_zero());
            crate::rational::lemma_q_is_zero_iff(total@);
        }
    }
    let one = Rat::one();
    let a_old = *removed;
    let one_minus_a = match one.checked_sub(&a_old) {
        Some(x) => x,
        None => {
            return Err(WalkError::NumericalInvalidity);
        },
    };
    proof {
        lemma_q_sub_wf(q_one(), a_old@);
    }
    // each target node's bucket grows by its unremoved share of mass
    let mut new_accum: Vec<Rat> = Vec::new();
    let mut t: usize = 0;
    while t < node_count
        invariant
            cxs_wf(state@),
            labels@.len() == state@.len(),
            forall|k: int| 0 <= k < labels@.len() ==> (#[trigger] labels@[k]).0 < node_count,
            targets@.len() == node_count,
            accum@.len() == node_count,
            rats_wf(accum@),
            mid == cxs_view(state@),
            nsg == norms_of(mid),
            forall|k: int| 0 <= k < nsg.len() ==> q_wf(#[trigger] nsg[k]),
            ns@.len() == state@.len(),
            rats_wf(ns@),
            forall|k: int| 0 <= k < ns@.len() ==> q_eq((#[trigger] ns@[k])@, nsg[k]),
            total.wf(),
            q_eq(total@, q_sum(nsg)),
            !q_is_zero(q_sum(nsg)),
            total.num != 0,
            one_minus_a.wf(),
            q_eq(one_minus_a@, q_sub(q_one(), a_old@)),
            a_old.wf(),
            a_old == *removed,
            removed.wf(),
            has_target_half_edge(labels@, targets@),
            0 <= t <= node_count,
            new_accum@.len() == t,
            rats_wf(new_accum@),
            forall|k: int|
                0 <= k < t ==> (if targets@[k] {
                    q_eq(
                        q_mul(
                            q_sub((#[trigger] new_accum@[k])@, rats_view(accum@)[k]),
                            q_sum(nsg),
                        ),
                        q_mul(q_sub(q_one(), a_old@), q_sum(masked_by_node(nsg, labels@, k))),
                    )
                } else {
                    q_eq(new_accum@[k]@, rats_view(accum@)[k])
                }),
        decreases node_count - t,
    {
        let cur = accum[t];
        if targets[t] {
            proof {
                // the masked magnitudes agree with their exact values
                let ma = masked_by_node(rats_view(ns@), labels@, t as int);
                let mb = masked_by_node(nsg, labels@, t as int);
                assert forall|k: int| 0 <= k < ma.len() implies q_wf(#[trigger] ma[k]) && q_wf(
                    mb[k],
                ) && q_eq(ma[k], mb[k]) by {}
                assert forall|k: int| 0 <= k < mb.len() implies q_wf(#[trigger] mb[k]) by {}
                crate::sums::lemma_partial_sums_fit_congruent(ma, mb);
                lemma_masked_node_congruence(rats_view(ns@), nsg, labels@, t as int);
                crate::sums::lemma_q_sum_wf(ma);
                crate::sums::lemma_q_sum_wf(mb);
            }
            let g = match node_mass(&ns, labels, t) {
                Some(g) => g,
                None => {
                    proof {
                        assert(!partial_sums_fit(masked_by_node(nsg, labels@, t as int)));
                    }
                    return Err(WalkError::NumericalInvalidity);
                },
            };
            proof {
                let gq = q_sum(masked_by_node(nsg, labels@, t as int));
                let om = q_sub(q_one(), removed@);
                lemma_q_sub_wf(q_one(), removed@);
                lemma_q_eq_trans(
                    g@,
                    q_sum(masked_by_node(rats_view(ns@), labels@, t as int)),
                    gq,
                );
                // the scaled mass has the same value over representatives
                lemma_q_mul_congruence(one_minus_a@, om, g@, gq);
                lemma_q_mul_wf(one_minus_a@, g@);
                lemma_q_mul_wf(om, gq);
                lemma_q_fits_congruent(q_mul(one_minus_a@, g@), q_mul(om, gq));
            }
            let m1 = match one_minus_a.checked_mul(&g) {
                Some(x) => x,
                None => {
                    proof {
                        assert(!q_fits(q_mul(
                            q_sub(q_one(), removed@),
                            q_sum(masked_by_node(nsg, labels@, t as int)),
                        )));
                    }
                    return Err(WalkError::NumericalInvalidity);
                },
            };
            proof {
                let gq = q_sum(masked_by_node(nsg, labels@, t as int));
                let om = q_sub(q_one(), removed@);
                lemma_q_sub_wf(q_one(), removed@);
                crate::sums::lemma_q_sum_wf(nsg);
                lemma_q_mul_wf(om, gq);
                lemma_q_mul_wf(one_minus_a@, g@);
                lemma_q_eq_trans(m1@, q_mul(one_minus_a@, g@), q_mul(om, gq));
                crate::rational::lemma_q_div_congruent(
                    m1@,
                    q_mul(om, gq),
                    total@,
                    q_sum(nsg),
                );
                crate::rational::lemma_q_div_wf(m1@, total@);
                crate::rational::lemma_q_div_wf(q_mul(om, gq), q_sum(nsg));
                lemma_q_fits_congruent(
                    q_div(m1@, total@),
                    q_div(q_mul(om, gq), q_sum(nsg)),
                );
            }
            let delta = match m1.checked_div(&total) {
                Some(x) => x,
                None => {
                    proof {
                        assert(!q_fits(q_div(
                            q_mul(
                                q_sub(q_one(), removed@),
                                q_sum(masked_by_node(nsg, labels@, t as int)),
                            ),
                            q_sum(nsg),
                        )));
                    }
                    return Err(WalkError::NumericalInvalidity);
                },
            };
            proof {
                // delta denotes the exact quotient
                let gq = q_sum(masked_by_node(nsg, labels@, t as int));
                let om = q_sub(q_one(), removed@);
                let dq = q_div(q_mul(om, gq), q_sum(nsg));
                lemma_q_sub_wf(q_one(), removed@);
                crate::sums::lemma_q_sum_wf(nsg);
                lemma_q_mul_wf(om, gq);
                crate::rational::lemma_q_div_mul(q_mul(om, gq), q_sum(nsg));
                crate::rational::lemma_q_div_wf(q_mul(om, gq), q_sum(nsg));
                lemma_q_mul_wf(dq, q_sum(nsg));
                lemma_q_mul_congruence(delta@, delta@, total@, q_sum(nsg));
                lemma_q_mul_wf(delta@, total@);
                lemma_q_mul_wf(delta@, q_sum(nsg));
                lemma_q_eq_symmetric(q_mul(delta@, q_sum(nsg)), q_mul(delta@, total@));
                lemma_q_eq_trans(q_mul(delta@, q_sum(nsg)), q_mul(delta@, total@), m1@);
                lemma_q_eq_trans(q_mul(delta@, q_sum(nsg)), m1@, q_mul(om, gq));
                lemma_q_eq_symmetric(q_mul(dq, q_sum(nsg)), q_mul(om, gq));
                lemma_q_eq_trans(q_mul(delta@, q_sum(nsg)), q_mul(om, gq), q_mul(dq, q_sum(nsg)));
                crate::rational::lemma_q_mul_cancel(delta@, dq, q_sum(nsg));
                // so the grown bucket's value is exact as well
                crate::rational::lemma_q_add_congruence(cur@, cur@, delta@, dq);
                crate::rational::lemma_q_add_wf(cur@, delta@);
                crate::rational::lemma_q_add_wf(cur@, dq);
                lemma_q_fits_congruent(q_add(cur@, delta@), q_add(cur@, dq));
            }
            let updated = match cur.checked_add(&delta) {
                Some(x) => x,
                None => {
                    proof {
                        assert(!q_fits(q_add(
                            rats_view(accum@)[t as int],
                            q_div(
                                q_mul(
                                    q_sub(q_one(), removed@),
                                    q_sum(masked_by_node(nsg, labels@, t as int)),
                                ),
                                q_sum(nsg),
                            ),
                        )));
                    }
                    return Err(WalkError::NumericalInvalidity);
                },
            };
            proof {
                let gq = q_sum(masked_by_node(nsg, labels@, t as int));
                crate::sums::lemma_q_sum_wf(nsg);
                // delta * total ~ (1 - A) * g ~ (1 - A) * group
                lemma_q_mul_congruence(delta@, delta@, total@, q_sum(nsg));
                lemma_q_mul_wf(delta@, total@);
                lemma_q_mul_wf(delta@, q_sum(nsg));
                crate::sums::lemma_q_sum_wf(masked_by_node(nsg, labels@, t as int));
                lemma_q_mul_congruence(one_minus_a@, q_sub(q_one(), a_old@), g@, gq);
                lemma_q_mul_wf(one_minus_a@, g@);
                lemma_q_mul_wf(q_sub(q_one(), a_old@), gq);
                lemma_q_eq_symmetric(q_mul(delta@, q_sum(nsg)), q_mul(delta@, total@));
                lemma_q_eq_trans(q_mul(delta@, q_sum(nsg)), q_mul(delta@, total@), m1@);
                lemma_q_eq_trans(q_mul(delta@, q_sum(nsg)), m1@, q_mul(one_minus_a@, g@));
                lemma_q_eq_trans(
                    q_mul(delta@, q_sum(nsg)),
                    q_mul(one_minus_a@, g@),
                    q_mul(q_sub(q_one(), a_old@), gq),
                );
                // updated - current ~ delta
                crate::rational::lemma_q_add_sub_cancel(cur@, delta@, updated@);
                lemma_q_sub_wf(updated@, cur@);
                lemma_q_mul_congruence(q_sub(updated@, cur@), delta@, q_sum(nsg), q_sum(nsg));
                lemma_q_mul_wf(q_sub(updated@, cur@), q_sum(nsg));
                lemma_q_eq_trans(
                    q_mul(q_sub(updated@, cur@), q_sum(nsg)),
                    q_mul(delta@, q_sum(nsg)),
                    q_mul(q_sub(q_one(), a_old@), gq),
                );
            }
            new_accum.push(updated);
        } else {
            new_accum.push(cur);
        }
        t = t + 1;
    }
    // the total removed grows by the unremoved share of all target mass
    proof {
        // the masked target magnitudes agree with their exact values
        let ma = masked_by_targets(rats_view(ns@), labels@, targets@);
        let mb = masked_by_targets(nsg, labels@, targets@);
        assert forall|k: int| 0 <= k < ma.len() implies q_wf(#[trigger] ma[k]) && q_wf(mb[k])
            && q_eq(ma[k], mb[k]) by {}
        assert forall|k: int| 0 <= k < mb.len() implies q_wf(#[trigger] mb[k]) by {}
        crate::sums::lemma_partial_sums_fit_congruent(ma, mb);
        lemma_masked_targets_congruence(rats_view(ns@), nsg, labels@, targets@);
        crate::sums::lemma_q_sum_wf(ma);
        crate::sums::lemma_q_sum_wf(mb);
    }
    let tm = match target_mass(&ns, labels, targets) {
        Some(x) => x,
        None => {
            proof {
                assert(!partial_sums_fit(masked_by_targets(nsg, labels@, targets@)));
            }
            return Err(WalkError::NumericalInvalidity);
        },
    };
    proof {
        let tmq = q_sum(masked_by_targets(nsg, labels@, targets@));
        let om = q_sub(q_one(), removed@);
        lemma_q_sub_wf(q_one(), removed@);
        lemma_q_eq_trans(
            tm@,
            q_sum(masked_by_targets(rats_view(ns@), labels@, targets@)),
            tmq,
        );
        lemma_q_mul_congruence(one_minus_a@, om, tm@, tmq);
        lemma_q_mul_wf(one_minus_a@, tm@);
        lemma_q_mul_wf(om, tmq);
        lemma_q_fits_congruent(q_mul(one_minus_a@, tm@), q_mul(om, tmq));
    }
    let m2 = match one_minus_a.checked_mul(&tm) {
        Some(x) => x,
        None => {
            proof {
                assert(!q_fits(q_mul(
                    q_sub(q_one(), removed@),
                    q_sum(masked_by_targets(nsg, labels@, targets@)),
                )));
            }
            return Err(WalkError::NumericalInvalidity);
        },
    };
    proof {
        let tmq = q_sum(masked_by_targets(nsg, labels@, targets@));
        let om = q_sub(q_one(), removed@);
        lemma_q_sub_wf(q_one(), removed@);
        crate::sums::lemma_q_sum_wf(nsg);
        lemma_q_mul_wf(om, tmq);
        lemma_q_mul_wf(one_minus_a@, tm@);
        lemma_q_eq_trans(m2@, q_mul(one_minus_a@, tm@), q_mul(om, tmq));
        crate::rational::lemma_q_div_congruent(m2@, q_mul(om, tmq), total@, q_sum(nsg));
        crate::rational::lemma_q_div_wf(m2@, total@);
        crate::rational::lemma_q_div_wf(q_mul(om, tmq), q_sum(nsg));
        lemma_q_fits_congruent(q_div(m2@, total@), q_div(q_mul(om, tmq), q_sum(nsg)));
    }
    let dr = match m2.checked_div(&total) {
        Some(x) => x,
        None => {
            proof {
                assert(!q_fits(q_div(
                    q_mul(
                        q_sub(q_one(), removed@),
                        q_sum(masked_by_targets(nsg, labels@, targets@)),
                    ),
                    q_sum(nsg),
                )));
            }
            return Err(WalkError::NumericalInvalidity);
        },
    };
    proof {
        // dr denotes the exact quotient
        let tmq = q_sum(masked_by_targets(nsg, labels@, targets@));
        let om = q_sub(q_one(), removed@);
        let dq = q_div(q_mul(om, tmq), q_sum(nsg));
        lemma_q_sub_wf(q_one(), removed@);
        crate::sums::lemma_q_sum_wf(nsg);
        lemma_q_mul_wf(om, tmq);
        crate::rational::lemma_q_div_mul(q_mul(om, tmq), q_sum(nsg));
        crate::rational::lemma_q_div_wf(q_mul(om, tmq), q_sum(nsg));
        lemma_q_mul_wf(dq, q_sum(nsg));
        lemma_q_mul_congruence(dr@, dr@, total@, q_sum(nsg));
        lemma_q_mul_wf(dr@, total@);
        lemma_q_mul_wf(dr@, q_sum(nsg));
        lemma_q_eq_symmetric(q_mul(dr@, q_sum(nsg)), q_mul(dr@, total@));
        lemma_q_eq_trans(q_mul(dr@, q_sum(nsg)), q_mul(dr@, total@), m2@);
        lemma_q_eq_trans(q_mul(dr@, q_sum(nsg)), m2@, q_mul(om, tmq));
        lemma_q_eq_symmetric(q_mul(dq, q_sum(nsg)), q_mul(om, tmq));
        lemma_q_eq_trans(q_mul(dr@, q_sum(nsg)), q_mul(om, tmq), q_mul(dq, q_sum(nsg)));
        crate::rational::lemma_q_mul_cancel(dr@, dq, q_sum(nsg));
        crate::rational::lemma_q_add_congruence(removed@, removed@, dr@, dq);
        crate::rational::lemma_q_add_wf(removed@, dr@);
        crate::rational::lemma_q_add_wf(removed@, dq);
        lemma_q_fits_congruent(q_add(removed@, dr@), q_add(removed@, dq));
    }
    let new_removed = match a_old.checked_add(&dr) {
        Some(x) => x,
        None => {
            proof {
                assert(!q_fits(q_add(
                    removed@,
                    q_div(
                        q_mul(
                            q_sub(q_one(), removed@),
                            q_sum(masked_by_targets(nsg, labels@, targets@)),
                        ),
                        q_sum(nsg),
                    ),
                )));
            }
            return Err(WalkError::NumericalInvalidity);
        },
    };
    proof {
        let tmq = q_sum(masked_by_targets(nsg, labels@, targets@));
        crate::sums::lemma_q_sum_wf(nsg);
        lemma_q_mul_congruence(dr@, dr@, total@, q_sum(nsg));
        lemma_q_mul_wf(dr@, total@);
        lemma_q_mul_wf(dr@, q_sum(nsg));
        lemma_q_mul_congruence(one_minus_a@, q_sub(q_one(), a_old@), tm@, tmq);
        lemma_q_mul_wf(one_minus_a@, tm@);
        lemma_q_mul_wf(q_sub(q_one(), a_old@), tmq);
        lemma_q_eq_symmetric(q_mul(dr@, q_sum(nsg)), q_mul(dr@, total@));
        lemma_q_eq_trans(q_mul(dr@, q_sum(nsg)), q_mul(dr@, total@), m2@);
        lemma_q_eq_trans(q_mul(dr@, q_sum(nsg)), m2@, q_mul(one_minus_a@, tm@));
        lemma_q_eq_trans(
            q_mul(dr@, q_sum(nsg)),
            q_mul(one_minus_a@, tm@),
            q_mul(q_sub(q_one(), a_old@), tmq),
        );
        crate::rational::lemma_q_add_sub_cancel(a_old@, dr@, new_removed@);
        lemma_q_sub_wf(new_removed@, a_old@);
        lemma_q_mul_congruence(q_sub(new_removed@, a_old@), dr@, q_sum(nsg), q_sum(nsg));
        lemma_q_mul_wf(q_sub(new_removed@, a_old@), q_sum(nsg));
        lemma_q_eq_trans(
            q_mul(q_sub(new_removed@, a_old@), q_sum(nsg)),
            q_mul(dr@, q_sum(nsg)),
            q_mul(q_sub(q_one(), a_old@), tmq),
        );
    }
    // remove the absorbed amplitudes
    let mut new_state: Vec<Cx> = Vec::new();
    let mut i: usize = 0;
    while i < state.len()
        invariant
            cxs_wf(state@),
            labels@.len() == state@.len(),
            forall|k: int| 0 <= k < labels@.len() ==> (#[trigger] labels@[k]).0 < node_count,
            targets@.len() == node_count,
            mid == cxs_view(state@),
            0 <= i <= state@.len(),
            new_state@.len() == i,
            cxs_wf(new_state@),
            forall|k: int|
                0 <= k < i ==> (#[trigger] new_state@[k])@ == (if targets@[(
                labels@[k]).0 as int] {
                    qc_zero()
                } else {
                    mid[k]
                }),
        decreases state@.len() - i,
    {
        if targets[labels[i].0] {
            new_state.push(Cx::zero());
        } else {
            new_state.push(state[i]);
        }
        i = i + 1;
    }
    Ok((new_state, new_accum, new_removed))
}

/// The squared magnitudes of an amplitude vector, elementwise exact;
/// succeeds exactly when every magnitude is computable.
fn norms_vec(state: &Vec<Cx>) -> (r: Result<Vec<Rat>, WalkError>)
    requires
        cxs_wf(state@),
    ensures
        r matches Ok(ns) ==> {
            &&& ns@.len() == state@.len()
            &&& rats_wf(ns@)
            &&& forall|i: int|
                0 <= i < ns@.len() ==> q_eq((#[trigger] ns@[i])@, norms_of(cxs_view(state@))[i])
        },
        r is Ok <==> (forall|i: int|
            0 <= i < state@.len() ==> qc_norm_fits(#[trigger] cxs_view(state@)[i])),
        r is Err ==> r == Err::<Vec<Rat>, WalkError>(WalkError::NumericalInvalidity),
{
    let mut out: Vec<Rat> = Vec::new();
    let mut i: usize = 0;
    while i < state.len()
        invariant
            cxs_wf(state@),
            0 <= i <= state@.len(),
            out@.len() == i,
            rats_wf(out@),
            forall|k: int|
                0 <= k < i ==> q_eq((#[trigger] out@[k])@, norms_of(cxs_view(state@))[k]),
            forall|k: int| 0 <= k < i ==> qc_norm_fits(#[trigger] cxs_view(state@)[k]),
        decreases state@.len() - i,
    {
        let n = match state[i].norm_sqr() {
            Some(n) => n,
            None => {
                proof {
                    assert(!qc_norm_fits(cxs_view(state@)[i as int]));
                }
                return Err(WalkError::NumericalInvalidity);
            },
        };
        out.push(n);
        i = i + 1;
    }
    Ok(out)
}

/// The squared magnitudes of a well-formed amplitude vector are well-formed.
proof fn lemma_norms_wf(v: Seq<QC>)
    requires
        forall|i: int| 0 <= i < v.len() ==> crate::complex::qc_wf(#[trigger] v[i]),
    ensures
        forall|i: int| 0 <= i < norms_of(v).len() ==> q_wf(#[trigger] norms_of(v)[i]),
{
    assert forall|i: int| 0 <= i < norms_of(v).len() implies q_wf(#[trigger] norms_of(v)[i]) by {
        crate::complex::lemma_qc_norm_sqr_wf(v[i]);
    }
}

/// The mass of node `t`: the sum of the squared magnitudes over the
/// half-edges leaving `t`.
fn node_mass(ns: &Vec<Rat>, labels: &Vec<(usize, usize)>, t: usize) -> (r: Option<Rat>)
    requires
        rats_wf(ns@),
        ns@.len() == labels@.len(),
    ensures
        r matches Some(g) ==> g.wf() && q_eq(
            g@,
            q_sum(masked_by_node(rats_view(ns@), labels@, t as int)),
        ),
        r is Some <==> partial_sums_fit(masked_by_node(rats_view(ns@), labels@, t as int)),
{
    let mut masked: Vec<Rat> = Vec::new();
    let mut i: usize = 0;
    while i < ns.len()
        invariant
            rats_wf(ns@),
            ns@.len() == labels@.len(),
            0 <= i <= ns@.len(),
            masked@.len() == i,
            rats_wf(masked@),
            forall|k: int|
                0 <= k < i ==> (#[trigger] masked@[k])@ == masked_by_node(
                    rats_view(ns@),
                    labels@,
                    t as int,
                )[k],
        decreases ns@.len() - i,
    {
        if labels[i].0 == t {
            masked.push(ns[i]);
        } else {
            masked.push(Rat::zero());
        }
        i = i + 1;
    }
    proof {
        assert(rats_view(masked@) =~= masked_by_node(rats_view(ns@), labels@, t as int));
    }
    crate::matrix::sum_rats(&masked)
}

/// The total target mass: the sum of the squared magnitudes over half-edges
/// leaving any target node.
fn target_mass(ns: &Vec<Rat>, labels: &Vec<(usize, usize)>, targets: &Vec<bool>) -> (r: Option<
    Rat,
>)
    requires
        rats_wf(ns@),
        ns@.len() == labels@.len(),
        forall|i: int| 0 <= i < labels@.len() ==> (#[trigger] labels@[i]).0 < targets@.len(),
    ensures
        r matches Some(g) ==> g.wf() && q_eq(
            g@,
            q_sum(masked_by_targets(rats_view(ns@), labels@, targets@)),
        ),
        r is Some <==> partial_sums_fit(masked_by_targets(rats_view(ns@), labels@, targets@)),
{
    let mut masked: Vec<Rat> = Vec::new();
    let mut i: usize = 0;
    while i < ns.len()
        invariant
            rats_wf(ns@),
            ns@.len() == labels@.len(),
            forall|k: int| 0 <= k < labels@.len() ==> (#[trigger] labels@[k]).0 < targets@.len(),
            0 <= i <= ns@.len(),
            masked@.len() == i,
            rats_wf(masked@),
            forall|k: int|
                0 <= k < i ==> (#[trigger] masked@[k])@ == masked_by_targets(
                    rats_view(ns@),
                    labels@,
                    targets@,
                )[k],
        decreases ns@.len() - i,
    {
        if targets[labels[i].0] {
            masked.push(ns[i]);
        } else {
            masked.push(Rat::zero());
        }
        i = i + 1;
    }
    proof {
        assert(rats_view(masked@) =~= masked_by_targets(rats_view(ns@), labels@, targets@));
    }
    crate::matrix::sum_rats(&masked)
}

/// Masking commutes with pointwise equivalence: equivalent magnitude
/// sequences give equivalent node masses.
proof fn lemma_masked_node_congruence(a: Seq<Q>, b: Seq<Q>, labels: Seq<(usize, usize)>, t: int)
    requires
        a.len() == b.len(),
        forall|i: int| 0 <= i < a.len() ==> q_wf(#[trigger] a[i]),
        forall|i: int| 0 <= i < b.len() ==> q_wf(#[trigger] b[i]),
        forall|i: int| 0 <= i < a.len() ==> q_eq(#[trigger] a[i], #[trigger] b[i]),
    ensures
        q_eq(q_sum(masked_by_node(a, labels, t)), q_sum(masked_by_node(b, labels, t))),
{
    let ma = masked_by_node(a, labels, t);
    let mb = masked_by_node(b, labels, t);
    assert forall|i: int| 0 <= i < ma.len() implies q_wf(#[trigger] ma[i]) && q_wf(mb[i]) && q_eq(
        ma[i],
        mb[i],
    ) by {}
    crate::sums::lemma_q_sum_congruence(ma, mb);
}

/// Masking by the target set commutes with pointwise equivalence.
proof fn lemma_masked_targets_congruence(
    a: Seq<Q>,
    b: Seq<Q>,
    labels: Seq<(usize, usize)>,
    targets: Seq<bool>,
)
    requires
        a.len() == b.len(),
        forall|i: int| 0 <= i < a.len() ==> q_wf(#[trigger] a[i]),
        forall|i: int| 0 <= i < b.len() ==> q_wf(#[trigger] b[i]),
        forall|i: int| 0 <= i < a.len() ==> q_eq(#[trigger] a[i], #[trigger] b[i]),
    ensures
        q_eq(
            q_sum(masked_by_targets(a, labels, targets)),
            q_sum(masked_by_targets(b, labels, targets)),
        ),
{
    let ma = masked_by_targets(a, labels, targets);
    let mb = masked_by_targets(b, labels, targets);
    assert forall|i: int| 0 <= i < ma.len() implies q_wf(#[trigger] ma[i]) && q_wf(mb[i]) && q_eq(
        ma[i],
        mb[i],
    ) by {}
    crate::sums::lemma_q_sum_congruence(ma, mb);
}

/// Some node is configured as a target.
pub open spec fn any_target(targets: Seq<bool>) -> bool {
    exists|t: int| 0 <= t < targets.len() && targets[t]
}

/// Every value one absorption pass forms is representable: with no target
/// half-edge or no mass there is nothing to form; else the squared
/// magnitudes, their running totals, the unabsorbed share, and each target
/// node's scaled, divided and accumulated mass.
pub open spec fn absorb_fits(
    mid: Seq<QC>,
    labels: Seq<(usize, usize)>,
    targets: Seq<bool>,
    accum: Seq<Q>,
    removed: Q,
    n: nat,
) -> bool {
    let ns = norms_of(mid);
    let total = q_sum(ns);
    let om = q_sub(q_one(), removed);
    let tm = q_sum(masked_by_targets(ns, labels, targets));
    !has_target_half_edge(labels, targets) || {
        &&& (forall|i: int| 0 <= i < mid.len() ==> qc_norm_fits(#[trigger] mid[i]))
        &&& partial_sums_fit(ns)
        &&& (q_is_zero(total) || {
            &&& q_fits(om)
            &&& (forall|t: int|
                0 <= t < n && targets[t] ==> {
                    &&& partial_sums_fit(#[trigger] masked_by_node(ns, labels, t))
                    &&& q_fits(q_mul(om, q_sum(masked_by_node(ns, labels, t))))
                    &&& q_fits(q_div(q_mul(om, q_sum(masked_by_node(ns, labels, t))), total))
                    &&& q_fits(
                        q_add(
                            accum[t],
                            q_div(q_mul(om, q_sum(masked_by_node(ns, labels, t))), total),
                        ),
                    )
                })
            &&& partial_sums_fit(masked_by_targets(ns, labels, targets))
            &&& q_fits(q_mul(om, tm))
            &&& q_fits(q_div(q_mul(om, tm), total))
            &&& q_fits(q_add(removed, q_div(q_mul(om, tm), total)))
        })
    }
}

/// Every value the aggregation forms is representable: the squared
/// magnitudes and their running totals, the accumulated mass and the
/// unabsorbed share, and each displayed node's division and rescaling.
pub open spec fn state_data_fits(
    st: Seq<QC>,
    labels: Seq<(usize, usize)>,
    targets: Seq<bool>,
    accum: Seq<Q>,
    n: nat,
) -> bool {
    let ns = norms_of(st);
    let total = q_sum(ns);
    let rem = q_sub(q_one(), q_sum(accum));
    &&& (forall|i: int| 0 <= i < st.len() ==> qc_norm_fits(#[trigger] st[i]))
    &&& partial_sums_fit(ns)
    &&& partial_sums_fit(accum)
    &&& q_fits(rem)
    &&& (forall|t: int|
        0 <= t < n && !(targets[t] && any_target(targets)) && !q_is_zero(total) ==> {
            &&& partial_sums_fit(#[trigger] masked_by_node(ns, labels, t))
            &&& q_fits(q_div(q_sum(masked_by_node(ns, labels, t)), total))
            &&& (any_target(targets) ==> q_fits(
                q_mul(q_div(q_sum(masked_by_node(ns, labels, t)), total), rem),
            ))
        })
}

impl ComplexStateManager {
    /// The displayed per-node distribution: each node's share of the squared
    /// state norm, and — when targets are configured — the live shares
    /// scaled by the not-yet-absorbed mass with the targets' entries
    /// replaced by their accumulated absorption.
    pub fn get_state_data(&self, adjacency_list: &Vec<Vec<usize>>) -> (r: Result<
        Vec<Rat>,
        WalkError,
    >)
        requires
            self.wf(),
            adjacency_list@.len() == self.node_count,
        ensures
            r matches Ok(d) ==> ({
                let ns = norms_of(cxs_view(self.state@));
                let total = q_sum(ns);
                let remaining = q_sub(q_one(), q_sum(rats_view(self.target_node_accumulation@)));
                &&& d@.len() == self.node_count
                &&& rats_wf(d@)
                &&& (forall|t: int|
                    0 <= t < self.node_count ==> {
                        let dt = #[trigger] rats_view(d@)[t];
                        if self.target_node_indexes@[t] && any_target(
                            self.target_node_indexes@,
                        ) {
                            q_eq(dt, rats_view(self.target_node_accumulation@)[t])
                        } else if q_is_zero(total) {
                            q_is_zero(dt)
                        } else if any_target(self.target_node_indexes@) {
                            q_eq(
                                q_mul(dt, total),
                                q_mul(remaining, q_sum(masked_by_node(ns, self.labels@, t))),
                            )
                        } else {
                            q_eq(q_mul(dt, total), q_sum(masked_by_node(ns, self.labels@, t)))
                        }
                    })
            }),
            r is Err ==> !state_data_fits(
                cxs_view(self.state@),
                self.labels@,
                self.target_node_indexes@,
                rats_view(self.target_node_accumulation@),
                self.node_count as nat,
            ),
            r is Err ==> r == Err::<Vec<Rat>, WalkError>(WalkError::NumericalInvalidity),
    {
        let ghost mid = cxs_view(self.state@);
        let ghost nsg = norms_of(mid);
        let ghost totalg = q_sum(nsg);
        let ghost accg = rats_view(self.target_node_accumulation@);
        // is any node a target?
        let mut has_target = false;
        let mut t: usize = 0;
        while t < self.target_node_indexes.len()
            invariant
                self.wf(),
                0 <= t <= self.node_count,
                self.target_node_indexes@.len() == self.node_count,
                has_target ==> any_target(self.target_node_indexes@),
                !has_target ==> forall|k: int| 0 <= k < t ==> !self.target_node_indexes@[k],
            decreases self.target_node_indexes@.len() - t,
        {
            if self.target_node_indexes[t] {
                has_target = true;
            }
            t = t + 1;
        }
        proof {
            if !has_target {
                assert(!any_target(self.target_node_indexes@));
            }
        }
        // the squared magnitudes, their total, and the absorbed mass
        let ns = match norms_vec(&self.state) {
            Ok(v) => v,
            Err(e) => {
                return Err(e);
            },
        };
        proof {
            lemma_norms_wf(mid);
            crate::matrix::lemma_rats_view_wf(ns@);
            crate::sums::lemma_partial_sums_fit_congruent(rats_view(ns@), nsg);
        }
        let total = match crate::matrix::sum_rats(&ns) {
            Some(x) => x,
            None => {
                return Err(WalkError::NumericalInvalidity);
            },
        };
        proof {
            crate::sums::lemma_q_sum_congruence(rats_view(ns@), nsg);
            crate::sums::lemma_q_sum_wf(rats_view(ns@));
            crate::sums::lemma_q_sum_wf(nsg);
            lemma_q_eq_trans(total@, q_sum(rats_view(ns@)), totalg);
        }
        let a_total = match crate::matrix::sum_rats(&self.target_node_accumulation) {
            Some(x) => x,
            None => {
                return Err(WalkError::NumericalInvalidity);
            },
        };
        proof {
            crate::sums::lemma_q_sum_wf(accg);
            lemma_q_sub_wf(q_one(), q_sum(accg));
            crate::rational::lemma_q_sub_congruence(q_one(), q_one(), a_total@, q_sum(accg));
            lemma_q_sub_wf(q_one(), a_total@);
            crate::rational::lemma_q_fits_congruent(
                q_sub(q_one(), a_total@),
                q_sub(q_one(), q_sum(accg)),
            );
        }
        let one = Rat::one();
        let one_minus_a = match one.checked_sub(&a_total) {
            Some(x) => x,
            None => {
                return Err(WalkError::NumericalInvalidity);
            },
        };
        proof {
            lemma_q_eq_trans(
                one_minus_a@,
                q_sub(q_one(), a_total@),
                q_sub(q_one(), q_sum(accg)),
            );
        }
        let total_zero = total.is_zero();
        proof {
            crate::rational::lemma_q_is_zero_iff(total@);
            crate::rational::lemma_q_is_zero_iff(totalg);
            if total_zero {
                lemma_q_eq_symmetric(total@, totalg);
                lemma_q_eq_trans(totalg, total@, q_zero());
            } else {
                if q_is_zero(totalg) {
                    lemma_q_eq_trans(total@, totalg, q_zero());
                }
            }
        }
        proof {
            crate::sums::lemma_q_sum_wf(nsg);
        }
        let mut out: Vec<Rat> = Vec::new();
        let mut t: usize = 0;
        while t < self.node_count
            invariant
                self.wf(),
                mid == cxs_view(self.state@),
                nsg == norms_of(mid),
                totalg == q_sum(nsg),
                accg == rats_view(self.target_node_accumulation@),
                forall|k: int| 0 <= k < nsg.len() ==> q_wf(#[trigger] nsg[k]),
                ns@.len() == self.state@.len(),
                rats_wf(ns@),
                forall|k: int| 0 <= k < ns@.len() ==> q_eq((#[trigger] ns@[k])@, nsg[k]),
                total.wf(),
                q_wf(totalg),
                q_eq(total@, totalg),
                total_zero == q_is_zero(totalg),
                total_zero == (total.num == 0),
                one_minus_a.wf(),
                q_eq(one_minus_a@, q_sub(q_one(), q_sum(accg))),
                q_wf(q_sub(q_one(), q_sum(accg))),
                has_target == any_target(self.target_node_indexes@),
                0 <= t <= self.node_count,
                out@.len() == t,
                rats_wf(out@),
                forall|k: int|
                    0 <= k < t ==> (if self.target_node_indexes@[k] && any_target(
                        self.target_node_indexes@,
                    ) {
                        q_eq((#[trigger] out@[k])@, accg[k])
                    } else if q_is_zero(totalg) {
                        q_is_zero(out@[k]@)
                    } else if any_target(self.target_node_indexes@) {
                        q_eq(
                            q_mul(out@[k]@, totalg),
                            q_mul(
                                q_sub(q_one(), q_sum(accg)),
                                q_sum(masked_by_node(nsg, self.labels@, k)),
                            ),
                        )
                    } else {
                        q_eq(q_mul(out@[k]@, totalg), q_sum(masked_by_node(nsg, self.labels@, k)))
                    }),
            decreases self.node_count - t,
        {
            if has_target && self.target_node_indexes[t] {
                out.push(self.target_node_accumulation[t]);
            } else if total_zero {
                out.push(Rat::zero());
            } else {
                proof {
                    // the masked magnitudes agree with their exact values
                    let ma = masked_by_node(rats_view(ns@), self.labels@, t as int);
                    let mb = masked_by_node(nsg, self.labels@, t as int);
                    assert forall|k: int| 0 <= k < ma.len() implies q_wf(#[trigger] ma[k])
                        && q_wf(mb[k]) && q_eq(ma[k], mb[k]) by {}
                    assert forall|k: int| 0 <= k < mb.len() implies q_wf(#[trigger] mb[k]) by {}
                    crate::sums::lemma_partial_sums_fit_congruent(ma, mb);
                    lemma_masked_node_congruence(rats_view(ns@), nsg, self.labels@, t as int);
                    crate::sums::lemma_q_sum_wf(ma);
                    crate::sums::lemma_q_sum_wf(mb);
                }
                let g = match node_mass(&ns, &self.labels, t) {
                    Some(g) => g,
                    None => {
                        proof {
                            assert(!partial_sums_fit(
                                masked_by_node(nsg, self.labels@, t as int),
                            ));
                        }
                        return Err(WalkError::NumericalInvalidity);
                    },
                };
                proof {
                    let gq = q_sum(masked_by_node(nsg, self.labels@, t as int));
                    lemma_q_eq_trans(
                        g@,
                        q_sum(masked_by_node(rats_view(ns@), self.labels@, t as int)),
                        gq,
                    );
                    // the quotient's value is the same over representatives
                    // and exact values
                    crate::rational::lemma_q_div_congruent(g@, gq, total@, totalg);
                    crate::rational::lemma_q_div_wf(g@, total@);
                    crate::rational::lemma_q_div_wf(gq, totalg);
                    lemma_q_fits_congruent(q_div(g@, total@), q_div(gq, totalg));
                }
                let p = match g.checked_div(&total) {
                    Some(p) => p,
                    None => {
                        proof {
                            assert(!q_fits(q_div(
                                q_sum(masked_by_node(nsg, self.labels@, t as int)),
                                totalg,
                            )));
                        }
                        return Err(WalkError::NumericalInvalidity);
                    },
                };
                proof {
                    let gq = q_sum(masked_by_node(nsg, self.labels@, t as int));
                    // p * total ~ g ~ group
                    lemma_q_mul_congruence(p@, p@, total@, totalg);
                    lemma_q_mul_wf(p@, total@);
                    lemma_q_mul_wf(p@, totalg);
                    lemma_q_eq_symmetric(q_mul(p@, totalg), q_mul(p@, total@));
                    lemma_q_eq_trans(q_mul(p@, totalg), q_mul(p@, total@), g@);
                    lemma_q_eq_trans(q_mul(p@, totalg), g@, gq);
                }
                if has_target {
                    proof {
                        // p denotes the exact quotient, so the rescaling's
                        // value is exact as well
                        let gq = q_sum(masked_by_node(nsg, self.labels@, t as int));
                        let dq = q_div(gq, totalg);
                        let rem = q_sub(q_one(), q_sum(accg));
                        crate::rational::lemma_q_div_mul(gq, totalg);
                        crate::rational::lemma_q_div_wf(gq, totalg);
                        lemma_q_mul_wf(dq, totalg);
                        lemma_q_mul_wf(p@, totalg);
                        lemma_q_eq_symmetric(q_mul(dq, totalg), gq);
                        lemma_q_eq_trans(q_mul(p@, totalg), gq, q_mul(dq, totalg));
                        crate::rational::lemma_q_mul_cancel(p@, dq, totalg);
                        lemma_q_mul_congruence(p@, dq, one_minus_a@, rem);
                        lemma_q_mul_wf(p@, one_minus_a@);
                        lemma_q_mul_wf(dq, rem);
                        lemma_q_fits_congruent(q_mul(p@, one_minus_a@), q_mul(dq, rem));
                    }
                    let d = match p.checked_mul(&one_minus_a) {
                        Some(d) => d,
                        None => {
                            proof {
                                assert(!q_fits(q_mul(
                                    q_div(
                                        q_sum(masked_by_node(nsg, self.labels@, t as int)),
                                        totalg,
                                    ),
                                    q_sub(q_one(), q_sum(accg)),
                                )));
                            }
                            return Err(WalkError::NumericalInvalidity);
                        },
                    };
                    proof {
                        let gq = q_sum(masked_by_node(nsg, self.labels@, t as int));
                        let rem = q_sub(q_one(), q_sum(accg));
                        // d * total ~ (p * rem) * total == rem * (p * total)
                        //           ~ rem * group
                        lemma_q_mul_congruence(p@, p@, one_minus_a@, rem);
                        lemma_q_mul_wf(p@, one_minus_a@);
                        lemma_q_mul_wf(p@, rem);
                        lemma_q_eq_trans(d@, q_mul(p@, one_minus_a@), q_mul(p@, rem));
                        lemma_q_mul_congruence(d@, q_mul(p@, rem), totalg, totalg);
                        lemma_q_mul_wf(d@, totalg);
                        lemma_q_mul_wf(q_mul(p@, rem), totalg);
                        crate::rational::lemma_q_mul_comm(p@, rem);
                        crate::rational::lemma_q_mul_assoc(rem, p@, totalg);
                        // rem * (p * total) ~ rem * group
                        crate::sums::lemma_q_sum_wf(
                            masked_by_node(nsg, self.labels@, t as int),
                        );
                        lemma_q_mul_congruence(rem, rem, q_mul(p@, totalg), gq);
                        lemma_q_mul_wf(rem, q_mul(p@, totalg));
                        lemma_q_mul_wf(rem, gq);
                        lemma_q_eq_trans(
                            q_mul(d@, totalg),
                            q_mul(q_mul(p@, rem), totalg),
                            q_mul(rem, q_mul(p@, totalg)),
                        );
                        lemma_q_eq_trans(
                            q_mul(d@, totalg),
                            q_mul(rem, q_mul(p@, totalg)),
                            q_mul(rem, gq),
                        );
                    }
                    out.push(d);
                } else {
                    out.push(p);
                }
            }
            t = t + 1;
        }
        Ok(out)
    }
}

/// The per-node masses partition the total: summing every node's mass gives
/// the sum of all squared magnitudes, because each half-edge leaves exactly
/// one node.
pub proof fn lemma_node_groups_partition(ns: Seq<Q>, labels: Seq<(usize, usize)>, n: nat)
    requires
        labels.len() == ns.len(),
        forall|i: int| 0 <= i < labels.len() ==> (#[trigger] labels[i]).0 < n,
        forall|i: int| 0 <= i < ns.len() ==> q_wf(#[trigger] ns[i]),
    ensures
        q_eq(
            q_sum(Seq::new(n, |t: int| q_sum(masked_by_node(ns, labels, t)))),
            q_sum(ns),
        ),
{
    let grid = Seq::new(n, |t: int| masked_by_node(ns, labels, t));
    assert(crate::sums::rectangular(grid, ns.len() as nat));
    assert forall|t: int| 0 <= t < grid.len() implies crate::sums::all_wf(#[trigger] grid[t]) by {
        assert forall|i: int| 0 <= i < grid[t].len() implies q_wf(#[trigger] grid[t][i]) by {}
    }
    assert(crate::sums::grid_wf(grid));
    crate::sums::lemma_q_sum_exchange(grid, ns.len() as nat);
    // each column has exactly one nonzero entry: the from-node's row
    assert forall|i: int| 0 <= i < ns.len() implies q_eq(
        #[trigger] crate::sums::col_sums(grid, ns.len() as nat)[i],
        ns[i],
    ) by {
        let col = crate::sums::column(grid, i);
        assert forall|t: int| 0 <= t < col.len() implies q_wf(#[trigger] col[t]) by {}
        assert forall|t: int|
            0 <= t < col.len() && t != labels[i].0 as int implies q_is_zero(
            #[trigger] col[t],
        ) by {}
        assert(col[labels[i].0 as int] == ns[i]);
        crate::sums::lemma_q_sum_single(col, labels[i].0 as int);
    }
    crate::sums::lemma_col_sums_wf(grid, ns.len() as nat);
    crate::sums::lemma_q_sum_congruence(crate::sums::col_sums(grid, ns.len() as nat), ns);
    assert(crate::sums::row_sums(grid) =~= Seq::new(
        n,
        |t: int| q_sum(masked_by_node(ns, labels, t)),
    ));
    crate::sums::lemma_row_sums_wf(grid);
    crate::sums::lemma_q_sum_wf(crate::sums::row_sums(grid));
    crate::sums::lemma_q_sum_wf(crate::sums::col_sums(grid, ns.len() as nat));
    crate::sums::lemma_q_sum_wf(ns);
    lemma_q_eq_trans(
        q_sum(crate::sums::row_sums(grid)),
        q_sum(crate::sums::col_sums(grid, ns.len() as nat)),
        q_sum(ns),
    );
}


/// The gated per-node masses: node `t`'s mass when it is a target, zero
/// otherwise.
pub open spec fn gated_groups(
    ns: Seq<Q>,
    labels: Seq<(usize, usize)>,
    targets: Seq<bool>,
    n: nat,
) -> Seq<Q> {
    Seq::new(
        n,
        |t: int|
            if targets[t] {
                q_sum(masked_by_node(ns, labels, t))
            } else {
                q_zero()
            },
    )
}

/// The target nodes' masses partition the total target mass: summing every
/// target node's mass gives the sum over all target half-edges.
pub proof fn lemma_target_groups_partition(
    ns: Seq<Q>,
    labels: Seq<(usize, usize)>,
    targets: Seq<bool>,
    n: nat,
)
    requires
        labels.len() == ns.len(),
        forall|i: int| 0 <= i < labels.len() ==> (#[trigger] labels[i]).0 < n,
        forall|i: int| 0 <= i < ns.len() ==> q_wf(#[trigger] ns[i]),
        targets.len() == n,
    ensures
        q_eq(
            q_sum(gated_groups(ns, labels, targets, n)),
            q_sum(masked_by_targets(ns, labels, targets)),
        ),
{
    let grid = Seq::new(
        n,
        |t: int|
            if targets[t] {
                masked_by_node(ns, labels, t)
            } else {
                Seq::new(ns.len(), |i: int| q_zero())
            },
    );
    assert(crate::sums::rectangular(grid, ns.len() as nat));
    assert forall|t: int| 0 <= t < grid.len() implies crate::sums::all_wf(#[trigger] grid[t]) by {
        assert forall|i: int| 0 <= i < grid[t].len() implies q_wf(#[trigger] grid[t][i]) by {}
    }
    assert(crate::sums::grid_wf(grid));
    crate::sums::lemma_q_sum_exchange(grid, ns.len() as nat);
    // each column holds the half-edge's mass when its node is a target
    assert forall|i: int| 0 <= i < ns.len() implies q_eq(
        #[trigger] crate::sums::col_sums(grid, ns.len() as nat)[i],
        masked_by_targets(ns, labels, targets)[i],
    ) by {
        let col = crate::sums::column(grid, i);
        assert forall|t: int| 0 <= t < col.len() implies q_wf(#[trigger] col[t]) by {}
        if targets[labels[i].0 as int] {
            assert forall|t: int|
                0 <= t < col.len() && t != labels[i].0 as int implies q_is_zero(
                #[trigger] col[t],
            ) by {}
            assert(col[labels[i].0 as int] == ns[i]);
            crate::sums::lemma_q_sum_single(col, labels[i].0 as int);
        } else {
            assert forall|t: int| 0 <= t < col.len() implies q_is_zero(#[trigger] col[t]) by {}
            crate::sums::lemma_q_sum_zero(col);
            crate::sums::lemma_q_sum_wf(col);
            crate::rational::lemma_q_is_zero_iff(q_sum(col));
        }
    }
    crate::sums::lemma_col_sums_wf(grid, ns.len() as nat);
    assert forall|i: int|
        0 <= i < masked_by_targets(ns, labels, targets).len() implies q_wf(
        #[trigger] masked_by_targets(ns, labels, targets)[i],
    ) by {}
    crate::sums::lemma_q_sum_congruence(
        crate::sums::col_sums(grid, ns.len() as nat),
        masked_by_targets(ns, labels, targets),
    );
    // each row is the gated mass of its node
    assert forall|t: int| 0 <= t < n implies q_wf(
        #[trigger] crate::sums::row_sums(grid)[t],
    ) && q_eq(crate::sums::row_sums(grid)[t], gated_groups(ns, labels, targets, n)[t]) by {
        crate::sums::lemma_q_sum_wf(grid[t]);
        if !targets[t] {
            assert forall|i: int| 0 <= i < grid[t].len() implies q_is_zero(
                #[trigger] grid[t][i],
            ) by {}
            crate::sums::lemma_q_sum_zero(grid[t]);
            crate::rational::lemma_q_is_zero_iff(q_sum(grid[t]));
        }
    }
    assert forall|t: int| 0 <= t < n implies q_wf(
        #[trigger] gated_groups(ns, labels, targets, n)[t],
    ) by {
        if targets[t] {
            assert forall|i: int|
                0 <= i < masked_by_node(ns, labels, t).len() implies q_wf(
                #[trigger] masked_by_node(ns, labels, t)[i],
            ) by {}
            crate::sums::lemma_q_sum_wf(masked_by_node(ns, labels, t));
        }
    }
    crate::sums::lemma_q_sum_congruence(
        crate::sums::row_sums(grid),
        gated_groups(ns, labels, targets, n),
    );
    crate::sums::lemma_q_sum_wf(crate::sums::row_sums(grid));
    crate::sums::lemma_q_sum_wf(crate::sums::col_sums(grid, ns.len() as nat));
    crate::sums::lemma_q_sum_wf(gated_groups(ns, labels, targets, n));
    crate::sums::lemma_q_sum_wf(masked_by_targets(ns, labels, targets));
    lemma_q_eq_symmetric(q_sum(crate::sums::row_sums(grid)), q_sum(gated_groups(ns, labels, targets, n)));
    lemma_q_eq_trans(
        q_sum(gated_groups(ns, labels, targets, n)),
        q_sum(crate::sums::row_sums(grid)),
        q_sum(crate::sums::col_sums(grid, ns.len() as nat)),
    );
    lemma_q_eq_trans(
        q_sum(gated_groups(ns, labels, targets, n)),
        q_sum(crate::sums::col_sums(grid, ns.len() as nat)),
        q_sum(masked_by_targets(ns, labels, targets)),
    );
}

/// A product with a zero-valued factor is zero-valued.
proof fn lemma_q_mul_zero_left(a: Q, b: Q) by (nonlinear_arith)
    requires
        q_is_zero(a),
    ensures
        q_is_zero(q_mul(a, b)),
{
}

/// Probability conservation of the displayed distribution: with targets
/// configured, a state whose target half-edges carry no amplitude, and
/// absorption buckets only at target nodes, the displayed per-node values —
/// accumulated mass at targets, unabsorbed share of the node's live mass
/// elsewhere — sum to exactly one.
pub proof fn lemma_state_data_total(
    ns: Seq<Q>,
    labels: Seq<(usize, usize)>,
    targets: Seq<bool>,
    accum: Seq<Q>,
    d: Seq<Q>,
    n: nat,
)
    requires
        labels.len() == ns.len(),
        forall|i: int| 0 <= i < labels.len() ==> (#[trigger] labels[i]).0 < n,
        forall|i: int| 0 <= i < ns.len() ==> q_wf(#[trigger] ns[i]),
        targets.len() == n,
        accum.len() == n,
        forall|t: int| 0 <= t < n ==> q_wf(#[trigger] accum[t]),
        d.len() == n,
        forall|t: int| 0 <= t < n ==> q_wf(#[trigger] d[t]),
        any_target(targets),
        !q_is_zero(q_sum(ns)),
        // target half-edges carry no amplitude
        forall|i: int|
            0 <= i < ns.len() && targets[(#[trigger] labels[i]).0 as int] ==> q_is_zero(ns[i]),
        // absorption buckets exist only at target nodes
        forall|t: int| 0 <= t < n && !targets[t] ==> q_is_zero(#[trigger] accum[t]),
        // the displayed values, as get_state_data returns them
        forall|t: int|
            0 <= t < n ==> (if targets[t] {
                q_eq(#[trigger] d[t], accum[t])
            } else {
                q_eq(
                    q_mul(d[t], q_sum(ns)),
                    q_mul(q_sub(q_one(), q_sum(accum)), q_sum(masked_by_node(ns, labels, t))),
                )
            }),
    ensures
        q_eq(q_sum(d), q_one()),
{
    let total = q_sum(ns);
    let a = q_sum(accum);
    let rem = q_sub(q_one(), a);
    crate::sums::lemma_q_sum_wf(ns);
    crate::sums::lemma_q_sum_wf(accum);
    crate::sums::lemma_q_sum_wf(d);
    lemma_q_sub_wf(q_one(), a);
    let groups = Seq::new(n, |t: int| q_sum(masked_by_node(ns, labels, t)));
    assert forall|t: int| 0 <= t < n implies q_wf(#[trigger] groups[t]) by {
        assert forall|i: int|
            0 <= i < masked_by_node(ns, labels, t).len() implies q_wf(
            #[trigger] masked_by_node(ns, labels, t)[i],
        ) by {}
        crate::sums::lemma_q_sum_wf(masked_by_node(ns, labels, t));
    }
    // a target node's mass is zero, since its half-edges carry none
    assert forall|t: int| 0 <= t < n && targets[t] implies q_is_zero(#[trigger] groups[t]) by {
        assert forall|i: int|
            0 <= i < masked_by_node(ns, labels, t).len() implies q_is_zero(
            #[trigger] masked_by_node(ns, labels, t)[i],
        ) by {}
        crate::sums::lemma_q_sum_zero(masked_by_node(ns, labels, t));
    }
    // scale the displayed values by the total
    let w = crate::sums::scale_seq(total, d);
    crate::sums::lemma_q_sum_scale(total, d);
    let w1 = crate::sums::scale_seq(total, accum);
    let w2 = crate::sums::scale_seq(rem, groups);
    assert forall|t: int| 0 <= t < n implies q_wf(#[trigger] w1[t]) by {
        lemma_q_mul_wf(total, accum[t]);
    }
    assert forall|t: int| 0 <= t < n implies q_wf(#[trigger] w2[t]) by {
        lemma_q_mul_wf(rem, groups[t]);
    }
    assert forall|t: int| 0 <= t < n implies q_wf(#[trigger] w[t]) by {
        lemma_q_mul_wf(total, d[t]);
    }
    // pointwise, total*d_t is the sum of the two contributions
    assert forall|t: int| 0 <= t < n implies q_eq(
        #[trigger] w[t],
        q_add(w1[t], w2[t]),
    ) by {
        crate::rational::lemma_q_mul_comm(total, d[t]);
        lemma_q_mul_wf(d[t], total);
        if targets[t] {
            // w_t ~ total*accum_t, and the group contribution is zero
            lemma_q_mul_congruence(d[t], accum[t], total, total);
            crate::rational::lemma_q_mul_comm(total, accum[t]);
            lemma_q_mul_wf(accum[t], total);
            lemma_q_eq_trans(w[t], q_mul(d[t], total), q_mul(accum[t], total));
            lemma_q_mul_zero_left(groups[t], rem);
            crate::rational::lemma_q_mul_comm(rem, groups[t]);
            crate::rational::lemma_q_is_zero_iff(w2[t]);
            crate::rational::lemma_q_add_zero(w1[t], w2[t]);
            crate::rational::lemma_q_eq_symmetric(q_add(w1[t], w2[t]), w1[t]);
            crate::rational::lemma_q_add_wf(w1[t], w2[t]);
            lemma_q_eq_trans(w[t], w1[t], q_add(w1[t], w2[t]));
        } else {
            // w_t ~ rem*group_t, and the accumulation contribution is zero
            lemma_q_mul_wf(rem, groups[t]);
            lemma_q_eq_trans(w[t], q_mul(d[t], total), q_mul(rem, groups[t]));
            lemma_q_mul_zero_left(accum[t], total);
            crate::rational::lemma_q_mul_comm(total, accum[t]);
            crate::rational::lemma_q_is_zero_iff(w1[t]);
            crate::rational::lemma_q_add_zero(w2[t], w1[t]);
            crate::rational::lemma_q_eq_symmetric(q_add(w1[t], w2[t]), w2[t]);
            crate::rational::lemma_q_add_wf(w1[t], w2[t]);
            lemma_q_eq_trans(w[t], w2[t], q_add(w1[t], w2[t]));
        }
    }
    assert forall|t: int| 0 <= t < n implies q_eq(
        #[trigger] crate::sums::pointwise_add(w1, w2)[t],
        w[t],
    ) by {
        crate::rational::lemma_q_add_wf(w1[t], w2[t]);
        crate::rational::lemma_q_eq_symmetric(w[t], q_add(w1[t], w2[t]));
    }
    crate::sums::lemma_q_sum_pointwise_add(w1, w2);
    assert forall|t: int|
        0 <= t < crate::sums::pointwise_add(w1, w2).len() implies q_wf(
        #[trigger] crate::sums::pointwise_add(w1, w2)[t],
    ) by {
        crate::rational::lemma_q_add_wf(w1[t], w2[t]);
    }
    crate::sums::lemma_q_sum_congruence(crate::sums::pointwise_add(w1, w2), w);
    crate::sums::lemma_q_sum_scale(total, accum);
    crate::sums::lemma_q_sum_scale(rem, groups);
    crate::sums::lemma_q_sum_wf(w);
    crate::sums::lemma_q_sum_wf(w1);
    crate::sums::lemma_q_sum_wf(w2);
    crate::sums::lemma_q_sum_wf(crate::sums::pointwise_add(w1, w2));
    crate::sums::lemma_q_sum_wf(groups);
    lemma_q_mul_wf(total, a);
    lemma_q_mul_wf(rem, q_sum(groups));
    // sum(w) ~ total*a + rem*sum(groups)
    crate::rational::lemma_q_add_congruence(
        q_sum(w1),
        q_mul(total, a),
        q_sum(w2),
        q_mul(rem, q_sum(groups)),
    );
    crate::rational::lemma_q_add_wf(q_sum(w1), q_sum(w2));
    crate::rational::lemma_q_add_wf(q_mul(total, a), q_mul(rem, q_sum(groups)));
    crate::rational::lemma_q_eq_symmetric(
        q_sum(crate::sums::pointwise_add(w1, w2)),
        q_add(q_sum(w1), q_sum(w2)),
    );
    lemma_q_eq_trans(
        q_add(q_sum(w1), q_sum(w2)),
        q_sum(crate::sums::pointwise_add(w1, w2)),
        q_sum(w),
    );
    crate::rational::lemma_q_eq_symmetric(
        q_add(q_sum(w1), q_sum(w2)),
        q_sum(w),
    );
    lemma_q_eq_trans(
        q_sum(w),
        q_add(q_sum(w1), q_sum(w2)),
        q_add(q_mul(total, a), q_mul(rem, q_sum(groups))),
    );
    // sum(groups) ~ total, so rem*sum(groups) ~ rem*total == total*rem
    lemma_node_groups_partition(ns, labels, n);
    lemma_q_mul_congruence(rem, rem, q_sum(groups), total);
    lemma_q_mul_wf(rem, total);
    crate::rational::lemma_q_mul_comm(rem, total);
    lemma_q_mul_wf(total, rem);
    crate::rational::lemma_q_add_congruence(
        q_mul(total, a),
        q_mul(total, a),
        q_mul(rem, q_sum(groups)),
        q_mul(total, rem),
    );
    crate::rational::lemma_q_add_wf(q_mul(total, a), q_mul(rem, q_sum(groups)));
    crate::rational::lemma_q_add_wf(q_mul(total, a), q_mul(total, rem));
    lemma_q_eq_trans(
        q_sum(w),
        q_add(q_mul(total, a), q_mul(rem, q_sum(groups))),
        q_add(q_mul(total, a), q_mul(total, rem)),
    );
    // total*a + total*rem ~ total*(a + rem) ~ total*1 ~ total
    crate::rational::lemma_q_mul_distributes(a, rem, total);
    crate::rational::lemma_q_add_wf(a, rem);
    lemma_q_mul_wf(total, q_add(a, rem));
    crate::rational::lemma_q_eq_symmetric(
        q_mul(total, q_add(a, rem)),
        q_add(q_mul(total, a), q_mul(total, rem)),
    );
    lemma_q_eq_trans(
        q_sum(w),
        q_add(q_mul(total, a), q_mul(total, rem)),
        q_mul(total, q_add(a, rem)),
    );
    crate::rational::lemma_q_complement(a);
    lemma_q_mul_congruence(total, total, q_add(a, rem), q_one());
    lemma_q_mul_wf(total, q_one());
    lemma_q_eq_trans(q_sum(w), q_mul(total, q_add(a, rem)), q_mul(total, q_one()));
    // and sum(w) ~ total*sum(d), so total*sum(d) ~ total*1; cancel the total
    crate::rational::lemma_q_eq_symmetric(q_sum(w), q_mul(total, q_sum(d)));
    lemma_q_mul_wf(total, q_sum(d));
    crate::rational::lemma_q_eq_symmetric(q_mul(total, q_sum(d)), q_sum(w));
    lemma_q_eq_trans(q_mul(total, q_sum(d)), q_sum(w), q_mul(total, q_one()));
    crate::rational::lemma_q_mul_comm(total, q_sum(d));
    crate::rational::lemma_q_mul_comm(total, q_one());
    crate::rational::lemma_q_mul_cancel(q_sum(d), q_one(), total);
}


/// Probability conservation without targets: the displayed per-node
/// distribution — each node's share of the squared state norm — sums to
/// exactly one whenever the state carries any mass at all.
pub proof fn lemma_state_data_total_no_targets(
    ns: Seq<Q>,
    labels: Seq<(usize, usize)>,
    d: Seq<Q>,
    n: nat,
)
    requires
        labels.len() == ns.len(),
        forall|i: int| 0 <= i < labels.len() ==> (#[trigger] labels[i]).0 < n,
        forall|i: int| 0 <= i < ns.len() ==> q_wf(#[trigger] ns[i]),
        d.len() == n,
        forall|t: int| 0 <= t < n ==> q_wf(#[trigger] d[t]),
        !q_is_zero(q_sum(ns)),
        forall|t: int|
            0 <= t < n ==> q_eq(
                q_mul(#[trigger] d[t], q_sum(ns)),
                q_sum(masked_by_node(ns, labels, t)),
            ),
    ensures
        q_eq(q_sum(d), q_one()),
{
    let total = q_sum(ns);
    crate::sums::lemma_q_sum_wf(ns);
    crate::sums::lemma_q_sum_wf(d);
    let groups = Seq::new(n, |t: int| q_sum(masked_by_node(ns, labels, t)));
    assert forall|t: int| 0 <= t < n implies q_wf(#[trigger] groups[t]) by {
        assert forall|i: int|
            0 <= i < masked_by_node(ns, labels, t).len() implies q_wf(
            #[trigger] masked_by_node(ns, labels, t)[i],
        ) by {}
        crate::sums::lemma_q_sum_wf(masked_by_node(ns, labels, t));
    }
    // total * sum(d) ~ sum of the scaled entries ~ sum of the node masses
    let w = crate::sums::scale_seq(total, d);
    crate::sums::lemma_q_sum_scale(total, d);
    assert forall|t: int| 0 <= t < n implies q_wf(#[trigger] w[t]) && q_eq(w[t], groups[t]) by {
        lemma_q_mul_wf(total, d[t]);
        crate::rational::lemma_q_mul_comm(total, d[t]);
        lemma_q_mul_wf(d[t], total);
    }
    crate::sums::lemma_q_sum_congruence(w, groups);
    // and the node masses partition the total
    lemma_node_groups_partition(ns, labels, n);
    crate::sums::lemma_q_sum_wf(w);
    crate::sums::lemma_q_sum_wf(groups);
    lemma_q_mul_wf(total, q_sum(d));
    crate::rational::lemma_q_eq_symmetric(q_sum(w), q_mul(total, q_sum(d)));
    lemma_q_eq_trans(q_mul(total, q_sum(d)), q_sum(w), q_sum(groups));
    lemma_q_eq_trans(q_mul(total, q_sum(d)), q_sum(groups), total);
    // total ~ total * 1, so cancelling the nonzero total leaves sum(d) ~ 1
    crate::rational::lemma_q_mul_one(total);
    lemma_q_mul_wf(total, q_one());
    crate::rational::lemma_q_eq_symmetric(q_mul(total, q_one()), total);
    lemma_q_eq_trans(q_mul(total, q_sum(d)), total, q_mul(total, q_one()));
    crate::rational::lemma_q_mul_comm(total, q_sum(d));
    crate::rational::lemma_q_mul_comm(total, q_one());
    crate::rational::lemma_q_mul_cancel(q_sum(d), q_one(), total);
}

/// The displayed distribution is a function of the state alone: any two
/// vectors satisfying the aggregation contract over the same state agree
/// entrywise, so reading the state twice without stepping shows the same
/// distribution.
pub proof fn lemma_state_data_unique(
    ns: Seq<Q>,
    labels: Seq<(usize, usize)>,
    targets: Seq<bool>,
    accum: Seq<Q>,
    d1: Seq<Q>,
    d2: Seq<Q>,
    n: nat,
)
    requires
        labels.len() == ns.len(),
        forall|i: int| 0 <= i < ns.len() ==> q_wf(#[trigger] ns[i]),
        targets.len() == n,
        accum.len() == n,
        forall|t: int| 0 <= t < n ==> q_wf(#[trigger] accum[t]),
        d1.len() == n,
        d2.len() == n,
        forall|t: int| 0 <= t < n ==> q_wf(#[trigger] d1[t]),
        forall|t: int| 0 <= t < n ==> q_wf(#[trigger] d2[t]),
        forall|t: int|
            0 <= t < n ==> (if targets[t] && any_target(targets) {
                q_eq(#[trigger] d1[t], accum[t])
            } else if q_is_zero(q_sum(ns)) {
                q_is_zero(d1[t])
            } else if any_target(targets) {
                q_eq(
                    q_mul(d1[t], q_sum(ns)),
                    q_mul(q_sub(q_one(), q_sum(accum)), q_sum(masked_by_node(ns, labels, t))),
                )
            } else {
                q_eq(q_mul(d1[t], q_sum(ns)), q_sum(masked_by_node(ns, labels, t)))
            }),
        forall|t: int|
            0 <= t < n ==> (if targets[t] && any_target(targets) {
                q_eq(#[trigger] d2[t], accum[t])
            } else if q_is_zero(q_sum(ns)) {
                q_is_zero(d2[t])
            } else if any_target(targets) {
                q_eq(
                    q_mul(d2[t], q_sum(ns)),
                    q_mul(q_sub(q_one(), q_sum(accum)), q_sum(masked_by_node(ns, labels, t))),
                )
            } else {
                q_eq(q_mul(d2[t], q_sum(ns)), q_sum(masked_by_node(ns, labels, t)))
            }),
    ensures
        forall|t: int| 0 <= t < n ==> q_eq(#[trigger] d1[t], #[trigger] d2[t]),
{
    let total = q_sum(ns);
    crate::sums::lemma_q_sum_wf(ns);
    assert forall|t: int| 0 <= t < n implies q_eq(#[trigger] d1[t], #[trigger] d2[t]) by {
        if targets[t] && any_target(targets) {
            crate::rational::lemma_q_eq_symmetric(d2[t], accum[t]);
            lemma_q_eq_trans(d1[t], accum[t], d2[t]);
        } else if q_is_zero(total) {
            crate::rational::lemma_q_is_zero_iff(d1[t]);
            crate::rational::lemma_q_is_zero_iff(d2[t]);
            crate::rational::lemma_q_eq_symmetric(d2[t], q_zero());
            lemma_q_eq_trans(d1[t], q_zero(), d2[t]);
        } else {
            let rhs = if any_target(targets) {
                q_mul(q_sub(q_one(), q_sum(accum)), q_sum(masked_by_node(ns, labels, t)))
            } else {
                q_sum(masked_by_node(ns, labels, t))
            };
            lemma_q_mul_wf(d1[t], total);
            lemma_q_mul_wf(d2[t], total);
            assert forall|i: int|
                0 <= i < masked_by_node(ns, labels, t).len() implies q_wf(
                #[trigger] masked_by_node(ns, labels, t)[i],
            ) by {}
            crate::sums::lemma_q_sum_wf(masked_by_node(ns, labels, t));
            crate::sums::lemma_q_sum_wf(accum);
            lemma_q_sub_wf(q_one(), q_sum(accum));
            if any_target(targets) {
                lemma_q_mul_wf(
                    q_sub(q_one(), q_sum(accum)),
                    q_sum(masked_by_node(ns, labels, t)),
                );
            }
            crate::rational::lemma_q_eq_symmetric(q_mul(d2[t], total), rhs);
            lemma_q_eq_trans(q_mul(d1[t], total), rhs, q_mul(d2[t], total));
            crate::rational::lemma_q_mul_cancel(d1[t], d2[t], total);
        }
    }
}



/// One absorption pass keeps the books balanced: when the buckets sum to
/// the removed mass before the pass, they still do after it, both sides
/// having grown by the unremoved share of the target mass.
pub proof fn lemma_absorption_keeps_bucket_sum(
    mid: Seq<QC>,
    labels: Seq<(usize, usize)>,
    targets: Seq<bool>,
    acc_old: Seq<Q>,
    acc_new: Seq<Q>,
    a_old: Q,
    a_new: Q,
    state_new: Seq<QC>,
)
    requires
        labels.len() == mid.len(),
        forall|i: int| 0 <= i < labels.len() ==> (#[trigger] labels[i]).0 < acc_old.len(),
        forall|i: int| 0 <= i < mid.len() ==> qc_wf(#[trigger] mid[i]),
        targets.len() == acc_old.len(),
        acc_new.len() == acc_old.len(),
        forall|t: int| 0 <= t < acc_old.len() ==> q_wf(#[trigger] acc_old[t]),
        forall|t: int| 0 <= t < acc_new.len() ==> q_wf(#[trigger] acc_new[t]),
        q_wf(a_old),
        q_wf(a_new),
        absorb_rel(mid, labels, targets, acc_old, acc_new, a_old, a_new, state_new),
        q_eq(q_sum(acc_old), a_old),
    ensures
        q_eq(q_sum(acc_new), a_new),
{
    let n = acc_old.len();
    let ns = norms_of(mid);
    let total = q_sum(ns);
    let om = q_sub(q_one(), a_old);
    let tm = q_sum(masked_by_targets(ns, labels, targets));
    lemma_norms_wf(mid);
    crate::sums::lemma_q_sum_wf(ns);
    crate::sums::lemma_q_sum_wf(acc_old);
    crate::sums::lemma_q_sum_wf(acc_new);
    lemma_q_sub_wf(q_one(), a_old);
    if !has_target_half_edge(labels, targets) || q_is_zero(total) {
        // nothing moved
    } else {
        let diffs = Seq::new(n, |t: int| q_sub(acc_new[t], acc_old[t]));
        assert forall|t: int| 0 <= t < n implies q_wf(#[trigger] diffs[t]) by {
            lemma_q_sub_wf(acc_new[t], acc_old[t]);
        }
        let gated = gated_groups(ns, labels, targets, n);
        assert forall|t: int| 0 <= t < n implies q_wf(#[trigger] gated[t]) by {
            if targets[t] {
                assert forall|i: int|
                    0 <= i < masked_by_node(ns, labels, t).len() implies q_wf(
                    #[trigger] masked_by_node(ns, labels, t)[i],
                ) by {}
                crate::sums::lemma_q_sum_wf(masked_by_node(ns, labels, t));
            }
        }
        crate::sums::lemma_q_sum_wf(gated);
        let scaled_diffs = crate::sums::scale_seq(total, diffs);
        let scaled_gated = crate::sums::scale_seq(om, gated);
        crate::sums::lemma_q_sum_scale(total, diffs);
        crate::sums::lemma_q_sum_scale(om, gated);
        // pointwise, total * (new - old) is the unremoved share of the
        // node's gated mass
        assert forall|t: int| 0 <= t < n implies q_wf(#[trigger] scaled_gated[t]) by {
            lemma_q_mul_wf(om, gated[t]);
        }
        assert forall|t: int| 0 <= t < n implies q_wf(#[trigger] scaled_diffs[t]) && q_eq(
            scaled_diffs[t],
            scaled_gated[t],
        ) by {
            lemma_q_sub_wf(acc_new[t], acc_old[t]);
            lemma_q_mul_wf(total, diffs[t]);
            lemma_q_mul_wf(om, gated[t]);
            crate::rational::lemma_q_mul_comm(total, diffs[t]);
            if targets[t] {
                assert(q_eq(q_mul(diffs[t], total), q_mul(om, gated[t])));
            } else {
                assert(q_eq(acc_new[t], acc_old[t]));
                assert((-acc_old[t].n) * acc_new[t].d == -(acc_old[t].n * acc_new[t].d))
                    by (nonlinear_arith);
                assert(q_is_zero(q_sub(acc_new[t], acc_old[t])));
                lemma_q_mul_zero_left(diffs[t], total);
                crate::rational::lemma_q_mul_comm(diffs[t], total);
                crate::rational::lemma_q_mul_zero(om);
                crate::rational::lemma_q_is_zero_iff(q_mul(total, diffs[t]));
                crate::rational::lemma_q_is_zero_iff(q_mul(om, gated[t]));
                lemma_q_eq_symmetric(q_mul(om, gated[t]), q_zero());
                lemma_q_eq_trans(q_mul(total, diffs[t]), q_zero(), q_mul(om, gated[t]));
            }
        }
        crate::sums::lemma_q_sum_congruence(scaled_diffs, scaled_gated);
        crate::sums::lemma_q_sum_wf(diffs);
        crate::sums::lemma_q_sum_wf(scaled_diffs);
        crate::sums::lemma_q_sum_wf(scaled_gated);
        lemma_q_mul_wf(total, q_sum(diffs));
        lemma_q_mul_wf(om, q_sum(gated));
        // total * sum(diffs) ~ om * sum(gated) ~ om * target mass
        lemma_q_eq_symmetric(q_sum(scaled_diffs), q_mul(total, q_sum(diffs)));
        lemma_q_eq_trans(q_mul(total, q_sum(diffs)), q_sum(scaled_diffs), q_sum(scaled_gated));
        lemma_q_eq_trans(q_mul(total, q_sum(diffs)), q_sum(scaled_gated), q_mul(om, q_sum(gated)));
        lemma_target_groups_partition(ns, labels, targets, n);
        assert forall|i: int|
            0 <= i < masked_by_targets(ns, labels, targets).len() implies q_wf(
            #[trigger] masked_by_targets(ns, labels, targets)[i],
        ) by {}
        crate::sums::lemma_q_sum_wf(masked_by_targets(ns, labels, targets));
        lemma_q_mul_congruence(om, om, q_sum(gated), tm);
        lemma_q_mul_wf(om, tm);
        lemma_q_eq_trans(q_mul(total, q_sum(diffs)), q_mul(om, q_sum(gated)), q_mul(om, tm));
        // the removed mass moved by the same amount
        lemma_q_sub_wf(a_new, a_old);
        lemma_q_mul_wf(q_sub(a_new, a_old), total);
        lemma_q_eq_symmetric(q_mul(q_sub(a_new, a_old), total), q_mul(om, tm));
        crate::rational::lemma_q_mul_comm(total, q_sum(diffs));
        crate::rational::lemma_q_mul_comm(q_sub(a_new, a_old), total);
        lemma_q_eq_trans(
            q_mul(q_sum(diffs), total),
            q_mul(om, tm),
            q_mul(q_sub(a_new, a_old), total),
        );
        crate::rational::lemma_q_mul_cancel(q_sum(diffs), q_sub(a_new, a_old), total);
        // sum(diffs) is the difference of the bucket sums
        assert(diffs =~= crate::sums::pointwise_add(acc_new, crate::sums::pointwise_neg(acc_old)));
        assert forall|t: int|
            0 <= t < n implies q_wf(#[trigger] crate::sums::pointwise_neg(acc_old)[t]) by {}
        crate::sums::lemma_q_sum_pointwise_add(acc_new, crate::sums::pointwise_neg(acc_old));
        crate::sums::lemma_q_sum_neg(acc_old);
        // assemble: sum(new) ~ (sum(new) - sum(old)) + sum(old)
        //                    ~ (a_new - a_old) + a_old ~ a_new
        lemma_q_sub_wf(q_sum(acc_new), q_sum(acc_old));
        crate::rational::lemma_q_sub_add_cancel(q_sum(acc_new), q_sum(acc_old));
        crate::rational::lemma_q_add_wf(q_sub(q_sum(acc_new), q_sum(acc_old)), q_sum(acc_old));
        lemma_q_eq_symmetric(
            q_add(q_sub(q_sum(acc_new), q_sum(acc_old)), q_sum(acc_old)),
            q_sum(acc_new),
        );
        // sum(diffs) ~ sub of sums: from linearity and exact negation
        crate::rational::lemma_q_add_wf(q_sum(acc_new), q_sum(crate::sums::pointwise_neg(acc_old)));
        lemma_q_eq_symmetric(
            q_sum(diffs),
            q_add(q_sum(acc_new), q_sum(crate::sums::pointwise_neg(acc_old))),
        );
        lemma_q_eq_symmetric(q_sum(diffs), q_sub(q_sum(acc_new), q_sum(acc_old)));
        lemma_q_eq_trans(
            q_sub(q_sum(acc_new), q_sum(acc_old)),
            q_sum(diffs),
            q_sub(a_new, a_old),
        );
        // both components of the assembled sum are congruent
        crate::rational::lemma_q_add_congruence(
            q_sub(q_sum(acc_new), q_sum(acc_old)),
            q_sub(a_new, a_old),
            q_sum(acc_old),
            a_old,
        );
        crate::rational::lemma_q_add_wf(q_sub(a_new, a_old), a_old);
        lemma_q_eq_trans(
            q_sum(acc_new),
            q_add(q_sub(q_sum(acc_new), q_sum(acc_old)), q_sum(acc_old)),
            q_add(q_sub(a_new, a_old), a_old),
        );
        crate::rational::lemma_q_sub_add_cancel(a_new, a_old);
        lemma_q_eq_trans(q_sum(acc_new), q_add(q_sub(a_new, a_old), a_old), a_new);
    }
}


/// After an absorption pass with a target half-edge present, the target
/// half-edges carry no amplitude: in the general case they were zeroed, and
/// when the pass skipped a massless state every half-edge was already
/// carrying nothing.
pub proof fn lemma_absorption_clears_targets(
    mid: Seq<QC>,
    labels: Seq<(usize, usize)>,
    targets: Seq<bool>,
    acc_old: Seq<Q>,
    acc_new: Seq<Q>,
    a_old: Q,
    a_new: Q,
    state_new: Seq<QC>,
)
    requires
        labels.len() == mid.len(),
        state_new.len() == mid.len(),
        forall|i: int| 0 <= i < mid.len() ==> qc_wf(#[trigger] mid[i]),
        absorb_rel(mid, labels, targets, acc_old, acc_new, a_old, a_new, state_new),
        has_target_half_edge(labels, targets),
    ensures
        forall|i: int|
            0 <= i < state_new.len() && targets[(#[trigger] labels[i]).0 as int] ==> q_is_zero(
                qc_norm_sqr(state_new[i]),
            ),
{
    let ns = norms_of(mid);
    lemma_norms_wf(mid);
    if q_is_zero(q_sum(ns)) {
        // no mass anywhere: every magnitude is zero
        assert forall|k: int| 0 <= k < ns.len() implies crate::rational::q_le(
            q_zero(),
            #[trigger] ns[k],
        ) by {
            crate::complex::lemma_qc_norm_sqr_nonneg(mid[k]);
        }
        crate::sums::lemma_q_sum_zero_each(ns);
        assert forall|i: int|
            0 <= i < state_new.len() && targets[(#[trigger] labels[i]).0 as int] implies q_is_zero(
            qc_norm_sqr(state_new[i]),
        ) by {
            assert(state_new[i] == mid[i]);
            assert(q_is_zero(ns[i]));
        }
    } else {
        assert forall|i: int|
            0 <= i < state_new.len() && targets[(#[trigger] labels[i]).0 as int] implies q_is_zero(
            qc_norm_sqr(state_new[i]),
        ) by {
            assert(state_new[i] == qc_zero());
            assert(q_is_zero(qc_norm_sqr(qc_zero()))) by (nonlinear_arith);
        }
    }
}

/// An absorption pass leaves the bucket support where it was: when only
/// target nodes hold accumulated mass before a pass, only target nodes hold
/// it afterwards.  Together with construction (all buckets zero) this keeps
/// the hypothesis of `lemma_state_data_total` true across every step.
pub proof fn lemma_absorption_keeps_bucket_support(
    mid: Seq<QC>,
    labels: Seq<(usize, usize)>,
    targets: Seq<bool>,
    acc_old: Seq<Q>,
    acc_new: Seq<Q>,
    a_old: Q,
    a_new: Q,
    state_new: Seq<QC>,
)
    requires
        acc_old.len() == targets.len(),
        acc_new.len() == targets.len(),
        forall|t: int| 0 <= t < acc_old.len() ==> q_wf(#[trigger] acc_old[t]),
        forall|t: int| 0 <= t < acc_new.len() ==> q_wf(#[trigger] acc_new[t]),
        absorb_rel(mid, labels, targets, acc_old, acc_new, a_old, a_new, state_new),
        forall|t: int| 0 <= t < targets.len() && !targets[t] ==> q_is_zero(#[trigger] acc_old[t]),
    ensures
        forall|t: int| 0 <= t < targets.len() && !targets[t] ==> q_is_zero(#[trigger] acc_new[t]),
{
    let total = q_sum(norms_of(mid));
    if !has_target_half_edge(labels, targets) || q_is_zero(total) {
    } else {
        assert forall|t: int|
            0 <= t < targets.len() && !targets[t] implies q_is_zero(#[trigger] acc_new[t]) by {
            crate::rational::lemma_q_is_zero_iff(acc_old[t]);
            lemma_q_eq_trans(acc_new[t], acc_old[t], q_zero());
            crate::rational::lemma_q_is_zero_iff(acc_new[t]);
        }
    }
}

/// A copy of an amplitude vector.
fn clone_cxs(v: &Vec<Cx>) -> (r: Vec<Cx>)
    ensures
        r@ == v@,
{
    let mut out: Vec<Cx> = Vec::new();
    let mut i: usize = 0;
    while i < v.len()
        invariant
            0 <= i <= v@.len(),
            out@.len() == i,
            forall|k: int| 0 <= k < i ==> #[trigger] out@[k] == v@[k],
        decreases v@.len() - i,
    {
        out.push(v[i]);
        i = i + 1;
    }
    proof {
        assert(out@ =~= v@);
    }
    out
}

/// A copy of a scalar vector.
fn clone_rats(v: &Vec<Rat>) -> (r: Vec<Rat>)
    ensures
        r@ == v@,
{
    let mut out: Vec<Rat> = Vec::new();
    let mut i: usize = 0;
    while i < v.len()
        invariant
            0 <= i <= v@.len(),
            out@.len() == i,
            forall|k: int| 0 <= k < i ==> #[trigger] out@[k] == v@[k],
        decreases v@.len() - i,
    {
        out.push(v[i]);
        i = i + 1;
    }
    proof {
        assert(out@ =~= v@);
    }
    out
}

/// A copy of a label list.
fn clone_labels(labels: &Vec<(usize, usize)>) -> (r: Vec<(usize, usize)>)
    ensures
        r@ == labels@,
{
    let mut out: Vec<(usize, usize)> = Vec::new();
    let mut i: usize = 0;
    while i < labels.len()
        invariant
            0 <= i <= labels@.len(),
            out@.len() == i,
            forall|k: int| 0 <= k < i ==> #[trigger] out@[k] == labels@[k],
        decreases labels@.len() - i,
    {
        out.push(labels[i]);
        i = i + 1;
    }
    proof {
        assert(out@ =~= labels@);
    }
    out
}

} // verus!
