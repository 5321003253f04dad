//! The quantum (half-edge) transition operator.
//!
//! An undirected edge list over `n` nodes yields a sorted adjacency list,
//! which defines the half-edge label set: one `(from, to)` pair per directed
//! traversal, ordered by `from` and then by neighbor order.  The propagation
//! operator moves an amplitude from a half-edge to its reverse; the scatter
//! operator holds the user-chosen local coin blocks; their product is the
//! combined operator the walk steps with.
//!
//! Unitarity of the combined operator is a joint property of its singular
//! values; computing those is floating-point work that lives outside this
//! crate.  What lives here is the exact classification of a singular-value
//! list into no correction, a uniform scalar correction, or a per-value
//! correction vector.

use vstd::prelude::*;

verus! {

use crate::complex::{qc_one, qc_zero, Cx, QC};
use crate::complex_matrix::{cxs_view, cxs_wf, CMatrix};
use crate::matrix::{rats_view, rats_wf};
use crate::rational::{q_eq, q_fits, q_le, q_neg, q_one, q_sub, q_wf, q_zero, Q, Rat};
use crate::transition_matrix_correction_type::TransitionMatrixCorrectionType;
use crate::WalkError;

/// How the propagation operator is derived from the label set.
#[derive(Debug, Clone, Copy, PartialEq, Eq, Structural)]
pub enum PropagationMethod {
    /// Each half-edge hands its amplitude to its reverse half-edge.
    ExampleMatrix,
}

/// Nodes `a` and `b` are joined by some edge of the list, in either
/// orientation.
pub open spec fn edge_connects(edges: Seq<(usize, usize)>, a: usize, b: usize) -> bool {
    exists|k: int|
        0 <= k < edges.len() && ((#[trigger] edges[k]) == (a, b) || edges[k] == (b, a))
}

/// Edges are undirected: connectivity does not depend on orientation, so a
/// derived adjacency list is symmetric — whenever `j` neighbors `i`, `i`
/// neighbors `j`.
pub proof fn lemma_edge_connects_symmetric(edges: Seq<(usize, usize)>, a: usize, b: usize)
    ensures
        edge_connects(edges, a, b) == edge_connects(edges, b, a),
{
    if edge_connects(edges, a, b) {
        let k = choose|k: int|
            0 <= k < edges.len() && ((#[trigger] edges[k]) == (a, b) || edges[k] == (b, a));
        assert(edges[k] == (b, a) || edges[k] == (a, b));
    }
    if edge_connects(edges, b, a) {
        let k = choose|k: int|
            0 <= k < edges.len() && ((#[trigger] edges[k]) == (b, a) || edges[k] == (a, b));
        assert(edges[k] == (a, b) || edges[k] == (b, a));
    }
}

/// The sorted adjacency list of an undirected edge list: entry `i` holds, in
/// increasing order and without repetition, every node joined to `i` by an
/// edge.  A self-loop is recorded once.
pub fn adjacency_from_edges(node_count: usize, edges: &Vec<(usize, usize)>) -> (r: Vec<Vec<usize>>)
    requires
        forall|k: int|
            0 <= k < edges@.len() ==> (#[trigger] edges@[k]).0 < node_count && edges@[k].1
                < node_count,
    ensures
        r@.len() == node_count,
        forall|i: int, a: int, b: int|
            0 <= i < node_count && 0 <= a < b < r@[i]@.len() ==> #[trigger] r@[i]@[a]
                < #[trigger] r@[i]@[b],
        forall|i: int, a: int|
            0 <= i < node_count && 0 <= a < r@[i]@.len() ==> #[trigger] r@[i]@[a] < node_count,
        forall|i: usize, v: usize|
            i < node_count && v < node_count ==> (r@[i as int]@.contains(v) <==> edge_connects(
                edges@,
                i,
                v,
            )),
{
    let mut out: Vec<Vec<usize>> = Vec::new();
    let mut i: usize = 0;
    while i < node_count
        invariant
            forall|k: int|
                0 <= k < edges@.len() ==> (#[trigger] edges@[k]).0 < node_count && edges@[k].1
                    < node_count,
            0 <= i <= node_count,
            out@.len() == i,
            forall|t: int, a: int, b: int|
                0 <= t < i && 0 <= a < b < out@[t]@.len() ==> #[trigger] out@[t]@[a]
                    < #[trigger] out@[t]@[b],
            forall|t: int, a: int|
                0 <= t < i && 0 <= a < out@[t]@.len() ==> #[trigger] out@[t]@[a] < node_count,
            forall|t: usize, v: usize|
                t < i && v < node_count ==> ((#[trigger] out@[t as int]@.contains(v))
                    <==> edge_connects(edges@, t, v)),
        decreases node_count - i,
    {
        let mut neighbors: Vec<usize> = Vec::new();
        let mut v: usize = 0;
        while v < node_count
            invariant
                forall|k: int|
                    0 <= k < edges@.len() ==> (#[trigger] edges@[k]).0 < node_count && edges@[k].1
                        < node_count,
                0 <= i < node_count,
                0 <= v <= node_count,
                forall|a: int, b: int|
                    0 <= a < b < neighbors@.len() ==> neighbors@[a] < neighbors@[b],
                forall|a: int| 0 <= a < neighbors@.len() ==> (#[trigger] neighbors@[a]) < v,
                forall|w: usize|
                    w < v ==> (neighbors@.contains(w) <==> edge_connects(edges@, i, w)),
            decreases node_count - v,
        {
            let mut found = false;
            let mut k: usize = 0;
            while k < edges.len()
                invariant
                    0 <= k <= edges@.len(),
                    found ==> edge_connects(edges@, i, v),
                    !found ==> forall|t: int|
                        0 <= t < k ==> !((#[trigger] edges@[t]) == (i, v) || edges@[t] == (v, i)),
                decreases edges@.len() - k,
            {
                let e = edges[k];
                if (e.0 == i && e.1 == v) || (e.0 == v && e.1 == i) {
                    found = true;
                }
                k = k + 1;
            }
            let ghost prior = neighbors@;
            if found {
                neighbors.push(v);
            }
            proof {
                if !found {
                    if edge_connects(edges@, i, v) {
                        let t = choose|t: int|
                            0 <= t < edges@.len() && ((edges@[t]) == (i, v) || edges@[t] == (
                            v,
                            i,
                            ));
                        assert(false);
                    }
                }
                assert forall|w: usize| w < v + 1 implies (neighbors@.contains(w)
                    <==> edge_connects(edges@, i, w)) by {
                    if w < v {
                        if prior.contains(w) {
                            let a = choose|a: int| 0 <= a < prior.len() && prior[a] == w;
                            assert(neighbors@[a] == w);
                        }
                        if neighbors@.contains(w) {
                            let a = choose|a: int|
                                0 <= a < neighbors@.len() && neighbors@[a] == w;
                            assert(prior[a] == w);
                        }
                    } else {
                        if found {
                            assert(neighbors@[neighbors@.len() - 1] == v);
                        } else {
                            if neighbors@.contains(w) {
                                let a = choose|a: int|
                                    0 <= a < neighbors@.len() && neighbors@[a] == w;
                            }
                        }
                    }
                }
            }
            v = v + 1;
        }
        out.push(neighbors);
        i = i + 1;
    }
    out
}

/// The total degree of the first `i` adjacency entries: the half-edge index
/// where node `i`'s outgoing half-edges begin.
pub open spec fn deg_prefix(adj: Seq<Seq<usize>>, i: int) -> int
    decreases i,
{
    if i <= 0 {
        0
    } else {
        deg_prefix(adj, i - 1) + adj[i - 1].len()
    }
}

pub proof fn lemma_deg_prefix_monotonic(adj: Seq<Seq<usize>>, i: int, j: int)
    requires
        0 <= i <= j,
    ensures
        deg_prefix(adj, i) <= deg_prefix(adj, j),
    decreases j - i,
{
    if i < j {
        lemma_deg_prefix_monotonic(adj, i, j - 1);
    }
}

/// The adjacency entries seen as sequences.
pub open spec fn adj_view(adj: Seq<Vec<usize>>) -> Seq<Seq<usize>> {
    adj.map(|i: int, row: Vec<usize>| row@)
}

/// The sorted half-edge label list of an adjacency list: node `i`'s outgoing
/// half-edges `(i, neighbor)` in neighbor order, nodes in increasing order.
pub fn new_labels(adjacency_list: &Vec<Vec<usize>>) -> (r: Vec<(usize, usize)>)
    ensures
        r@.len() == deg_prefix(adj_view(adjacency_list@), adjacency_list@.len() as int),
        forall|i: int, k: int|
            0 <= i < adjacency_list@.len() && 0 <= k < adjacency_list@[i]@.len()
                ==> r@[deg_prefix(adj_view(adjacency_list@), i) + k] == (
                i as usize,
                #[trigger] adjacency_list@[i]@[k],
            ),
{
    let ghost av = adj_view(adjacency_list@);
    let mut labels: Vec<(usize, usize)> = Vec::new();
    let mut i: usize = 0;
    while i < adjacency_list.len()
        invariant
            av == adj_view(adjacency_list@),
            0 <= i <= adjacency_list@.len(),
            labels@.len() == deg_prefix(av, i as int),
            forall|t: int, k: int|
                0 <= t < i && 0 <= k < adjacency_list@[t]@.len() ==> labels@[deg_prefix(av, t) + k]
                    == (t as usize, #[trigger] adjacency_list@[t]@[k]),
        decreases adjacency_list@.len() - i,
    {
        let row = &adjacency_list[i];
        let mut k: usize = 0;
        while k < row.len()
            invariant
                av == adj_view(adjacency_list@),
                0 <= i < adjacency_list@.len(),
                row == &adjacency_list@[i as int],
                0 <= k <= row@.len(),
                labels@.len() == deg_prefix(av, i as int) + k,
                forall|t: int, b: int|
                    0 <= t < i && 0 <= b < adjacency_list@[t]@.len() ==> labels@[deg_prefix(av, t)
                        + b] == (t as usize, #[trigger] adjacency_list@[t]@[b]),
                forall|b: int|
                    0 <= b < k ==> labels@[deg_prefix(av, i as int) + b] == (
                        i as usize,
                        adjacency_list@[i as int]@[b],
                    ),
        decreases row@.len() - k,
        {
            labels.push((i, row[k]));
            proof {
                lemma_deg_prefix_monotonic(av, 0, i as int);
                assert forall|t: int|
                    0 <= t < i implies #[trigger] deg_prefix(av, t) + adjacency_list@[t]@.len()
                    <= deg_prefix(av, i as int) && deg_prefix(av, t) >= 0 by {
                    assert(deg_prefix(av, t + 1) == deg_prefix(av, t) + av[t].len());
                    assert(av[t] == adjacency_list@[t]@);
                    lemma_deg_prefix_monotonic(av, t + 1, i as int);
                    lemma_deg_prefix_monotonic(av, 0, t);
                }
            }
            k = k + 1;
        }
        i = i + 1;
    }
    labels
}

/// The zero scatter operator over the half-edge index; the editing layer
/// fills in each node's local coin block.
pub fn new_scatter_matrix(half_edge_count: usize) -> (r: CMatrix)
    ensures
        r.wf(),
        r.rows == half_edge_count,
        r.cols == half_edge_count,
        forall|i: int, j: int|
            0 <= i < half_edge_count && 0 <= j < half_edge_count ==> #[trigger] r.view()[i][j]
                == qc_zero(),
{
    CMatrix::zeros(half_edge_count, half_edge_count)
}

/// The propagation (shift) operator: entry `(i, j)` is one exactly when
/// label `j` is the reverse of label `i`, so an amplitude travelling along a
/// half-edge arrives at the reversed half-edge.
pub fn new_propagation_matrix(
    propagation_method: PropagationMethod,
    labels: &Vec<(usize, usize)>,
) -> (r: CMatrix)
    ensures
        r.wf(),
        r.rows == labels@.len(),
        r.cols == labels@.len(),
        forall|i: int, j: int|
            0 <= i < labels@.len() && 0 <= j < labels@.len() ==> #[trigger] r.view()[i][j] == (
            if labels@[j].0 == labels@[i].1 && labels@[j].1 == labels@[i].0 {
                qc_one()
            } else {
                qc_zero()
            }),
{
    match propagation_method {
        PropagationMethod::ExampleMatrix => {},
    }
    let n = labels.len();
    let mut data: Vec<Vec<Cx>> = Vec::new();
    let mut i: usize = 0;
    while i < n
        invariant
            n == labels@.len(),
            0 <= i <= n,
            data@.len() == i,
            forall|t: int| 0 <= t < i ==> (#[trigger] data@[t])@.len() == n,
            forall|t: int| 0 <= t < i ==> cxs_wf((#[trigger] data@[t])@),
            forall|t: int, j: int|
                0 <= t < i && 0 <= j < n ==> (#[trigger] data@[t]@[j])@ == (if labels@[j].0
                    == labels@[t].1 && labels@[j].1 == labels@[t].0 {
                    qc_one()
                } else {
                    qc_zero()
                }),
        decreases n - i,
    {
        let mut row: Vec<Cx> = Vec::new();
        let mut j: usize = 0;
        while j < n
            invariant
                n == labels@.len(),
                0 <= i < n,
                0 <= j <= n,
                row@.len() == j,
                cxs_wf(row@),
                forall|b: int|
                    0 <= b < j ==> (#[trigger] row@[b])@ == (if labels@[b].0 == labels@[i as int].1
                        && labels@[b].1 == labels@[i as int].0 {
                        qc_one()
                    } else {
                        qc_zero()
                    }),
            decreases n - j,
        {
            let li = labels[i];
            let lj = labels[j];
            if lj.0 == li.1 && lj.1 == li.0 {
                row.push(Cx::one());
            } else {
                row.push(Cx::zero());
            }
            j = j + 1;
        }
        data.push(row);
        i = i + 1;
    }
    CMatrix { rows: n, cols: n, data }
}

/// The combined quantum transition operator, with the diagnostic report of
/// its last unitary correction.
#[derive(Debug, Clone)]
pub struct ComplexTransitionMatrix {
    pub matrix: CMatrix,
    pub last_normalization_correction: TransitionMatrixCorrectionType,
}

impl ComplexTransitionMatrix {
    pub open spec fn wf(self) -> bool {
        &&& self.matrix.wf()
        &&& self.matrix.rows == self.matrix.cols
        &&& self.last_normalization_correction.wf()
    }

    /// Wrap a combined operator.  The operator is taken as handed in; the
    /// singular-value correction that makes it unitary is floating-point
    /// work done by the surrounding layer, which records its report here.
    pub fn new(matrix: CMatrix) -> (r: ComplexTransitionMatrix)
        requires
            matrix.wf(),
            matrix.rows == matrix.cols,
        ensures
            r.wf(),
            r.matrix == matrix,
            r.last_normalization_correction is NoCorrection,
    {
        ComplexTransitionMatrix {
            matrix,
            last_normalization_correction: TransitionMatrixCorrectionType::NoCorrection,
        }
    }

    pub fn get_complex_matrix(&self) -> (r: &CMatrix)
        ensures
            r == &self.matrix,
    {
        &self.matrix
    }

    /// The initial state: one unit of amplitude on every half-edge leaving
    /// the start node (node zero when none is given), zero elsewhere.  The
    /// state carries an implicit overall normalization: displayed
    /// probabilities divide by the squared norm, so the equal superposition
    /// needs no irrational `1/sqrt(degree)` factor.
    pub fn get_initial_state(&self, start_node_idx: Option<usize>, labels: &Vec<(usize, usize)>)
        -> (r: Vec<Cx>)
        requires
            self.wf(),
            labels@.len() == self.matrix.cols,
        ensures
            r@.len() == self.matrix.cols,
            cxs_wf(r@),
            forall|i: int|
                0 <= i < r@.len() ==> #[trigger] cxs_view(r@)[i] == (if labels@[i].0 == (
                match start_node_idx {
                    Some(s) => s,
                    None => 0,
                }) {
                    qc_one()
                } else {
                    qc_zero()
                }),
    {
        let start = match start_node_idx {
            Some(s) => s,
            None => 0,
        };
        let mut r: Vec<Cx> = Vec::new();
        let mut i: usize = 0;
        while i < labels.len()
            invariant
                labels@.len() == self.matrix.cols,
                0 <= i <= labels@.len(),
                start == (match start_node_idx {
                    Some(s) => s,
                    None => 0,
                }),
                r@.len() == i,
                cxs_wf(r@),
                forall|k: int|
                    0 <= k < i ==> (#[trigger] r@[k])@ == (if labels@[k].0 == start {
                        qc_one()
                    } else {
                        qc_zero()
                    }),
            decreases labels@.len() - i,
        {
            if labels[i].0 == start {
                r.push(Cx::one());
            } else {
                r.push(Cx::zero());
            }
            i = i + 1;
        }
        r
    }

    /// The operator applied to a state: an exact complex matrix-vector
    /// product.
    pub fn apply(&self, state: &Vec<Cx>) -> (r: Result<Vec<Cx>, WalkError>)
        requires
            self.wf(),
            cxs_wf(state@),
            state@.len() == self.matrix.cols,
        ensures
            r matches Ok(v) ==> {
                &&& v@.len() == self.matrix.rows
                &&& cxs_wf(v@)
                &&& forall|i: int|
                    0 <= i < v@.len() ==> crate::complex::qc_eq(
                        #[trigger] cxs_view(v@)[i],
                        crate::complex_matrix::qc_sum(
                            crate::complex_matrix::qc_prod_seq(
                                self.matrix.view()[i],
                                cxs_view(state@),
                            ),
                        ),
                    )
            },
            r is Ok <==> crate::complex_matrix::capply_fits(self.matrix.view(), cxs_view(state@)),
            r is Err ==> r == Err::<Vec<Cx>, WalkError>(WalkError::NumericalInvalidity),
    {
        match self.matrix.apply_cvec(state) {
            Some(v) => Ok(v),
            None => Err(WalkError::NumericalInvalidity),
        }
    }
}

/// The deviation of singular value `k` from one.
pub open spec fn sigma_deviation(sigmas: Seq<Q>, k: int) -> Q {
    q_sub(q_one(), sigmas[k])
}

/// The deviations of a singular-value list from one.
pub open spec fn deviations_of(sigmas: Seq<Q>) -> Seq<Q> {
    Seq::new(sigmas.len(), |k: int| sigma_deviation(sigmas, k))
}

/// Position `a` attains the largest deviation.
pub open spec fn attains_max(devs: Seq<Q>, a: int) -> bool {
    0 <= a < devs.len() && forall|k: int| 0 <= k < devs.len() ==> q_le(#[trigger] devs[k], devs[a])
}

/// Position `b` attains the smallest deviation.
pub open spec fn attains_min(devs: Seq<Q>, b: int) -> bool {
    0 <= b < devs.len() && forall|k: int| 0 <= k < devs.len() ==> q_le(devs[b], #[trigger] devs[k])
}

/// Classify a list of singular values against a tolerance, exactly as the
/// unitary correction records it: if the deviations from one spread wider
/// than the tolerance the correction is per-value, else if some deviation's
/// magnitude exceeds the tolerance a single scalar suffices, else the
/// operator already counts as unitary.
pub fn unitary_correction(singular_values: &Vec<Rat>, max_error: &Rat) -> (r: Result<
    TransitionMatrixCorrectionType,
    WalkError,
>)
    requires
        rats_wf(singular_values@),
        max_error.wf(),
    ensures
        r matches Ok(rep) ==> {
            let devs = deviations_of(rats_view(singular_values@));
            &&& rep.wf()
            &&& (rep is NonScalar <==> exists|a: int, b: int|
                0 <= a < devs.len() && 0 <= b < devs.len() && !q_le(
                    q_sub(#[trigger] devs[a], #[trigger] devs[b]),
                    max_error@,
                ))
            &&& (rep matches TransitionMatrixCorrectionType::NonScalar(v) ==> v@.len()
                == devs.len() && forall|k: int|
                0 <= k < devs.len() ==> q_eq(#[trigger] rats_view(v@)[k], devs[k]))
            &&& (rep matches TransitionMatrixCorrectionType::Scalar(x) ==> {
                &&& forall|k: int|
                    0 <= k < devs.len() ==> q_le(#[trigger] devs[k], x@) && q_le(
                        q_neg(devs[k]),
                        x@,
                    )
                &&& exists|k: int|
                    0 <= k < devs.len() && (q_eq(x@, #[trigger] devs[k]) || q_eq(
                        x@,
                        q_neg(devs[k]),
                    ))
                &&& !q_le(x@, max_error@)
            })
            &&& (rep is NoCorrection <==> (forall|k: int|
                0 <= k < devs.len() ==> q_le(#[trigger] devs[k], max_error@) && q_le(
                    q_neg(devs[k]),
                    max_error@,
                )) && (forall|a: int, b: int|
                0 <= a < devs.len() && 0 <= b < devs.len() ==> q_le(
                    q_sub(#[trigger] devs[a], #[trigger] devs[b]),
                    max_error@,
                )))
        },
        r is Ok <==> ({
            let devs = deviations_of(rats_view(singular_values@));
            &&& (forall|k: int| 0 <= k < devs.len() ==> q_fits(#[trigger] devs[k]))
            &&& (forall|a: int, b: int|
                attains_max(devs, a) && attains_min(devs, b) ==> q_fits(
                    q_sub(#[trigger] devs[a], #[trigger] devs[b]),
                ))
        }),
        r is Err ==> r == Err::<TransitionMatrixCorrectionType, WalkError>(
            WalkError::NumericalInvalidity,
        ),
{
    let ghost devs = deviations_of(rats_view(singular_values@));
    let n = singular_values.len();
    if n == 0 {
        return Ok(TransitionMatrixCorrectionType::NoCorrection);
    }
    proof {
        assert forall|k: int| 0 <= k < devs.len() implies q_wf(#[trigger] devs[k]) by {
            crate::rational::lemma_q_sub_wf(q_one(), rats_view(singular_values@)[k]);
        }
    }
    // the exact deviations 1 - sigma_k
    let one = Rat::one();
    let mut deviations: Vec<Rat> = Vec::new();
    let mut k: usize = 0;
    while k < n
        invariant
            rats_wf(singular_values@),
            n == singular_values@.len(),
            devs == deviations_of(rats_view(singular_values@)),
            forall|t: int| 0 <= t < devs.len() ==> q_wf(#[trigger] devs[t]),
            one.wf(),
            one@ == q_one(),
            0 <= k <= n,
            deviations@.len() == k,
            rats_wf(deviations@),
            forall|t: int| 0 <= t < k ==> q_eq((#[trigger] deviations@[t])@, devs[t]),
            forall|t: int| 0 <= t < k ==> q_fits(#[trigger] devs[t]),
        decreases n - k,
    {
        let d = match one.checked_sub(&singular_values[k]) {
            Some(d) => d,
            None => {
                proof {
                    assert(!q_fits(devs[k as int]));
                }
                return Err(WalkError::NumericalInvalidity);
            },
        };
        deviations.push(d);
        k = k + 1;
    }
    // the extreme deviations
    let mut dmax = deviations[0];
    let mut dmin = deviations[0];
    proof {
        crate::rational::lemma_q_le_congruence(devs[0], dmax@, devs[0], devs[0]);
        crate::rational::lemma_q_le_congruence(dmax@, devs[0], devs[0], devs[0]);
        crate::rational::lemma_q_eq_symmetric(dmax@, devs[0]);
        crate::rational::lemma_q_le_congruence(devs[0], devs[0], devs[0], dmax@);
    }
    let mut k: usize = 1;
    while k < n
        invariant
            rats_wf(singular_values@),
            n == singular_values@.len(),
            n >= 1,
            devs == deviations_of(rats_view(singular_values@)),
            devs.len() == n,
            forall|t: int| 0 <= t < devs.len() ==> q_wf(#[trigger] devs[t]),
            forall|t: int| 0 <= t < devs.len() ==> q_fits(#[trigger] devs[t]),
            deviations@.len() == n,
            rats_wf(deviations@),
            forall|t: int| 0 <= t < n ==> q_eq((#[trigger] deviations@[t])@, devs[t]),
            1 <= k <= n,
            dmax.wf(),
            dmin.wf(),
            forall|t: int|
                0 <= t < k ==> q_le(#[trigger] devs[t], dmax@) && q_le(dmin@, devs[t]),
            exists|t: int| 0 <= t < n && q_eq(dmax@, #[trigger] devs[t]),
            exists|t: int| 0 <= t < n && q_eq(dmin@, #[trigger] devs[t]),
        decreases n - k,
    {
        let d = deviations[k];
        if !d.le(&dmax) {
            proof {
                crate::rational::lemma_q_le_total(d@, dmax@);
                assert forall|t: int| 0 <= t < k + 1 implies q_le(#[trigger] devs[t], d@) by {
                    if t < k {
                        crate::rational::lemma_q_le_trans(devs[t], dmax@, d@);
                    } else {
                        crate::rational::lemma_q_eq_symmetric(d@, devs[t]);
                        crate::rational::lemma_q_le_congruence(devs[t], devs[t], devs[t], d@);
                        crate::rational::lemma_q_le_congruence(
                            devs[t],
                            devs[t],
                            devs[t],
                            devs[t],
                        );
                    }
                }
                crate::rational::lemma_q_eq_symmetric(devs[k as int], d@);
                assert(q_eq(d@, devs[k as int]));
            }
            dmax = d;
        } else {
            proof {
                crate::rational::lemma_q_le_congruence(devs[k as int], d@, dmax@, dmax@);
            }
        }
        if dmin.le(&d) {
            proof {
                crate::rational::lemma_q_le_congruence(dmin@, dmin@, d@, devs[k as int]);
            }
        } else {
            proof {
                crate::rational::lemma_q_le_total(dmin@, d@);
                // d is a new minimum
                assert forall|t: int| 0 <= t < k + 1 implies q_le(d@, #[trigger] devs[t]) by {
                    if t < k {
                        crate::rational::lemma_q_le_trans(d@, dmin@, devs[t]);
                    } else {
                        crate::rational::lemma_q_le_congruence(d@, d@, d@, devs[t]);
                    }
                }
            }
            dmin = d;
        }
        proof {
            assert(q_le(devs[k as int], dmax@));
            assert(q_le(dmin@, devs[k as int]));
        }
        k = k + 1;
    }
    // the spread of the deviations decides between a per-value and a
    // uniform correction
    let ghost ta = choose|t: int| 0 <= t < n && q_eq(dmax@, #[trigger] devs[t]);
    let ghost tb = choose|t: int| 0 <= t < n && q_eq(dmin@, #[trigger] devs[t]);
    proof {
        // the recorded extremes are attained
        assert forall|t: int| 0 <= t < n implies q_le(#[trigger] devs[t], devs[ta]) by {
            crate::rational::lemma_q_le_congruence(devs[t], devs[t], dmax@, devs[ta]);
        }
        assert(attains_max(devs, ta));
        assert forall|t: int| 0 <= t < n implies q_le(devs[tb], #[trigger] devs[t]) by {
            crate::rational::lemma_q_le_congruence(dmin@, devs[tb], devs[t], devs[t]);
        }
        assert(attains_min(devs, tb));
        crate::rational::lemma_q_sub_wf(dmax@, dmin@);
        crate::rational::lemma_q_sub_wf(devs[ta], devs[tb]);
        crate::rational::lemma_q_eq_symmetric(dmax@, devs[ta]);
        crate::rational::lemma_q_eq_symmetric(dmin@, devs[tb]);
        crate::rational::lemma_q_sub_congruence(devs[ta], dmax@, devs[tb], dmin@);
        crate::rational::lemma_q_fits_congruent(q_sub(devs[ta], devs[tb]), q_sub(dmax@, dmin@));
    }
    let spread = match dmax.checked_sub(&dmin) {
        Some(sp) => sp,
        None => {
            proof {
                assert(!q_fits(q_sub(devs[ta], devs[tb])));
            }
            return Err(WalkError::NumericalInvalidity);
        },
    };
    proof {
        crate::rational::lemma_q_sub_congruence(dmax@, devs[ta], dmin@, devs[tb]);
        crate::rational::lemma_q_le_congruence(
            spread@,
            q_sub(dmax@, dmin@),
            max_error@,
            max_error@,
        );
        crate::rational::lemma_q_le_congruence(
            q_sub(dmax@, dmin@),
            q_sub(devs[ta], devs[tb]),
            max_error@,
            max_error@,
        );
        // every pair attaining the extremes forms the same, representable
        // spread value
        assert forall|a: int, b: int|
            attains_max(devs, a) && attains_min(devs, b) implies q_fits(
            q_sub(#[trigger] devs[a], #[trigger] devs[b]),
        ) by {
            assert(q_le(devs[ta], devs[a]));
            crate::rational::lemma_q_le_congruence(dmax@, devs[ta], devs[a], devs[a]);
            crate::rational::lemma_q_le_antisym(devs[a], dmax@);
            assert(q_le(devs[b], devs[tb]));
            crate::rational::lemma_q_le_congruence(devs[b], devs[b], devs[tb], dmin@);
            crate::rational::lemma_q_le_antisym(devs[b], dmin@);
            crate::rational::lemma_q_sub_wf(devs[a], devs[b]);
            crate::rational::lemma_q_sub_congruence(devs[a], dmax@, devs[b], dmin@);
            crate::rational::lemma_q_fits_congruent(q_sub(devs[a], devs[b]), q_sub(dmax@, dmin@));
        }
    }
    if !spread.le(max_error) {
        proof {
            assert(!q_le(q_sub(devs[ta], devs[tb]), max_error@));
        }
        return Ok(TransitionMatrixCorrectionType::NonScalar(deviations));
    }
    proof {
        // every pairwise spread fits inside the extreme spread
        assert forall|a: int, b: int|
            0 <= a < devs.len() && 0 <= b < devs.len() implies q_le(
            q_sub(#[trigger] devs[a], #[trigger] devs[b]),
            max_error@,
        ) by {
            crate::rational::lemma_q_sub_monotone(devs[a], dmax@, dmin@, devs[b]);
            crate::rational::lemma_q_sub_wf(devs[a], devs[b]);
            crate::rational::lemma_q_le_trans(
                q_sub(devs[a], devs[b]),
                q_sub(dmax@, dmin@),
                max_error@,
            );
        }
    }
    // the largest deviation magnitude decides between a scalar correction
    // and none
    let abs_max = dmax.abs();
    let abs_min = dmin.abs();
    proof {
        lemma_abs_dominates(dmax@, abs_max@);
        lemma_abs_dominates(dmin@, abs_min@);
    }
    let largest = if abs_max.le(&abs_min) {
        abs_min
    } else {
        proof {
            crate::rational::lemma_q_le_total(abs_max@, abs_min@);
        }
        abs_max
    };
    proof {
        assert(q_le(abs_max@, largest@) && q_le(abs_min@, largest@)) by {
            if q_le(abs_max@, abs_min@) {
                crate::rational::lemma_q_le_congruence(abs_min@, abs_min@, abs_min@, abs_min@);
            }
        }
        assert forall|t: int|
            0 <= t < devs.len() implies q_le(#[trigger] devs[t], largest@) && q_le(
            q_neg(devs[t]),
            largest@,
        ) by {
            crate::rational::lemma_q_le_trans(devs[t], dmax@, abs_max@);
            crate::rational::lemma_q_le_trans(devs[t], abs_max@, largest@);
            crate::rational::lemma_q_le_neg_antitone(dmin@, devs[t]);
            crate::rational::lemma_q_le_trans(q_neg(devs[t]), q_neg(dmin@), abs_min@);
            crate::rational::lemma_q_le_trans(q_neg(devs[t]), abs_min@, largest@);
        }
        // largest is one of the deviations or a negated deviation
        assert(q_eq(largest@, devs[ta]) || q_eq(largest@, q_neg(devs[ta])) || q_eq(
            largest@,
            devs[tb],
        ) || q_eq(largest@, q_neg(devs[tb]))) by {
            crate::complex::lemma_q_neg_congruence(dmax@, devs[ta]);
            crate::complex::lemma_q_neg_congruence(dmin@, devs[tb]);
        }
    }
    if !largest.le(max_error) {
        proof {
            // some deviation's magnitude exceeds the tolerance, so this is
            // not the no-correction case
            lemma_scalar_excludes_none(devs, largest@, max_error@, ta, tb);
        }
        Ok(TransitionMatrixCorrectionType::Scalar(largest))
    } else {
        proof {
            assert forall|t: int|
                0 <= t < devs.len() implies q_le(#[trigger] devs[t], max_error@) && q_le(
                q_neg(devs[t]),
                max_error@,
            ) by {
                crate::rational::lemma_q_le_trans(devs[t], largest@, max_error@);
                crate::rational::lemma_q_sub_wf(q_one(), rats_view(singular_values@)[t]);
                crate::rational::lemma_q_le_trans(q_neg(devs[t]), largest@, max_error@);
            }
        }
        Ok(TransitionMatrixCorrectionType::NoCorrection)
    }
}

/// The magnitude returned by `abs` dominates the value, its negation, and
/// stays well-formed.
proof fn lemma_abs_dominates(a: Q, absa: Q)
    requires
        q_wf(a),
        q_wf(absa),
        (q_le(q_zero(), a) && absa == a) || (!q_le(q_zero(), a) && absa == q_neg(a)),
    ensures
        q_le(a, absa),
        q_le(q_neg(a), absa),
{
    if q_le(q_zero(), a) {
        assert(q_le(a, a)) by (nonlinear_arith)
            requires
                q_wf(a),
        ;
        assert(q_le(q_neg(a), a)) by (nonlinear_arith)
            requires
                q_wf(a),
                q_le(q_zero(), a),
        ;
    } else {
        crate::rational::lemma_q_le_total(q_zero(), a);
        assert(q_le(a, q_neg(a))) by (nonlinear_arith)
            requires
                q_wf(a),
                q_le(a, q_zero()),
        ;
        assert(q_le(q_neg(a), q_neg(a))) by (nonlinear_arith)
            requires
                q_wf(a),
        ;
    }
}

/// When the largest deviation magnitude exceeds the tolerance, some
/// deviation or negated deviation does too.
proof fn lemma_scalar_excludes_none(devs: Seq<Q>, largest: Q, tol: Q, ta: int, tb: int)
    requires
        forall|t: int| 0 <= t < devs.len() ==> q_wf(#[trigger] devs[t]),
        q_wf(largest),
        q_wf(tol),
        0 <= ta < devs.len(),
        0 <= tb < devs.len(),
        q_eq(largest, devs[ta]) || q_eq(largest, q_neg(devs[ta])) || q_eq(largest, devs[tb])
            || q_eq(largest, q_neg(devs[tb])),
        !q_le(largest, tol),
    ensures
        !((forall|t: int|
            0 <= t < devs.len() ==> q_le(#[trigger] devs[t], tol) && q_le(q_neg(devs[t]), tol))),
{
    if forall|t: int|
        0 <= t < devs.len() ==> q_le(#[trigger] devs[t], tol) && q_le(q_neg(devs[t]), tol) {
        if q_eq(largest, devs[ta]) {
            crate::rational::lemma_q_le_congruence(largest, devs[ta], tol, tol);
        } else if q_eq(largest, q_neg(devs[ta])) {
            crate::rational::lemma_q_le_congruence(largest, q_neg(devs[ta]), tol, tol);
        } else if q_eq(largest, devs[tb]) {
            crate::rational::lemma_q_le_congruence(largest, devs[tb], tol, tol);
        } else {
            crate::rational::lemma_q_le_congruence(largest, q_neg(devs[tb]), tol, tol);
        }
        assert(false);
    }
}

} // verus!
