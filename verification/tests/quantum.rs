use walk_engine::complex::Cx;
use walk_engine::complex_matrix::CMatrix;
use walk_engine::complex_state_manager::ComplexStateManager;
use walk_engine::complex_transition_matrix::{
    adjacency_from_edges, new_labels, new_propagation_matrix, new_scatter_matrix,
    unitary_correction, ComplexTransitionMatrix, PropagationMethod,
};
use walk_engine::rational::Rat;
use walk_engine::transition_matrix_correction_type::TransitionMatrixCorrectionType;

fn cx_of(n: i64, d: i64) -> Cx {
    Cx::new(Rat::new(n, d), Rat::zero())
}

fn sum_rats_test(v: &[Rat]) -> Rat {
    let mut sum = Rat::zero();
    for x in v {
        sum = sum.checked_add(x).unwrap();
    }
    sum
}

#[test]
fn test_adjacency_from_edges() {
    let edges = vec![(0usize, 1usize), (1, 2)];
    let adj = adjacency_from_edges(3, &edges);
    assert_eq!(adj, vec![vec![1], vec![0, 2], vec![1]]);
}

#[test]
fn test_new_labels_order() {
    let adj = vec![vec![1], vec![0, 2], vec![1]];
    let labels = new_labels(&adj);
    assert_eq!(labels, vec![(0, 1), (1, 0), (1, 2), (2, 1)]);
}

#[test]
fn test_propagation_matrix_reverses_half_edges() {
    let labels = vec![(0usize, 1usize), (1, 0), (1, 2), (2, 1)];
    let p = new_propagation_matrix(PropagationMethod::ExampleMatrix, &labels);
    assert_eq!(p.rows, 4);
    assert_eq!(p.cols, 4);
    for i in 0..4 {
        for j in 0..4 {
            let expected = labels[j] == (labels[i].1, labels[i].0);
            let e = p.get(i, j);
            if expected {
                assert!(e.re.eq_rat(&Rat::one()) && e.im.is_zero());
            } else {
                assert!(e.is_zero());
            }
        }
    }
}

#[test]
fn test_combined_operator_of_two_node_graph() {
    // one undirected edge, half-edges (0,1) and (1,0); the exact coin swaps
    // nothing (each node has degree one, its block is 1x1)
    let edges = vec![(0usize, 1usize)];
    let adj = adjacency_from_edges(2, &edges);
    let labels = new_labels(&adj);
    assert_eq!(labels, vec![(0, 1), (1, 0)]);
    let mut scatter = new_scatter_matrix(2);
    scatter.set(0, 0, cx_of(1, 1));
    scatter.set(1, 1, cx_of(1, 1));
    let propagation = new_propagation_matrix(PropagationMethod::ExampleMatrix, &labels);
    let combined = scatter.matmul(&propagation).unwrap();
    // the combined operator hands each half-edge's amplitude to its reverse
    assert!(combined.get(0, 0).is_zero());
    assert!(combined.get(0, 1).re.eq_rat(&Rat::one()));
    assert!(combined.get(1, 0).re.eq_rat(&Rat::one()));
    assert!(combined.get(1, 1).is_zero());
}

fn two_node_manager(targets: Vec<bool>) -> ComplexStateManager {
    let edges = vec![(0usize, 1usize)];
    let adj = adjacency_from_edges(2, &edges);
    let labels = new_labels(&adj);
    let mut scatter = new_scatter_matrix(2);
    scatter.set(0, 0, cx_of(1, 1));
    scatter.set(1, 1, cx_of(1, 1));
    let propagation = new_propagation_matrix(PropagationMethod::ExampleMatrix, &labels);
    let combined = scatter.matmul(&propagation).unwrap();
    ComplexStateManager::new(&combined, &labels, 2, 0, targets)
}

#[test]
fn test_quantum_conservation_without_targets() {
    let mut manager = two_node_manager(vec![false, false]);
    let adj = vec![vec![1], vec![0]];
    for _ in 0..5 {
        let data = manager.get_state_data(&adj).unwrap();
        assert_eq!(data.len(), 2);
        assert!(sum_rats_test(&data).eq_rat(&Rat::one()));
        manager.step_forward().unwrap();
        // the operator is exactly unitary here (a permutation), so even the
        // raw squared norm of the amplitude vector is conserved exactly
        let mut raw = Rat::zero();
        for amp in &manager.state {
            raw = raw.checked_add(&amp.norm_sqr().unwrap()).unwrap();
        }
        assert!(raw.eq_rat(&Rat::one()));
    }
    assert_eq!(manager.get_step(), 5);
}

#[test]
fn test_quantum_conservation_with_targets() {
    // a 3-node path with an absorbing node: displayed mass plus accumulated
    // mass stays exactly one after every step
    let edges = vec![(0usize, 1usize), (1, 2)];
    let adj = adjacency_from_edges(3, &edges);
    let labels = new_labels(&adj);
    assert_eq!(labels.len(), 4);
    let mut scatter = new_scatter_matrix(4);
    // node 0: single connection
    scatter.set(0, 0, cx_of(1, 1));
    // node 1: an exact rotation-like coin on its two connections
    scatter.set(1, 1, cx_of(3, 5));
    scatter.set(1, 2, cx_of(4, 5));
    scatter.set(2, 1, cx_of(4, 5));
    scatter.set(2, 2, cx_of(-3, 5));
    // node 2: single connection
    scatter.set(3, 3, cx_of(1, 1));
    let propagation = new_propagation_matrix(PropagationMethod::ExampleMatrix, &labels);
    let combined = scatter.matmul(&propagation).unwrap();
    let mut manager = ComplexStateManager::new(&combined, &labels, 3, 0, vec![false, false, true]);
    let vec_adj = adj.clone();
    for _ in 0..6 {
        manager.step_forward().unwrap();
        let data = manager.get_state_data(&vec_adj).unwrap();
        assert_eq!(data.len(), 3);
        assert!(
            sum_rats_test(&data).eq_rat(&Rat::one()),
            "displayed mass and absorbed mass must total one"
        );
    }
    // mass has actually been absorbed at the target node
    let accumulation = manager.get_target_accumulation();
    assert_eq!(accumulation.len(), 3);
    assert!(accumulation[0].is_zero());
    assert!(accumulation[1].is_zero());
    assert!(!accumulation[2].is_zero());
}

#[test]
fn test_get_state_data_idempotent() {
    let mut manager = two_node_manager(vec![false, false]);
    let adj = vec![vec![1], vec![0]];
    manager.step_forward().unwrap();
    let first = manager.get_state_data(&adj).unwrap();
    let second = manager.get_state_data(&adj).unwrap();
    assert_eq!(first.len(), second.len());
    for (a, b) in first.iter().zip(second.iter()) {
        assert!(a.eq_rat(b));
    }
}

#[test]
fn test_quantum_reset_returns_to_construction() {
    let mut manager = two_node_manager(vec![false, true]);
    let adj = vec![vec![1], vec![0]];
    let fresh = manager.get_state_data(&adj).unwrap();
    for _ in 0..3 {
        manager.step_forward().unwrap();
    }
    manager.reset_state();
    assert_eq!(manager.get_step(), 0);
    let reset = manager.get_state_data(&adj).unwrap();
    for (a, b) in fresh.iter().zip(reset.iter()) {
        assert!(a.eq_rat(b));
    }
    let accumulation = manager.get_target_accumulation();
    for a in &accumulation {
        assert!(a.is_zero());
    }
}

#[test]
fn test_make_transition_matrix_compatible() {
    let mut manager = two_node_manager(vec![false, false]);
    // same dimension: the state survives
    let same = CMatrix::zeros(2, 2);
    let labels2 = vec![(0usize, 1usize), (1, 0)];
    let old_step = manager.get_step();
    manager.make_transition_matrix_compatible(&same, &labels2);
    assert_eq!(manager.get_step(), old_step);
    // a different dimension forces a reset
    let bigger = CMatrix::zeros(1, 1);
    let labels1 = vec![(0usize, 0usize)];
    manager.make_transition_matrix_compatible(&bigger, &labels1);
    assert_eq!(manager.get_step(), 0);
}

#[test]
fn test_unitary_correction_exact_cases() {
    let tol = Rat::new(1, 10_000_000_000);
    // all singular values exactly one: nothing to correct
    let ones = vec![Rat::one(), Rat::one()];
    let report = unitary_correction(&ones, &tol).unwrap();
    assert!(matches!(report, TransitionMatrixCorrectionType::NoCorrection));

    // both values 7/5: a single scalar correction of magnitude 2/5
    let uniform = vec![Rat::new(7, 5), Rat::new(7, 5)];
    let report = unitary_correction(&uniform, &tol).unwrap();
    match report {
        TransitionMatrixCorrectionType::Scalar(x) => {
            assert!(x.eq_rat(&Rat::new(2, 5)));
        }
        _ => panic!("expected a scalar correction, got {}", report.to_str()),
    }

    // values 3/2 and 7/5: the deviations differ, so per-value corrections
    let spread = vec![Rat::new(3, 2), Rat::new(7, 5)];
    let report = unitary_correction(&spread, &tol).unwrap();
    match report {
        TransitionMatrixCorrectionType::NonScalar(v) => {
            assert_eq!(v.len(), 2);
            assert!(v[0].eq_rat(&Rat::new(-1, 2)));
            assert!(v[1].eq_rat(&Rat::new(-2, 5)));
        }
        _ => panic!("expected a per-value correction, got {}", report.to_str()),
    }
}

#[test]
fn test_complex_transition_matrix_initial_state() {
    let edges = vec![(0usize, 1usize), (0, 2)];
    let adj = adjacency_from_edges(3, &edges);
    let labels = new_labels(&adj);
    assert_eq!(labels, vec![(0, 1), (0, 2), (1, 0), (2, 0)]);
    let t = ComplexTransitionMatrix::new(CMatrix::zeros(4, 4));
    let state = t.get_initial_state(Some(0), &labels);
    // one unit of amplitude on each half-edge leaving the start node
    assert!(state[0].re.eq_rat(&Rat::one()));
    assert!(state[1].re.eq_rat(&Rat::one()));
    assert!(state[2].is_zero());
    assert!(state[3].is_zero());
}

#[test]
fn test_empty_graph() {
    let edges: Vec<(usize, usize)> = vec![];
    let adj = adjacency_from_edges(0, &edges);
    assert!(adj.is_empty());
    let labels = new_labels(&adj);
    assert!(labels.is_empty());
    let combined = CMatrix::zeros(0, 0);
    let mut manager = ComplexStateManager::new(&combined, &labels, 0, 0, vec![]);
    manager.step_forward().unwrap();
    let data = manager.get_state_data(&adj).unwrap();
    assert!(data.is_empty());
}

#[test]
fn test_self_loop_recorded_once() {
    let edges = vec![(0usize, 0usize), (0, 1)];
    let adj = adjacency_from_edges(2, &edges);
    assert_eq!(adj, vec![vec![0, 1], vec![0]]);
    let labels = new_labels(&adj);
    assert_eq!(labels, vec![(0, 0), (0, 1), (1, 0)]);
    // a self-loop half-edge is its own reverse
    let p = new_propagation_matrix(PropagationMethod::ExampleMatrix, &labels);
    assert!(p.get(0, 0).re.eq_rat(&Rat::one()));
    assert!(p.get(1, 1).is_zero());
}
