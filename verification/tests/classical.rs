use walk_engine::classical_state_manager::ClassicalStateManager;
use walk_engine::classical_transition_matrix::ClassicalTransitionMatrix;
use walk_engine::matrix::RMatrix;
use walk_engine::rational::Rat;
use walk_engine::transition_matrix_correction_type::TransitionMatrixCorrectionType;
use walk_engine::WalkError;

/// A matrix from a list of `(row, col, num, den)` entries; unlisted entries
/// are zero.
fn rmatrix_from(rows: usize, cols: usize, entries: &[(usize, usize, i64, i64)]) -> RMatrix {
    let mut m = RMatrix::zeros(rows, cols);
    for &(i, j, n, d) in entries {
        m.set(i, j, Rat::new(n, d));
    }
    m
}

fn assert_entry(m: &RMatrix, i: usize, j: usize, num: i64, den: i64) {
    let e = m.get(i, j);
    assert!(
        e.eq_rat(&Rat::new(num, den)),
        "entry ({}, {}) is {}/{}, expected {}/{}",
        i,
        j,
        e.num,
        e.den,
        num,
        den
    );
}

fn assert_matrix_equals(m: &RMatrix, rows: usize, cols: usize, entries: &[(usize, usize, i64, i64)]) {
    assert_eq!(m.rows, rows);
    assert_eq!(m.cols, cols);
    let mut expected = vec![vec![(0i64, 1i64); cols]; rows];
    for &(i, j, n, d) in entries {
        expected[i][j] = (n, d);
    }
    for i in 0..rows {
        for j in 0..cols {
            assert_entry(m, i, j, expected[i][j].0, expected[i][j].1);
        }
    }
}

#[test]
fn test_from_stochastic_matrix_3nodes() {
    let input_matrix = rmatrix_from(
        3,
        3,
        &[
            (0, 0, 3, 10),
            (0, 2, 7, 10),
            (1, 0, 5, 10),
            (1, 2, 3, 10),
            (2, 0, 2, 10),
            (2, 1, 1, 1),
        ],
    );
    let output_matrix = ClassicalTransitionMatrix::try_from(&input_matrix).unwrap();
    let (compressed, nonzero_rows) = output_matrix.compressed();
    let target_entries = [
        (0, 0, 3, 10),
        (0, 3, 3, 10),
        (0, 6, 3, 10),
        (1, 0, 5, 10),
        (1, 3, 5, 10),
        (1, 6, 5, 10),
        (2, 0, 2, 10),
        (2, 3, 2, 10),
        (2, 6, 2, 10),
        (3, 1, 1, 1),
        (3, 4, 1, 1),
        (3, 7, 1, 1),
        (4, 2, 7, 10),
        (4, 5, 7, 10),
        (4, 8, 7, 10),
        (5, 2, 3, 10),
        (5, 5, 3, 10),
        (5, 8, 3, 10),
    ];
    assert_matrix_equals(&compressed, 6, 9, &target_entries);

    // the column of incidence pair (i, j) is i*3 + j, for every pair
    let target_col_index_map = [
        ((0, 0), 0),
        ((0, 1), 1),
        ((0, 2), 2),
        ((1, 0), 3),
        ((1, 1), 4),
        ((1, 2), 5),
        ((2, 0), 6),
        ((2, 1), 7),
        ((2, 2), 8),
    ];
    for &((i, j), idx) in &target_col_index_map {
        assert_eq!(output_matrix.col_index(i, j), idx);
    }

    // the compressed row of pair (i, j) is the rank of full row i*3 + j
    let target_row_index_map = [
        ((0, 0), 0),
        ((0, 1), 1),
        ((0, 2), 2),
        ((1, 2), 3),
        ((2, 0), 4),
        ((2, 1), 5),
    ];
    assert_eq!(nonzero_rows.len(), target_row_index_map.len());
    for &((i, j), rank) in &target_row_index_map {
        assert_eq!(nonzero_rows[rank], i * 3 + j);
    }
}

#[test]
fn test_from_stochastic_matrix_6nodes() {
    let input_matrix = rmatrix_from(
        6,
        6,
        &[
            (1, 0, 5, 10),
            (2, 0, 5, 10),
            (3, 1, 5, 10),
            (3, 3, 1, 1),
            (4, 1, 5, 10),
            (4, 2, 5, 10),
            (4, 4, 1, 1),
            (5, 2, 5, 10),
            (5, 5, 1, 1),
        ],
    );
    let output_matrix = ClassicalTransitionMatrix::try_from(&input_matrix).unwrap();
    let (compressed, nonzero_rows) = output_matrix.compressed();
    let target_entries = [
        (0, 0, 5, 10),
        (0, 12, 5, 10),
        (0, 18, 5, 10),
        (0, 24, 5, 10),
        (0, 30, 5, 10),
        (0, 6, 5, 10),
        (1, 0, 5, 10),
        (1, 12, 5, 10),
        (1, 18, 5, 10),
        (1, 24, 5, 10),
        (1, 30, 5, 10),
        (1, 6, 5, 10),
        (2, 1, 5, 10),
        (2, 13, 5, 10),
        (2, 19, 5, 10),
        (2, 25, 5, 10),
        (2, 31, 5, 10),
        (2, 7, 5, 10),
        (3, 1, 5, 10),
        (3, 13, 5, 10),
        (3, 19, 5, 10),
        (3, 25, 5, 10),
        (3, 31, 5, 10),
        (3, 7, 5, 10),
        (4, 14, 5, 10),
        (4, 2, 5, 10),
        (4, 20, 5, 10),
        (4, 26, 5, 10),
        (4, 32, 5, 10),
        (4, 8, 5, 10),
        (5, 14, 5, 10),
        (5, 2, 5, 10),
        (5, 20, 5, 10),
        (5, 26, 5, 10),
        (5, 32, 5, 10),
        (5, 8, 5, 10),
        (6, 15, 1, 1),
        (6, 21, 1, 1),
        (6, 27, 1, 1),
        (6, 3, 1, 1),
        (6, 33, 1, 1),
        (6, 9, 1, 1),
        (7, 10, 1, 1),
        (7, 16, 1, 1),
        (7, 22, 1, 1),
        (7, 28, 1, 1),
        (7, 34, 1, 1),
        (7, 4, 1, 1),
        (8, 11, 1, 1),
        (8, 17, 1, 1),
        (8, 23, 1, 1),
        (8, 29, 1, 1),
        (8, 35, 1, 1),
        (8, 5, 1, 1),
    ];
    assert_matrix_equals(&compressed, 9, 36, &target_entries);

    // every incidence pair maps to column i*6 + j
    for i in 0..6 {
        for j in 0..6 {
            assert_eq!(output_matrix.col_index(i, j), i * 6 + j);
        }
    }

    // the compressed row of pair (i, j) is the rank of full row i*6 + j
    let target_row_index_map = [
        ((4, 4), 7),
        ((5, 5), 8),
        ((0, 2), 1),
        ((2, 5), 5),
        ((3, 3), 6),
        ((0, 1), 0),
        ((2, 4), 4),
        ((1, 3), 2),
        ((1, 4), 3),
    ];
    assert_eq!(nonzero_rows.len(), target_row_index_map.len());
    for &((i, j), rank) in &target_row_index_map {
        assert_eq!(nonzero_rows[rank], i * 6 + j);
    }
}

#[test]
fn test_from_stochastic_matrix() {
    let input_matrix = rmatrix_from(
        3,
        3,
        &[
            (0, 0, 3, 10),
            (0, 2, 7, 10),
            (1, 0, 5, 10),
            (1, 2, 3, 10),
            (2, 0, 2, 10),
            (2, 1, 1, 1),
        ],
    );
    let output_matrix = ClassicalTransitionMatrix::try_from(&input_matrix).unwrap();
    let target_entries = [
        (0, 0, 3, 10),
        (0, 3, 3, 10),
        (0, 6, 3, 10),
        (1, 0, 5, 10),
        (1, 3, 5, 10),
        (1, 6, 5, 10),
        (2, 0, 2, 10),
        (2, 3, 2, 10),
        (2, 6, 2, 10),
        (5, 1, 1, 1),
        (5, 4, 1, 1),
        (5, 7, 1, 1),
        (6, 2, 7, 10),
        (6, 5, 7, 10),
        (6, 8, 7, 10),
        (7, 2, 3, 10),
        (7, 5, 3, 10),
        (7, 8, 3, 10),
    ];
    assert_matrix_equals(&output_matrix.matrix, 9, 9, &target_entries);
}

#[test]
fn test_not_square_is_rejected() {
    let input = rmatrix_from(2, 3, &[(0, 0, 1, 1)]);
    assert_eq!(
        ClassicalTransitionMatrix::try_from(&input).unwrap_err(),
        WalkError::NotSquare
    );
    assert_eq!(
        ClassicalStateManager::try_from(&input).unwrap_err(),
        WalkError::NotSquare
    );
}

#[test]
fn test_stochastic_normalization_scalar() {
    // every column sums to 2, so one uniform factor of 1/2 corrects all
    let mut m = rmatrix_from(2, 2, &[(0, 0, 1, 1), (1, 0, 1, 1), (0, 1, 2, 1)]);
    let report = walk_engine::classical_transition_matrix::normalize_stochastic(&mut m).unwrap();
    match report {
        TransitionMatrixCorrectionType::Scalar(f) => {
            assert!(f.eq_rat(&Rat::new(1, 2)));
        }
        _ => panic!("expected a scalar correction, got {}", report.to_str()),
    }
    for j in 0..2 {
        let mut sum = Rat::zero();
        for i in 0..2 {
            sum = sum.checked_add(&m.get(i, j)).unwrap();
        }
        assert!(sum.eq_rat(&Rat::one()), "column {} does not sum to one", j);
    }
}

#[test]
fn test_stochastic_normalization_non_scalar() {
    // columns sum to 2 and 3: different factors per column
    let mut m = rmatrix_from(2, 2, &[(0, 0, 2, 1), (0, 1, 3, 1)]);
    let report = walk_engine::classical_transition_matrix::normalize_stochastic(&mut m).unwrap();
    match report {
        TransitionMatrixCorrectionType::NonScalar(v) => {
            assert_eq!(v.len(), 2);
            assert!(v[0].eq_rat(&Rat::new(1, 2)));
            assert!(v[1].eq_rat(&Rat::new(1, 3)));
        }
        _ => panic!("expected a per-column correction, got {}", report.to_str()),
    }
    assert!(m.get(0, 0).eq_rat(&Rat::one()));
    assert!(m.get(0, 1).eq_rat(&Rat::one()));
}

#[test]
fn test_stochastic_normalization_none() {
    // already column-stochastic (sums one and zero)
    let mut m = rmatrix_from(2, 2, &[(0, 0, 1, 2), (1, 0, 1, 2)]);
    let report = walk_engine::classical_transition_matrix::normalize_stochastic(&mut m).unwrap();
    assert!(matches!(report, TransitionMatrixCorrectionType::NoCorrection));
    assert_eq!(report.to_str(), "none");
}

#[test]
fn test_probability_conservation_classical() {
    // a 3-node walk with no all-zero column: the state's total mass is kept
    // exactly across steps
    let weights = rmatrix_from(
        3,
        3,
        &[
            (0, 0, 3, 10),
            (1, 0, 5, 10),
            (2, 0, 2, 10),
            (2, 1, 1, 1),
            (0, 2, 7, 10),
            (1, 2, 3, 10),
            (0, 1, 1, 3),
            (1, 1, 1, 4),
            (2, 2, 5, 7),
        ],
    );
    let mut manager = ClassicalStateManager::try_from(&weights).unwrap();
    let total_of = |sm: &ClassicalStateManager| {
        let data = sm.get_state_data().unwrap();
        let mut sum = Rat::zero();
        for x in &data {
            sum = sum.checked_add(x).unwrap();
        }
        sum
    };
    let initial_total = total_of(&manager);
    assert!(initial_total.eq_rat(&Rat::one()));
    for _ in 0..4 {
        manager.step_forward().unwrap();
        assert!(total_of(&manager).eq_rat(&initial_total));
    }
    assert_eq!(manager.get_step(), 4);
}

#[test]
fn test_reset_returns_to_construction() {
    let weights = rmatrix_from(
        3,
        3,
        &[
            (0, 0, 3, 10),
            (0, 2, 7, 10),
            (1, 0, 5, 10),
            (1, 2, 3, 10),
            (2, 0, 2, 10),
            (2, 1, 1, 1),
        ],
    );
    let mut manager = ClassicalStateManager::try_from(&weights).unwrap();
    let fresh_data = manager.get_state_data().unwrap();
    for _ in 0..3 {
        manager.step_forward().unwrap();
    }
    manager.reset_state(&weights).unwrap();
    assert_eq!(manager.get_step(), 0);
    let reset_data = manager.get_state_data().unwrap();
    assert_eq!(fresh_data.len(), reset_data.len());
    for (a, b) in fresh_data.iter().zip(reset_data.iter()) {
        assert!(a.eq_rat(b));
    }
}

#[test]
fn test_dimension_mismatch_is_reported() {
    let weights = rmatrix_from(2, 2, &[(0, 0, 1, 1), (1, 1, 1, 1)]);
    let op = ClassicalTransitionMatrix::try_from(&weights).unwrap();
    let bad_state = vec![Rat::one(); 3];
    assert_eq!(op.apply(&bad_state).unwrap_err(), WalkError::DimensionMismatch);

    let mut manager = ClassicalStateManager::try_from(&weights).unwrap();
    manager.state = vec![Rat::one(); 3];
    assert_eq!(manager.step_forward().unwrap_err(), WalkError::DimensionMismatch);
}

#[test]
fn test_numerical_invalidity_on_overflow() {
    // weights so large that exact column normalization cannot be represented
    let big = i64::MAX / 2;
    let weights = rmatrix_from(2, 2, &[(0, 0, big, 1), (1, 0, big - 1, 3), (0, 1, 1, 1)]);
    assert_eq!(
        ClassicalTransitionMatrix::try_from(&weights).unwrap_err(),
        WalkError::NumericalInvalidity
    );
}

#[test]
fn test_initial_state_is_start_node_self_incidence() {
    let weights = rmatrix_from(3, 3, &[(0, 0, 1, 1), (1, 1, 1, 1), (2, 2, 1, 1)]);
    let op = ClassicalTransitionMatrix::try_from(&weights).unwrap();
    let state = op.get_initial_state(&Some(1));
    assert_eq!(state.len(), 9);
    for (i, x) in state.iter().enumerate() {
        if i == 1 * 3 + 1 {
            assert!(x.eq_rat(&Rat::one()));
        } else {
            assert!(x.is_zero());
        }
    }
    let default_state = op.get_initial_state(&None);
    assert!(default_state[0].eq_rat(&Rat::one()));
}

#[test]
fn test_error_messages() {
    assert_eq!(WalkError::NotSquare.message(), "matrix is not square");
    assert_eq!(
        WalkError::DimensionMismatch.message(),
        "matrix dimensions do not match"
    );
    assert_eq!(
        WalkError::NumericalInvalidity.message(),
        "matrix is numerically invalid"
    );
}

#[test]
fn test_empty_weight_matrix() {
    let weights = RMatrix::zeros(0, 0);
    let manager = ClassicalStateManager::try_from(&weights).unwrap();
    let data = manager.get_state_data().unwrap();
    assert!(data.is_empty());
}

#[test]
fn test_zero_column_left_untouched() {
    // node 1 has no outgoing weight: its columns sum to zero and stay zero
    let weights = rmatrix_from(2, 2, &[(0, 0, 1, 1)]);
    let op = ClassicalTransitionMatrix::try_from(&weights).unwrap();
    for c in [1usize, 3] {
        for r in 0..4 {
            assert!(op.matrix.get(r, c).is_zero());
        }
    }
}
