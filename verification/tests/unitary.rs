//! The singular-value correction classifier against nalgebra's SVD, on the
//! same operators the engine's history used to exercise it.

use nalgebra::{Complex, DMatrix};
use walk_engine::complex_transition_matrix::unitary_correction;
use walk_engine::rational::Rat;
use walk_engine::transition_matrix_correction_type::TransitionMatrixCorrectionType;

/// The nearest fraction with denominator 10^12.
fn rat_from_f64(x: f64) -> Rat {
    let den: i64 = 1_000_000_000_000;
    Rat::new((x * (den as f64)).round() as i64, den)
}

fn rat_to_f64(x: &Rat) -> f64 {
    (x.num as f64) / (x.den as f64)
}

fn singular_values_of(m: &DMatrix<Complex<f64>>) -> Vec<Rat> {
    let svd = m.clone().svd(true, true);
    svd.singular_values.iter().map(|s| rat_from_f64(*s)).collect()
}

#[test]
fn test_unitary_normalization() {
    let tol = Rat::new(1, 10_000_000_000);

    let unitary_matrix = DMatrix::from_row_slice(
        2,
        2,
        &[
            Complex::new(0.0, 1.0),
            Complex::new(1.0, 0.0),
            Complex::new(1.0, 0.0),
            Complex::new(0.0, 1.0),
        ],
    ) / Complex::from(2.0_f64.sqrt());
    let report = unitary_correction(&singular_values_of(&unitary_matrix), &tol).unwrap();
    assert!(matches!(report, TransitionMatrixCorrectionType::NoCorrection));

    let scalar_unitary_matrix = DMatrix::from_row_slice(
        2,
        2,
        &[
            Complex::new(0.0, 1.0),
            Complex::new(1.0, 0.0),
            Complex::new(1.0, 0.0),
            Complex::new(0.0, 1.0),
        ],
    );
    let report = unitary_correction(&singular_values_of(&scalar_unitary_matrix), &tol).unwrap();
    match report {
        TransitionMatrixCorrectionType::Scalar(x) => {
            assert!((rat_to_f64(&x) - (2.0_f64.sqrt() - 1.0)).abs() <= 1e-10);
        }
        _ => panic!("expected a scalar correction"),
    }

    let non_scalar_unitary_matrix = DMatrix::from_row_slice(
        2,
        2,
        &[
            Complex::new(0.0, 1.0 + 1e-10),
            Complex::new(1.0 - 1e-10, 0.0),
            Complex::new(1.0, 0.0),
            Complex::new(0.0, 1.1),
        ],
    );
    let report =
        unitary_correction(&singular_values_of(&non_scalar_unitary_matrix), &tol).unwrap();
    let correction_values = match report {
        TransitionMatrixCorrectionType::NonScalar(x) => x,
        _ => panic!("Expected non scalar correction"),
    };
    // equal within reasonable error (the original held at 1e-10)
    assert_eq!(correction_values.len(), 2);
    assert!((rat_to_f64(&correction_values[0]) - (-0.5_f64)).abs() <= 1e-10);
    assert!((rat_to_f64(&correction_values[1]) - (-0.4_f64)).abs() <= 1e-10);
}
