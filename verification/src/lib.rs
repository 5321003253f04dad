//! A verified engine for discrete-time walks on small graphs.
//!
//! The engine covers two regimes: a classical random walk driven by a
//! column-stochastic transition operator, and a quantum walk driven by a
//! unitary half-edge operator.  All engine arithmetic is exact: scalars are
//! rational numbers, so the stated conservation laws hold as equalities
//! rather than within a floating-point tolerance.

use vstd::prelude::*;

pub mod canvas_actions;
pub mod classical_state_manager;
pub mod complex;
pub mod complex_matrix;
pub mod complex_state_manager;
pub mod complex_transition_matrix;
pub mod computation_options;
pub mod context_menu;
pub mod editor;
pub mod line_tool;
pub mod menus;
pub mod node_tool;
pub mod options;
pub mod panels;
pub mod simulation_mode;
pub mod state;
pub mod tool;
pub mod classical_transition_matrix;
pub mod matrix;
pub mod transition_matrix_correction_type;
pub mod rational;
pub mod sums;

verus! {

/// The error taxonomy of the engine.
#[derive(Debug, Clone, Copy, PartialEq, Eq, Structural)]
pub enum WalkError {
    /// A weight matrix that is not square was handed to the builder.
    NotSquare,
    /// A state vector does not match the operator's column count.
    DimensionMismatch,
    /// Exact arithmetic left the representable range.
    NumericalInvalidity,
}

impl WalkError {
    /// A short tag for display layers; the engine itself never formats.
    pub fn message(&self) -> (r: &'static str)
        ensures
            r@ == (match self {
                WalkError::NotSquare => "matrix is not square"@,
                WalkError::DimensionMismatch => "matrix dimensions do not match"@,
                WalkError::NumericalInvalidity => "matrix is numerically invalid"@,
            }),
    {
        match self {
            WalkError::NotSquare => "matrix is not square",
            WalkError::DimensionMismatch => "matrix dimensions do not match",
            WalkError::NumericalInvalidity => "matrix is numerically invalid",
        }
    }
}


} // verus!
