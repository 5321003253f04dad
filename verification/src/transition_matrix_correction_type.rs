//! The diagnostic result of a normalization step.

use vstd::prelude::*;

verus! {

use crate::matrix::{rats_view, rats_wf};
use crate::rational::Rat;

/// How a normalization step corrected an operator: not at all, by one
/// uniform factor, or by a different factor per column or singular index.
#[derive(Debug, Clone)]
pub enum TransitionMatrixCorrectionType {
    NoCorrection,
    Scalar(Rat),
    NonScalar(Vec<Rat>),
}

impl TransitionMatrixCorrectionType {
    /// Scalars carried by the report are well-formed.
    pub open spec fn wf(self) -> bool {
        match self {
            TransitionMatrixCorrectionType::NoCorrection => true,
            TransitionMatrixCorrectionType::Scalar(x) => x.wf(),
            TransitionMatrixCorrectionType::NonScalar(v) => rats_wf(v@),
        }
    }

    /// A short tag naming the kind of correction.
    pub fn to_str(&self) -> (r: String)
        ensures
            r@ == (match self {
                TransitionMatrixCorrectionType::NoCorrection => "none"@,
                TransitionMatrixCorrectionType::Scalar(_) => "scalar"@,
                TransitionMatrixCorrectionType::NonScalar(_) => "non_scalar"@,
            }),
    {
        match self {
            TransitionMatrixCorrectionType::NoCorrection => "none".to_owned(),
            TransitionMatrixCorrectionType::Scalar(_) => "scalar".to_owned(),
            TransitionMatrixCorrectionType::NonScalar(_) => "non_scalar".to_owned(),
        }
    }

}

} // verus!
