//! Computation-style options of the editing layer.

use vstd::prelude::*;

verus! {

/// Which of the two walk regimes is simulated.
#[derive(Debug, Clone, Copy, PartialEq, Eq, Structural)]
pub enum ComputationStyle {
    Classical,
    Quantum,
}

impl Default for ComputationStyle {
    fn default() -> (r: ComputationStyle)
        ensures
            r == ComputationStyle::Classical,
    {
        ComputationStyle::Classical
    }
}

impl ComputationStyle {
    pub fn name(&self) -> (r: &'static str)
        ensures
            r@ == (match self {
                ComputationStyle::Classical => "Classical"@,
                ComputationStyle::Quantum => "Quantum"@,
            }),
    {
        match self {
            ComputationStyle::Classical => "Classical",
            ComputationStyle::Quantum => "Quantum",
        }
    }
}

/// Options of the classical style.
#[derive(Debug, Clone, Copy, PartialEq, Eq, Structural, Default)]
pub struct ClassicalOptions {}

/// Options of the quantum style.
#[derive(Debug, Clone, Copy, PartialEq, Eq, Structural, Default)]
pub struct QuantumOptions {}

/// The style-specific option block.
#[derive(Debug, Clone, Copy, PartialEq, Eq, Structural)]
pub enum ComputationOption {
    Classical(ClassicalOptions),
    Quantum(QuantumOptions),
}

impl Default for ComputationOption {
    fn default() -> (r: ComputationOption)
        ensures
            r == ComputationOption::Classical(ClassicalOptions {  }),
    {
        ComputationOption::Classical(ClassicalOptions {  })
    }
}

/// Options shared by both styles.
#[derive(Debug, Clone, Copy, PartialEq, Eq, Structural, Default)]
pub struct GenericComputationOptions {
    pub revisit_same_node: bool,
}

/// The computation option state.
#[derive(Debug, Clone, Copy, PartialEq, Eq, Structural, Default)]
pub struct ComputationOptions {
    pub style: ComputationStyle,
    pub specific: ComputationOption,
    pub generic: GenericComputationOptions,
}

} // verus!
