//! The application's coarse simulation state.

use vstd::prelude::*;

verus! {

/// Which regime a running simulation is in.
#[derive(Debug, Clone, PartialEq, Eq, Structural)]
pub enum SimulationMode {
    Classical,
    Quantum,
    SideBySide,
}

impl Default for SimulationMode {
    fn default() -> (r: SimulationMode)
        ensures
            r == SimulationMode::Classical,
    {
        SimulationMode::Classical
    }
}

/// Whether a simulation advances on its own, with the step count reached.
#[derive(Debug, Clone, PartialEq, Eq, Structural)]
pub enum SimulationState {
    Paused(usize),
    Running(usize),
}

impl Default for SimulationState {
    fn default() -> (r: SimulationState)
        ensures
            r == SimulationState::Paused(0usize),
    {
        SimulationState::Paused(0)
    }
}

} // verus!
