//! Which simulation views the application shows.

use vstd::prelude::*;

verus! {

#[derive(Debug, Clone, Copy, PartialEq, Eq, Structural)]
pub enum SimulationMode {
    SideBySide,
    Classical,
    Quantum,
}

impl Default for SimulationMode {
    fn default() -> (r: SimulationMode)
        ensures
            r == SimulationMode::SideBySide,
    {
        SimulationMode::SideBySide
    }
}

} // verus!
