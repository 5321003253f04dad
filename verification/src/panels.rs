//! Which side panels the application shows.

use vstd::prelude::*;

verus! {

#[derive(Debug, Clone, Copy, PartialEq, Eq, Structural)]
pub struct Layout {
    pub tools: bool,
    pub mode: bool,
}

impl Default for Layout {
    fn default() -> (r: Layout)
        ensures
            r == (Layout { tools: true, mode: true }),
    {
        Layout { tools: true, mode: true }
    }
}

#[derive(Debug, Clone, Copy, PartialEq, Eq, Structural)]
pub struct Panels {
    pub tools: bool,
    pub mode: bool,
}

impl Default for Panels {
    fn default() -> (r: Panels)
        ensures
            r == (Panels { tools: true, mode: true }),
    {
        Panels { tools: true, mode: true }
    }
}

} // verus!
