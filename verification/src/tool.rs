//! The canvas tools.

use vstd::prelude::*;

verus! {

/// Which editing tool is active on the canvas.
#[derive(Debug, Clone, Copy, PartialEq, Eq, Structural)]
pub enum Tool {
    Move,
    Node,
    Line,
    Label,
}

impl Default for Tool {
    fn default() -> (r: Tool)
        ensures
            r == Tool::Move,
    {
        Tool::Move
    }
}

} // verus!
