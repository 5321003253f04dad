//! The matrix editors' shared interface: each editor reports when its edits
//! are ready to flow back onto the canvas.

use vstd::prelude::*;

verus! {

pub trait Editor {
    fn is_canvas_update_ready(&self) -> bool;

    fn on_canvas_updated(&mut self);
}

} // verus!
