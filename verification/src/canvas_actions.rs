//! Pending canvas actions typed into the menus.

use vstd::prelude::*;

verus! {

/// The coordinate text of a queued graph placement.
#[derive(Debug, Clone, Default)]
pub struct PlaceGraphValues {
    pub x: String,
    pub y: String,
}

/// All text the canvas menus edit.
#[derive(Debug, Clone, Default)]
pub struct CanvasActions {
    pub add_label_text: String,
    pub add_graph_values: PlaceGraphValues,
}

} // verus!
