//! The canvas context menu's pending input.

use vstd::prelude::*;

verus! {

/// The coordinate text typed into the add-node entry.
#[derive(Debug, Clone, Default)]
pub struct ContextMenuAddNode {
    pub x: String,
    pub y: String,
}

impl ContextMenuAddNode {
    /// Empty both coordinate fields.
    pub fn clear(&mut self)
        ensures
            final(self).x@ == Seq::<char>::empty(),
            final(self).y@ == Seq::<char>::empty(),
    {
        self.x = String::new();
        self.y = String::new();
    }
}

/// All values the context menu edits.
#[derive(Debug, Clone, Default)]
pub struct ContextMenuValues {
    pub add_node: ContextMenuAddNode,
}

/// The context menu itself; its drawing lives with the display layer.
#[derive(Debug, Clone, Copy, PartialEq, Eq, Structural, Default)]
pub struct ContextMenu;

} // verus!
