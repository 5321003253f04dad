//! The menus and panels of the surrounding application, as bare state: all
//! drawing lives with the display layer.

use vstd::prelude::*;

verus! {

#[derive(Debug, Clone, Copy, PartialEq, Eq, Structural, Default)]
pub struct FileMenu;

#[derive(Debug, Clone, Copy, PartialEq, Eq, Structural, Default)]
pub struct CanvasMenu;

#[derive(Debug, Clone, Copy, PartialEq, Eq, Structural, Default)]
pub struct LayoutMenu;

#[derive(Debug, Clone, Copy, PartialEq, Eq, Structural, Default)]
pub struct CanvasSettings;

#[derive(Debug, Clone, Copy, PartialEq, Eq, Structural, Default)]
pub struct View;

} // verus!
