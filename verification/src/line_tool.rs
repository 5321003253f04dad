//! The line-drawing tool's identity.

use vstd::prelude::*;

verus! {

#[derive(Debug, Clone, Copy)]
pub struct LineTool {
    pub name: &'static str,
}

impl Default for LineTool {
    fn default() -> (r: LineTool)
        ensures
            r.name@ == "Line"@,
    {
        LineTool { name: "Line" }
    }
}

} // verus!
