//! The node-placing tool's identity.

use vstd::prelude::*;

verus! {

#[derive(Debug, Clone, Copy)]
pub struct NodeTool {
    pub name: &'static str,
}

impl Default for NodeTool {
    fn default() -> (r: NodeTool)
        ensures
            r.name@ == "Node"@,
    {
        NodeTool { name: "Node" }
    }
}

} // verus!
