//! MLEADER: Multileader.

use vstd::prelude::*;
use crate::ribbon::{command_tool, is_command_tool, ToolDef};

verus! {

/// The ribbon tool that runs MLEADER.
pub fn tool() -> (t: ToolDef)
    ensures
        is_command_tool(t, "MLEADER"@, "MLeader"@, "mleader.svg"@),
{
    command_tool("MLEADER", "MLeader", "mleader.svg")
}

} // verus!
