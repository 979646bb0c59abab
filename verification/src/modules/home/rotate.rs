//! ROTATE: Rotate objects about a base point.

use vstd::prelude::*;
use crate::ribbon::{command_tool, is_command_tool, ToolDef};

verus! {

/// The ribbon tool that runs ROTATE.
pub fn tool() -> (t: ToolDef)
    ensures
        is_command_tool(t, "ROTATE"@, "Rotate"@, "rotate.svg"@),
{
    command_tool("ROTATE", "Rotate", "rotate.svg")
}

} // verus!
