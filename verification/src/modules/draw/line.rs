//! LINE: Draw a line: a polyline of independent segments.

use vstd::prelude::*;
use crate::ribbon::{command_tool, is_command_tool, ToolDef};

verus! {

/// The ribbon tool that runs LINE.
pub fn tool() -> (t: ToolDef)
    ensures
        is_command_tool(t, "LINE"@, "Line"@, "line.svg"@),
{
    command_tool("LINE", "Line", "line.svg")
}

} // verus!
