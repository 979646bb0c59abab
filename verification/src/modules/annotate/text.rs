//! TEXT: Single-line text.

use vstd::prelude::*;
use crate::ribbon::{command_tool, is_command_tool, ToolDef};

verus! {

/// The ribbon tool that runs TEXT.
pub fn tool() -> (t: ToolDef)
    ensures
        is_command_tool(t, "TEXT"@, "Text"@, "text.svg"@),
{
    command_tool("TEXT", "Text", "text.svg")
}

} // verus!
