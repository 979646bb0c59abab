//! MTEXT: Multiline text.

use vstd::prelude::*;
use crate::ribbon::{command_tool, is_command_tool, ToolDef};

verus! {

/// The ribbon tool that runs MTEXT.
pub fn tool() -> (t: ToolDef)
    ensures
        is_command_tool(t, "MTEXT"@, "MText"@, "mtext.svg"@),
{
    command_tool("MTEXT", "MText", "mtext.svg")
}

} // verus!
