//! EXPLODE: Break compound objects into their parts.

use vstd::prelude::*;
use crate::command::CmdResult;
use crate::ribbon::{command_tool, is_command_tool, ToolDef};

verus! {

/// The ribbon tool that runs EXPLODE.
pub fn tool() -> (t: ToolDef)
    ensures
        is_command_tool(t, "EXPLODE"@, "Explode"@, "explode.svg"@),
{
    command_tool("EXPLODE", "Explode", "explode.svg")
}

/// The EXPLODE command. The work happens on the selection the host gathers
/// before the command starts; the command itself only ends.
pub struct ExplodeCommand;

impl ExplodeCommand {
    pub fn new() -> (c: ExplodeCommand) {
        ExplodeCommand
    }

    /// Short name shown in the command line.
    pub fn name(&self) -> (r: &'static str)
        ensures
            r@ == "EXPLODE"@,
    {
        "EXPLODE"
    }

    /// The prompt.
    pub fn prompt(&self) -> (r: String)
        ensures
            r@ == "EXPLODE  Select objects to explode:"@,
    {
        "EXPLODE  Select objects to explode:".to_owned()
    }

    /// A point ends the command.
    pub fn on_point(&mut self) -> (r: CmdResult)
        ensures
            r == CmdResult::Cancel,
    {
        CmdResult::Cancel
    }

    /// Enter ends the command.
    pub fn on_enter(&mut self) -> (r: CmdResult)
        ensures
            r == CmdResult::Cancel,
    {
        CmdResult::Cancel
    }

    /// Escape ends the command.
    pub fn on_escape(&mut self) -> (r: CmdResult)
        ensures
            r == CmdResult::Cancel,
    {
        CmdResult::Cancel
    }
}

} // verus!
