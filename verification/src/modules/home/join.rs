//! JOIN — merge selected lines and arcs into fewer entities.

use vstd::prelude::*;
use crate::command::CmdResult;
use crate::entities::solid3d::{decimal, decimal_spec};
use crate::text_util::push_str;

verus! {

/// The JOIN command: gather a selection, then join it on Enter.
pub struct JoinCommand {
    handles: Vec<u64>,
    gathering: bool,
}

/// The state of a JOIN command: the gathered handles, and whether the
/// selection is still being gathered.
pub struct JoinView {
    pub handles: Seq<u64>,
    pub gathering: bool,
}

impl View for JoinCommand {
    type V = JoinView;

    closed spec fn view(&self) -> JoinView {
        JoinView { handles: self.handles@, gathering: self.gathering }
    }
}

impl JoinCommand {
    /// A JOIN command gathering an empty selection.
    pub fn new() -> (c: JoinCommand)
        ensures
            c@.handles.len() == 0,
            c@.gathering,
    {
        JoinCommand { handles: Vec::new(), gathering: true }
    }

    /// Short name shown in the command line.
    pub fn name(&self) -> (r: &'static str)
        ensures
            r@ == "JOIN"@,
    {
        "JOIN"
    }

    /// The prompt, with the number of objects selected so far.
    pub fn prompt(&self) -> (r: String)
        ensures
            r@ == "JOIN  Select objects to join ("@ + decimal_spec(self@.handles.len())
                + " selected, Enter to apply):"@,
    {
        let mut s = "JOIN  Select objects to join (".to_owned();
        let n = decimal(self.handles.len());
        push_str(&mut s, n.as_str());
        push_str(&mut s, " selected, Enter to apply):");
        s
    }

    /// Whether the selection is still being gathered.
    pub fn is_selection_gathering(&self) -> (b: bool)
        ensures
            b == self@.gathering,
    {
        self.gathering
    }

    /// The gathered selection replaces the one held.
    pub fn on_selection_complete(&mut self, handles: Vec<u64>) -> (r: CmdResult)
        ensures
            final(self)@ == (JoinView { handles: handles@, ..old(self)@ }),
            r == CmdResult::NeedPoint,
    {
        self.handles = handles;
        CmdResult::NeedPoint
    }

    /// A viewport click changes nothing.
    pub fn on_point(&mut self) -> (r: CmdResult)
        ensures
            final(self)@ == old(self)@,
            r == CmdResult::NeedPoint,
    {
        CmdResult::NeedPoint
    }

    /// Enter joins the selection when it has at least two objects, and ends
    /// the command otherwise.
    pub fn on_enter(&mut self) -> (r: CmdResult)
        ensures
            old(self)@.handles.len() < 2 ==> r == CmdResult::Cancel && final(self)@ == old(self)@,
            old(self)@.handles.len() >= 2 ==> (r matches CmdResult::JoinEntities(h) && h@
                == old(self)@.handles) && final(self)@ == (JoinView {
                gathering: false,
                ..old(self)@
            }),
    {
        if self.handles.len() < 2 {
            return CmdResult::Cancel;
        }
        self.gathering = false;
        CmdResult::JoinEntities(self.handles.clone())
    }
}

} // verus!
