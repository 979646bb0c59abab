//! DIVIDE — place point entities at N equal intervals along an entity.

use vstd::prelude::*;
use crate::command::CmdResult;
use crate::plugin::toml::{parse_usize_range, parse_usize_spec};
use crate::text_util::{chars_of, trim, trim_bounds};

verus! {

/// The DIVIDE command: pick an entity, then type the number of segments.
pub struct DivideCommand {
    target: Option<u64>,
    waiting_for_n: bool,
}

/// The state of a DIVIDE command: the picked entity, and whether it waits
/// for the segment count.
pub struct DivideView {
    pub target: Option<u64>,
    pub waiting_for_n: bool,
}

impl View for DivideCommand {
    type V = DivideView;

    closed spec fn view(&self) -> DivideView {
        DivideView { target: self.target, waiting_for_n: self.waiting_for_n }
    }
}

impl DivideCommand {
    /// A DIVIDE command with nothing picked.
    pub fn new() -> (c: DivideCommand)
        ensures
            c@.target is None,
            !c@.waiting_for_n,
    {
        DivideCommand { target: None, waiting_for_n: false }
    }

    /// Short name shown in the command line.
    pub fn name(&self) -> (r: &'static str)
        ensures
            r@ == "DIVIDE"@,
    {
        "DIVIDE"
    }

    /// The prompt: the object first, then the segment count.
    pub fn prompt(&self) -> (r: String)
        ensures
            self@.target is None ==> r@ == "DIVIDE  Select object to divide:"@,
            self@.target is Some ==> r@ == "DIVIDE  Enter number of segments:"@,
    {
        if self.target.is_none() {
            "DIVIDE  Select object to divide:".to_owned()
        } else {
            "DIVIDE  Enter number of segments:".to_owned()
        }
    }

    /// The command waits for a pick until an object is chosen.
    pub fn needs_entity_pick(&self) -> (b: bool)
        ensures
            b == (self@.target is None),
    {
        self.target.is_none()
    }

    /// An entity was picked (a null handle, 0, is ignored).
    pub fn on_entity_pick(&mut self, handle: u64) -> (r: CmdResult)
        ensures
            r == CmdResult::NeedPoint,
            handle == 0 ==> final(self)@ == old(self)@,
            handle != 0 ==> final(self)@ == (DivideView { target: Some(handle), waiting_for_n: true }),
    {
        if handle == 0 {
            return CmdResult::NeedPoint;
        }
        self.target = Some(handle);
        self.waiting_for_n = true;
        CmdResult::NeedPoint
    }

    /// Typed input is read while the segment count is awaited.
    pub fn wants_text_input(&self) -> (b: bool)
        ensures
            b == self@.waiting_for_n,
    {
        self.waiting_for_n
    }

    /// The segment count: a whole number of at least 2 divides the picked
    /// entity; anything else is ignored.
    pub fn on_text_input(&mut self, text: &str) -> (r: Option<CmdResult>)
        ensures
            match (parse_usize_spec(trim(text@)), old(self)@.target) {
                (Some(n), Some(h)) if n >= 2 => r == Some(CmdResult::DivideEntity { handle: h, n })
                    && final(self)@ == (DivideView { waiting_for_n: false, ..old(self)@ }),
                _ => r is None && final(self)@ == old(self)@,
            },
    {
        let v = chars_of(text);
        let (a, b) = trim_bounds(&v, 0, v.len());
        proof {
            assert(v@.subrange(0, v@.len() as int) =~= v@);
        }
        let n = match parse_usize_range(&v, a, b) {
            Some(n) => n,
            None => {
                return None;
            },
        };
        if n < 2 {
            return None;
        }
        let handle = match self.target {
            Some(h) => h,
            None => {
                return None;
            },
        };
        self.waiting_for_n = false;
        Some(CmdResult::DivideEntity { handle, n })
    }

    /// A viewport click changes nothing.
    pub fn on_point(&mut self) -> (r: CmdResult)
        ensures
            final(self)@ == old(self)@,
            r == CmdResult::NeedPoint,
    {
        CmdResult::NeedPoint
    }

    /// Enter ends the command.
    pub fn on_enter(&mut self) -> (r: CmdResult)
        ensures
            final(self)@ == old(self)@,
            r == CmdResult::Cancel,
    {
        CmdResult::Cancel
    }
}

} // verus!
