//! TEXTEDIT — edit multiline text, single-line text, or dimension text in-place.
//!
//! Workflow:
//!   1. Enters a loop prompting to select an annotation object.
//!   2. Accepts keyword options: Undo (to revert the last edit) and Mode (to
//!      switch Single/Multiple).
//!   3. In Multiple mode (default), editing an object suspends the command,
//!      opens the editor, and when closed, resumes the command loop.
//!   4. In Single mode, editing an object exits the command immediately.
//!
//! TEXTEDITMODE sets the system variable that picks the starting mode.

use vstd::prelude::*;
use crate::command::{is_keyword, keyword_at, CmdResult, DynField};
use crate::text_support::ascii_lower;
use crate::text_util::{chars_of, lemma_trim_unchanged, push_str, trim, trim_bounds};

verus! {

/// Where the TEXTEDIT command loop is.
#[derive(Clone, Copy, PartialEq, Eq, Debug, Structural)]
pub enum Step {
    PickObject,
    EnterMode,
}

/// Whether TEXTEDIT ends after one edit (`Single`) or keeps picking.
#[derive(Clone, Copy, PartialEq, Eq, Debug, Structural)]
pub enum TextEditMode {
    Single,
    Multiple,
}

/// The TEXTEDIT command.
pub struct TexteditCommand {
    mode: TextEditMode,
    edit_count: usize,
    step: Step,
}

/// The state of a TEXTEDIT command: its mode, how many edits were committed
/// (and not undone), and its step.
pub struct TexteditView {
    pub mode: TextEditMode,
    pub edit_count: nat,
    pub step: Step,
}

impl View for TexteditCommand {
    type V = TexteditView;

    closed spec fn view(&self) -> TexteditView {
        TexteditView { mode: self.mode, edit_count: self.edit_count as nat, step: self.step }
    }
}

/// The trimmed input is one of the keywords (ignoring ASCII case).
pub open spec fn said(t: Seq<char>, a: Seq<char>, b: Seq<char>) -> bool {
    is_keyword(trim(t), a) || is_keyword(trim(t), b)
}

/// TEXTEDIT's answer to typed input `t`, and its state afterwards.
pub open spec fn textedit_input(s: TexteditView, t: Seq<char>) -> (CmdResult, TexteditView) {
    let w = trim(t);
    match s.step {
        Step::PickObject => {
            if w.len() == 0 {
                (if s.edit_count > 0 { CmdResult::Cancel } else { CmdResult::NeedPoint }, s)
            } else if said(t, seq!['u'], seq!['u', 'n', 'd', 'o']) {
                if s.edit_count > 0 {
                    (CmdResult::UndoDocument, TexteditView { edit_count: (s.edit_count - 1) as nat, ..s })
                } else {
                    (CmdResult::NeedPoint, s)
                }
            } else if said(t, seq!['m'], seq!['m', 'o', 'd', 'e']) {
                (CmdResult::NeedPoint, TexteditView { step: Step::EnterMode, ..s })
            } else {
                (CmdResult::NeedPoint, s)
            }
        },
        Step::EnterMode => {
            if w.len() == 0 {
                (CmdResult::NeedPoint, TexteditView { step: Step::PickObject, ..s })
            } else if said(t, seq!['s'], seq!['s', 'i', 'n', 'g', 'l', 'e']) || is_keyword(w, seq!['1']) {
                (CmdResult::NeedPoint, TexteditView { mode: TextEditMode::Single, step: Step::PickObject, ..s })
            } else if said(t, seq!['m'], seq!['m', 'u', 'l', 't', 'i', 'p', 'l', 'e']) || is_keyword(w, seq!['0']) {
                (CmdResult::NeedPoint, TexteditView { mode: TextEditMode::Multiple, step: Step::PickObject, ..s })
            } else {
                (CmdResult::NeedPoint, s)
            }
        },
    }
}

/// At the mode question, an answer whose trim is `m` or `multiple` (in any
/// ASCII case) selects Multiple and returns to picking, just as `0` does; one
/// whose trim is `s` or `single` selects Single and returns to picking, just
/// as `1` does. The edit count is kept either way.
pub proof fn lemma_mode_answers(s: TexteditView, t: Seq<char>)
    requires
        s.step == Step::EnterMode,
    ensures
        said(t, seq!['m'], seq!['m', 'u', 'l', 't', 'i', 'p', 'l', 'e']) ==> {
            &&& textedit_input(s, t) == (CmdResult::NeedPoint, TexteditView {
                mode: TextEditMode::Multiple,
                step: Step::PickObject,
                ..s
            })
            &&& textedit_input(s, t) == textedit_input(s, seq!['0'])
        },
        said(t, seq!['s'], seq!['s', 'i', 'n', 'g', 'l', 'e']) ==> {
            &&& textedit_input(s, t) == (CmdResult::NeedPoint, TexteditView {
                mode: TextEditMode::Single,
                step: Step::PickObject,
                ..s
            })
            &&& textedit_input(s, t) == textedit_input(s, seq!['1'])
        },
{
    let w = trim(t);
    lemma_trim_unchanged(seq!['0']);
    lemma_trim_unchanged(seq!['1']);
    assert(ascii_lower(seq!['0'][0]) == '0');
    assert(ascii_lower(seq!['1'][0]) == '1');
    let z = seq!['0'];
    assert(!said(z, seq!['s'], seq!['s', 'i', 'n', 'g', 'l', 'e']));
    assert(!is_keyword(z, seq!['1']));
    assert(!said(z, seq!['m'], seq!['m', 'u', 'l', 't', 'i', 'p', 'l', 'e']));
    assert(is_keyword(z, seq!['0']));
    if said(t, seq!['m'], seq!['m', 'u', 'l', 't', 'i', 'p', 'l', 'e']) {
        assert(w.len() > 0);
        assert(ascii_lower(w[0]) == 'm');
        assert(!said(t, seq!['s'], seq!['s', 'i', 'n', 'g', 'l', 'e']));
        assert(!is_keyword(w, seq!['1']));
    }
    if said(t, seq!['s'], seq!['s', 'i', 'n', 'g', 'l', 'e']) {
        assert(w.len() > 0);
        assert(ascii_lower(w[0]) == 's');
    }
}

/// While picking objects, an answer whose trim is `u` or `undo` (in any ASCII
/// case) acts as `u` does: it takes back the last committed edit and answers
/// with an undo of the document, or changes nothing when there is none; one
/// whose trim is `m` or `mode` acts as `m` does: it moves on to the mode
/// question.
pub proof fn lemma_pick_answers(s: TexteditView, t: Seq<char>)
    requires
        s.step == Step::PickObject,
    ensures
        said(t, seq!['u'], seq!['u', 'n', 'd', 'o']) ==> {
            &&& textedit_input(s, t) == textedit_input(s, seq!['u'])
            &&& s.edit_count > 0 ==> textedit_input(s, t) == (CmdResult::UndoDocument, TexteditView {
                edit_count: (s.edit_count - 1) as nat,
                ..s
            })
            &&& s.edit_count == 0 ==> textedit_input(s, t) == (CmdResult::NeedPoint, s)
        },
        said(t, seq!['m'], seq!['m', 'o', 'd', 'e']) ==> {
            &&& textedit_input(s, t) == textedit_input(s, seq!['m'])
            &&& textedit_input(s, t) == (CmdResult::NeedPoint, TexteditView {
                step: Step::EnterMode,
                ..s
            })
        },
{
    let w = trim(t);
    lemma_trim_unchanged(seq!['u']);
    lemma_trim_unchanged(seq!['m']);
    assert(ascii_lower(seq!['u'][0]) == 'u');
    assert(ascii_lower(seq!['m'][0]) == 'm');
    assert(is_keyword(seq!['u'], seq!['u']));
    assert(is_keyword(seq!['m'], seq!['m']));
    if said(t, seq!['m'], seq!['m', 'o', 'd', 'e']) {
        assert(w.len() > 0);
        assert(ascii_lower(w[0]) == 'm');
    }
    if said(t, seq!['u'], seq!['u', 'n', 'd', 'o']) {
        assert(w.len() > 0);
        assert(ascii_lower(w[0]) == 'u');
    }
}

/// Answering `M` to the prompt for an object and `M` again to the mode
/// question leaves TEXTEDIT in Multiple mode, back at picking objects, with
/// its edit count unchanged.
pub proof fn lemma_mode_m_m(s: TexteditView)
    requires
        s.step == Step::PickObject,
    ensures
        ({
            let s1 = textedit_input(s, seq!['M']).1;
            let s2 = textedit_input(s1, seq!['M']).1;
            &&& s1.step == Step::EnterMode
            &&& s2 == (TexteditView { mode: TextEditMode::Multiple, step: Step::PickObject, ..s })
        }),
{
    lemma_trim_unchanged(seq!['M']);
    assert(ascii_lower(seq!['M'][0]) == 'm');
    let s1 = textedit_input(s, seq!['M']).1;
    lemma_mode_answers(s1, seq!['M']);
}

impl TexteditCommand {
    /// A TEXTEDIT command; `texteditmode` is the TEXTEDITMODE system variable
    /// (true = single edit).
    pub fn new(texteditmode: bool) -> (c: TexteditCommand)
        ensures
            c@.mode == (if texteditmode { TextEditMode::Single } else { TextEditMode::Multiple }),
            c@.edit_count == 0,
            c@.step == Step::PickObject,
    {
        let mode = if texteditmode {
            TextEditMode::Single
        } else {
            TextEditMode::Multiple
        };
        TexteditCommand { mode, edit_count: 0, step: Step::PickObject }
    }

    /// Short name shown in the command line.
    pub fn name(&self) -> (r: &'static str)
        ensures
            r@ == "TEXTEDIT"@,
    {
        "TEXTEDIT"
    }

    /// The current prompt.
    pub fn prompt(&self) -> (r: String)
        ensures
            self@.step == Step::PickObject && self@.edit_count == 0 ==> r@
                == "TEXTEDIT Select an annotation object or [Undo Mode]:"@,
            self@.step == Step::PickObject && self@.edit_count > 0 ==> r@
                == "TEXTEDIT Select an annotation object or [Undo Mode] <exit>:"@,
            self@.step == Step::EnterMode ==> r@ == "TEXTEDIT Enter text edit mode [Single/Multiple] <"@
                + (if self@.mode == TextEditMode::Single { "Single"@ } else { "Multiple"@ }) + ">:"@,
    {
        match self.step {
            Step::PickObject => {
                if self.edit_count == 0 {
                    "TEXTEDIT Select an annotation object or [Undo Mode]:".to_owned()
                } else {
                    "TEXTEDIT Select an annotation object or [Undo Mode] <exit>:".to_owned()
                }
            },
            Step::EnterMode => {
                let mut s = "TEXTEDIT Enter text edit mode [Single/Multiple] <".to_owned();
                let m = match self.mode {
                    TextEditMode::Single => "Single",
                    TextEditMode::Multiple => "Multiple",
                };
                push_str(&mut s, m);
                push_str(&mut s, ">:");
                s
            },
        }
    }

    /// The command waits for an entity pick while it asks for an object.
    pub fn needs_entity_pick(&self) -> (b: bool)
        ensures
            b == (self@.step == Step::PickObject),
    {
        self.step == Step::PickObject
    }

    /// An entity was picked: a null handle (0) is ignored, any other suspends
    /// the command and opens the editor on it.
    pub fn on_entity_pick(&mut self, handle: u64) -> (r: CmdResult)
        ensures
            final(self)@ == old(self)@,
            r == (if handle == 0 { CmdResult::NeedPoint } else { CmdResult::SuspendForTextEdit { handle } }),
    {
        if handle == 0 {
            return CmdResult::NeedPoint;
        }
        CmdResult::SuspendForTextEdit { handle }
    }

    /// TEXTEDIT reads typed keywords.
    pub fn wants_text_input(&self) -> (b: bool)
        ensures
            b,
    {
        true
    }

    /// Typed input: Undo and Mode while picking, Single/Multiple (or 1/0)
    /// while asking for the mode; blank input ends or steps back.
    pub fn on_text_input(&mut self, text: &str) -> (r: Option<CmdResult>)
        ensures
            r == Some(textedit_input(old(self)@, text@).0),
            final(self)@ == textedit_input(old(self)@, text@).1,
    {
        let v = chars_of(text);
        let (a, b) = trim_bounds(&v, 0, v.len());
        proof {
            assert(v@.subrange(0, v@.len() as int) =~= v@);
        }
        match self.step {
            Step::PickObject => {
                if a == b {
                    if self.edit_count > 0 {
                        return Some(CmdResult::Cancel);
                    } else {
                        return Some(CmdResult::NeedPoint);
                    }
                }
                if keyword_at(&v, a, b, &['u']) || keyword_at(&v, a, b, &['u', 'n', 'd', 'o']) {
                    if self.edit_count > 0 {
                        self.edit_count = self.edit_count - 1;
                        return Some(CmdResult::UndoDocument);
                    } else {
                        return Some(CmdResult::NeedPoint);
                    }
                } else if keyword_at(&v, a, b, &['m']) || keyword_at(&v, a, b, &['m', 'o', 'd', 'e']) {
                    self.step = Step::EnterMode;
                    return Some(CmdResult::NeedPoint);
                }
                Some(CmdResult::NeedPoint)
            },
            Step::EnterMode => {
                if a == b {
                    self.step = Step::PickObject;
                    return Some(CmdResult::NeedPoint);
                }
                if keyword_at(&v, a, b, &['s']) || keyword_at(&v, a, b, &['s', 'i', 'n', 'g', 'l', 'e'])
                    || keyword_at(&v, a, b, &['1']) {
                    self.mode = TextEditMode::Single;
                    self.step = Step::PickObject;
                } else if keyword_at(&v, a, b, &['m']) || keyword_at(
                    &v,
                    a,
                    b,
                    &['m', 'u', 'l', 't', 'i', 'p', 'l', 'e'],
                ) || keyword_at(&v, a, b, &['0']) {
                    self.mode = TextEditMode::Multiple;
                    self.step = Step::PickObject;
                }
                Some(CmdResult::NeedPoint)
            },
        }
    }

    /// A viewport click that is not an entity pick changes nothing.
    pub fn on_point(&mut self) -> (r: CmdResult)
        ensures
            final(self)@ == old(self)@,
            r == CmdResult::NeedPoint,
    {
        CmdResult::NeedPoint
    }

    /// Enter: leaves the mode question, or ends the loop once an edit was made.
    pub fn on_enter(&mut self) -> (r: CmdResult)
        ensures
            old(self)@.step == Step::PickObject ==> final(self)@ == old(self)@ && r == (if old(
                self,
            )@.edit_count > 0 {
                CmdResult::Cancel
            } else {
                CmdResult::NeedPoint
            }),
            old(self)@.step == Step::EnterMode ==> final(self)@ == (TexteditView {
                step: Step::PickObject,
                ..old(self)@
            }) && r == CmdResult::NeedPoint,
    {
        match self.step {
            Step::PickObject => {
                if self.edit_count > 0 {
                    CmdResult::Cancel
                } else {
                    CmdResult::NeedPoint
                }
            },
            Step::EnterMode => {
                self.step = Step::PickObject;
                CmdResult::NeedPoint
            },
        }
    }

    /// Escape ends the command.
    pub fn on_escape(&mut self) -> (r: CmdResult)
        ensures
            final(self)@ == old(self)@,
            r == CmdResult::Cancel,
    {
        CmdResult::Cancel
    }

    /// The editor opened on a picked object closed; `committed` says whether
    /// the edit was kept. Single mode then ends the command.
    pub fn on_editor_closed(&mut self, committed: bool) -> (r: CmdResult)
        requires
            old(self)@.edit_count < usize::MAX,
        ensures
            final(self)@ == (TexteditView {
                edit_count: if committed { old(self)@.edit_count + 1 } else { old(self)@.edit_count },
                ..old(self)@
            }),
            r == (if old(self)@.mode == TextEditMode::Single { CmdResult::Cancel } else { CmdResult::NeedPoint }),
    {
        if committed {
            self.edit_count = self.edit_count + 1;
        }
        match self.mode {
            TextEditMode::Single => CmdResult::Cancel,
            TextEditMode::Multiple => CmdResult::NeedPoint,
        }
    }
}

/// The TEXTEDITMODE command: sets the TEXTEDITMODE system variable.
pub struct TexteditmodeCommand {
    current: bool,
}

impl View for TexteditmodeCommand {
    type V = bool;

    closed spec fn view(&self) -> bool {
        self.current
    }
}

/// The value TEXTEDITMODE input `t` asks for: `None` for blank input,
/// `Some(Some(single))` for a recognised value, `Some(None)` otherwise.
pub open spec fn texteditmode_value(t: Seq<char>) -> Option<Option<bool>> {
    let w = trim(t);
    if w.len() == 0 {
        None
    } else if is_keyword(w, seq!['0']) || said(t, seq!['m'], seq!['m', 'u', 'l', 't', 'i', 'p', 'l', 'e']) {
        Some(Some(false))
    } else if is_keyword(w, seq!['1']) || said(t, seq!['s'], seq!['s', 'i', 'n', 'g', 'l', 'e']) {
        Some(Some(true))
    } else {
        Some(None)
    }
}

/// TEXTEDITMODE and TEXTEDIT's mode question read an answer alike: an
/// answer that TEXTEDITMODE takes as Single (or Multiple) sets TEXTEDIT to
/// Single (or Multiple) and back to picking; one that TEXTEDITMODE rejects
/// leaves TEXTEDIT's question open and its state unchanged; a blank answer
/// returns TEXTEDIT to picking with its mode unchanged.
pub proof fn lemma_mode_settings_agree(s: TexteditView, t: Seq<char>)
    requires
        s.step == Step::EnterMode,
    ensures
        texteditmode_value(t) matches Some(Some(single)) ==> textedit_input(s, t) == (
        CmdResult::NeedPoint,
        TexteditView {
            mode: if single { TextEditMode::Single } else { TextEditMode::Multiple },
            step: Step::PickObject,
            ..s
        },
        ),
        texteditmode_value(t) == Some(None::<bool>) ==> textedit_input(s, t) == (CmdResult::NeedPoint, s),
        texteditmode_value(t) is None ==> textedit_input(s, t) == (CmdResult::NeedPoint, TexteditView {
            step: Step::PickObject,
            ..s
        }),
{
    let w = trim(t);
    lemma_mode_answers(s, t);
    if w.len() > 0 {
        let c = ascii_lower(w[0]);
        if is_keyword(w, seq!['0']) {
            assert(c == '0');
            assert(!said(t, seq!['s'], seq!['s', 'i', 'n', 'g', 'l', 'e']));
            assert(!is_keyword(w, seq!['1']));
        }
        if is_keyword(w, seq!['1']) {
            assert(c == '1');
            assert(!said(t, seq!['m'], seq!['m', 'u', 'l', 't', 'i', 'p', 'l', 'e']));
            assert(!is_keyword(w, seq!['0']));
        }
        if said(t, seq!['s'], seq!['s', 'i', 'n', 'g', 'l', 'e']) {
            assert(c == 's');
            assert(!said(t, seq!['m'], seq!['m', 'u', 'l', 't', 'i', 'p', 'l', 'e']));
            assert(!is_keyword(w, seq!['0']));
        }
        if said(t, seq!['m'], seq!['m', 'u', 'l', 't', 'i', 'p', 'l', 'e']) {
            assert(c == 'm');
        }
    }
}

impl TexteditmodeCommand {
    /// The command, showing `current` as the present value.
    pub fn new(current: bool) -> (c: TexteditmodeCommand)
        ensures
            c@ == current,
    {
        TexteditmodeCommand { current }
    }

    /// Short name shown in the command line.
    pub fn name(&self) -> (r: &'static str)
        ensures
            r@ == "TEXTEDITMODE"@,
    {
        "TEXTEDITMODE"
    }

    /// The current prompt, with the present value as 1 or 0.
    pub fn prompt(&self) -> (r: String)
        ensures
            r@ == "TEXTEDITMODE Enter new value for TEXTEDITMODE <"@ + (if self@ { "1"@ } else { "0"@ })
                + ">:"@,
    {
        let mut s = "TEXTEDITMODE Enter new value for TEXTEDITMODE <".to_owned();
        if self.current {
            push_str(&mut s, "1");
        } else {
            push_str(&mut s, "0");
        }
        push_str(&mut s, ">:");
        s
    }

    /// TEXTEDITMODE reads a typed value.
    pub fn wants_text_input(&self) -> (b: bool)
        ensures
            b,
    {
        true
    }

    /// Typed input: 0 / M / MULTIPLE or 1 / S / SINGLE (any case) set the
    /// variable, blank input cancels, anything else is refused with a message.
    pub fn on_text_input(&mut self, text: &str) -> (r: Option<CmdResult>)
        ensures
            final(self)@ == old(self)@,
            r matches Some(c) && match texteditmode_value(text@) {
                None => c == CmdResult::Cancel,
                Some(Some(single)) => c == CmdResult::SetTexteditMode(single),
                Some(None) => c matches CmdResult::Measurement(m) && m@
                    == "Requires 0 OR 1 OR MULTIPLE OR SINGLE"@,
            },
    {
        let v = chars_of(text);
        let (a, b) = trim_bounds(&v, 0, v.len());
        proof {
            assert(v@.subrange(0, v@.len() as int) =~= v@);
        }
        if a == b {
            return Some(CmdResult::Cancel);
        }
        if keyword_at(&v, a, b, &['0']) || keyword_at(&v, a, b, &['m']) || keyword_at(
            &v,
            a,
            b,
            &['m', 'u', 'l', 't', 'i', 'p', 'l', 'e'],
        ) {
            return Some(CmdResult::SetTexteditMode(false));
        } else if keyword_at(&v, a, b, &['1']) || keyword_at(&v, a, b, &['s']) || keyword_at(
            &v,
            a,
            b,
            &['s', 'i', 'n', 'g', 'l', 'e'],
        ) {
            return Some(CmdResult::SetTexteditMode(true));
        }
        Some(CmdResult::Measurement("Requires 0 OR 1 OR MULTIPLE OR SINGLE".to_owned()))
    }

    /// A viewport click changes nothing.
    pub fn on_point(&mut self) -> (r: CmdResult)
        ensures
            final(self)@ == old(self)@,
            r == CmdResult::NeedPoint,
    {
        CmdResult::NeedPoint
    }

    /// Enter keeps the present value and ends the command.
    pub fn on_enter(&mut self) -> (r: CmdResult)
        ensures
            final(self)@ == old(self)@,
            r == CmdResult::Cancel,
    {
        CmdResult::Cancel
    }

    /// Escape ends the command.
    pub fn on_escape(&mut self) -> (r: CmdResult)
        ensures
            final(self)@ == old(self)@,
            r == CmdResult::Cancel,
    {
        CmdResult::Cancel
    }

    /// The overlay shows a plain value.
    pub fn dyn_field(&self) -> (d: DynField)
        ensures
            d == DynField::Scalar,
    {
        DynField::Scalar
    }
}

} // verus!
