//! What an interactive command answers the host, and the small pieces of
//! command-line input handling that commands share.

use vstd::prelude::*;
use crate::manifest::strs_view;
use crate::text_support::{ascii_lower, to_ascii_lower};

verus! {

/// What kind of value the active command is currently asking for. Drives
/// the dynamic-input overlay so the tooltip shows the relevant quantity
/// (coordinates for a point pick, a single length for a radius/distance
/// prompt, degrees for an angle prompt, a plain number for a setting).
#[derive(Clone, Copy, PartialEq, Eq, Debug, Structural)]
pub enum DynField {
    /// A position — X/Y coordinates (or distance+angle relative to the
    /// last point). The default for every command step.
    Point,
    /// A single linear distance (radius, length, offset) measured from
    /// the last point.
    Distance,
    /// An angle, shown in degrees, measured from the last point.
    Angle,
    /// A single plain value, such as a system-variable setting.
    Scalar,
}

impl Default for DynField {
    fn default() -> (d: DynField)
        ensures
            d == DynField::Point,
    {
        DynField::Point
    }
}

/// What a command step asks the host to do next (the answers the text
/// commands of this crate give).
#[derive(Clone, Debug, PartialEq)]
pub enum CmdResult {
    /// Command is still waiting for input; show the updated prompt.
    NeedPoint,
    /// Cancel: discard any preview and end the command.
    Cancel,
    /// Revert the last document edit made while the command ran.
    UndoDocument,
    /// Suspend the command and open the in-place editor on the entity with
    /// this handle; the command resumes when the editor closes.
    SuspendForTextEdit { handle: u64 },
    /// Set the TEXTEDITMODE system variable (true = single).
    SetTexteditMode(bool),
    /// Print a message to the command line and end the command.
    Measurement(String),
    /// Place points at `n` equal intervals along the entity `handle`.
    DivideEntity { handle: u64, n: usize },
    /// Try to join the given entities into fewer merged entities.
    JoinEntities(Vec<u64>),
}

/// The command names (with aliases) that one command module answers to, for
/// command-line autocomplete.
#[derive(Clone, Copy, Debug)]
pub struct CommandRegistration {
    pub names: &'static [&'static str],
}

/// `t` equals the lower-case keyword `kw` ignoring ASCII case. For keywords
/// without the letter `k` this is `t.to_lowercase() == kw`: no other
/// character lower-cases into ASCII.
pub open spec fn is_keyword(t: Seq<char>, kw: Seq<char>) -> bool {
    t.len() == kw.len() && forall|i: int| 0 <= i < t.len() ==> ascii_lower(#[trigger] t[i]) == kw[i]
}

/// `v[lo..hi]` is the keyword `kw`, ignoring ASCII case.
pub fn keyword_at(v: &Vec<char>, lo: usize, hi: usize, kw: &[char]) -> (b: bool)
    requires
        lo <= hi <= v@.len(),
    ensures
        b == is_keyword(v@.subrange(lo as int, hi as int), kw@),
{
    let ghost t = v@.subrange(lo as int, hi as int);
    if hi - lo != kw.len() {
        return false;
    }
    let mut i: usize = 0;
    while i < kw.len()
        invariant
            hi - lo == kw@.len(),
            lo <= hi <= v@.len(),
            t == v@.subrange(lo as int, hi as int),
            i <= kw@.len(),
            forall|j: int| 0 <= j < i ==> ascii_lower(#[trigger] t[j]) == kw@[j],
        decreases kw@.len() - i,
    {
        if to_ascii_lower(v[lo + i]) != kw[i] {
            assert(t[i as int] == v@[lo + i]);
            return false;
        }
        assert(t[i as int] == v@[lo + i]);
        i = i + 1;
    }
    true
}

/// The names of every registration, in order, with aliases.
pub open spec fn flat_names(regs: Seq<CommandRegistration>) -> Seq<Seq<char>>
    decreases regs.len(),
{
    if regs.len() == 0 {
        Seq::empty()
    } else {
        flat_names(regs.drop_last()) + strs_view(regs.last().names@)
    }
}

/// Every command name the command line answers to, with aliases, module by
/// module.
pub open spec fn registered_names() -> Seq<Seq<char>> {
    seq![
        "L"@,
        "LINE"@,
        "DT"@,
        "T"@,
        "TEXT"@,
        "TEXTEDIT"@,
        "TEDIT"@,
        "TEXTEDITMODE"@,
        "MT"@,
        "MTEXT"@,
        "MLD"@,
        "MLEADER"@,
        "SS_INLET"@,
        "SS_JUNCTION"@,
        "SS_OUTFALL"@,
        "SS_PIPE"@,
        "SS_CATCHMENT"@,
        "SS_APPLYTC"@,
        "SS_LANDXML"@,
        "SS_IMPORTXML"@,
        "SS_ANALYZE"@,
        "SS_SIZE"@,
        "SS_PARAMS"@,
        "SS_MULTIRP"@,
        "SS_REPORT"@,
        "SS_PROFILE"@,
        "DO"@,
        "DONUT"@,
        "HATCHEDIT"@,
        "HE"@,
        "DIV"@,
        "DIVIDE"@,
        "ME"@,
        "MEASURE"@,
        "PE"@,
        "PEDIT"@,
        "J"@,
        "JOIN"@,
        "AL"@,
        "ALIGN"@,
        "LEN"@,
        "LENGTHEN"@,
        "EXT"@,
        "EXTRUDE"@,
        "LOFT"@,
        "REV"@,
        "REVOLVE"@,
        "SWEEP"@,
        "SVGOUT"@,
        "EXPORTSVG"@
    ]
}

/// Every command module's registration. The host gathers them when it
/// starts; the list here is in module order.
pub fn registrations() -> (r: Vec<CommandRegistration>)
    ensures
        flat_names(r@) == registered_names(),
{
    let r = vec![
        CommandRegistration { names: &["L", "LINE"] },
        CommandRegistration { names: &["DT", "T", "TEXT"] },
        CommandRegistration { names: &["TEXTEDIT", "TEDIT", "TEXTEDITMODE"] },
        CommandRegistration { names: &["MT", "MTEXT"] },
        CommandRegistration { names: &["MLD", "MLEADER"] },
        crate::modules::storm_sewer::command_names(),
        CommandRegistration { names: &["DO", "DONUT"] },
        CommandRegistration { names: &["HATCHEDIT", "HE"] },
        CommandRegistration { names: &["DIV", "DIVIDE"] },
        CommandRegistration { names: &["ME", "MEASURE"] },
        CommandRegistration { names: &["PE", "PEDIT"] },
        CommandRegistration { names: &["J", "JOIN"] },
        CommandRegistration { names: &["AL", "ALIGN"] },
        CommandRegistration { names: &["LEN", "LENGTHEN"] },
        CommandRegistration { names: &["EXT", "EXTRUDE"] },
        CommandRegistration { names: &["LOFT"] },
        CommandRegistration { names: &["REV", "REVOLVE"] },
        CommandRegistration { names: &["SWEEP"] },
        CommandRegistration { names: &["SVGOUT", "EXPORTSVG"] },
    ];
    proof {
        reveal_with_fuel(flat_names, 20);
        assert(flat_names(r@) =~= registered_names());
    }
    r
}

/// The names of the given registrations, in order, with aliases.
pub fn names_of(regs: &Vec<CommandRegistration>) -> (r: Vec<&'static str>)
    ensures
        strs_view(r@) == flat_names(regs@),
{
    let mut out: Vec<&'static str> = Vec::new();
    let mut i: usize = 0;
    proof {
        assert(regs@.take(0) =~= Seq::<CommandRegistration>::empty());
        assert(strs_view(out@) =~= Seq::<Seq<char>>::empty());
    }
    while i < regs.len()
        invariant
            i <= regs@.len(),
            strs_view(out@) == flat_names(regs@.take(i as int)),
        decreases regs@.len() - i,
    {
        let names = regs[i].names;
        let mut j: usize = 0;
        let ghost base = out@;
        proof {
            assert(names@.take(0) =~= Seq::<&str>::empty());
            assert(strs_view(base) + strs_view(names@.take(0)) =~= strs_view(base));
        }
        while j < names.len()
            invariant
                j <= names@.len(),
                strs_view(out@) == strs_view(base) + strs_view(names@.take(j as int)),
            decreases names@.len() - j,
        {
            let ghost prev = out@;
            out.push(names[j]);
            proof {
                prev.lemma_push_map_commute(|s: &str| s@, names@[j as int]);
                names@.take(j as int).lemma_push_map_commute(|s: &str| s@, names@[j as int]);
                assert(names@.take(j + 1) =~= names@.take(j as int).push(names@[j as int]));
                assert(strs_view(out@) =~= strs_view(base) + strs_view(names@.take(j + 1)));
            }
            j = j + 1;
        }
        proof {
            assert(names@.take(names@.len() as int) =~= names@);
            assert(regs@.take(i + 1).drop_last() =~= regs@.take(i as int));
            assert(regs@.take(i + 1).last() == regs@[i as int]);
        }
        i = i + 1;
    }
    proof {
        assert(regs@.take(regs@.len() as int) =~= regs@);
    }
    out
}

/// All registered command names, including aliases, for command-line
/// autocomplete.
pub fn all_registered_command_names() -> (r: Vec<&'static str>)
    ensures
        strs_view(r@) == registered_names(),
{
    let regs = registrations();
    names_of(&regs)
}

} // verus!
