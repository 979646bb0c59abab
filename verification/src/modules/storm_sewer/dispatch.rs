//! Which commands Storm Sewer consumes, and what each one is.

use vstd::prelude::*;
use crate::plugin::host::{HostEffect, HostSession};
use crate::text_util::{chars_of, str_eq, str_starts_with, string_of_range, trim, trim_bounds};

verus! {

/// A command Storm Sewer consumes.
#[derive(Clone, Copy, Debug, PartialEq, Eq, Structural)]
pub enum StormCommand {
    /// `SS_ANALYZE`: analyse the drawn network, label it and style the results.
    Analyze,
    /// `SS_REPORT`: print the analysis report.
    Report,
    /// `SS_MULTIRP`: print the report for several return periods.
    MultiRp,
    /// `SS_PROFILE`: draw the hydraulic grade line profile.
    Profile,
    /// `SS_SIZE`: resize pipes that fail the sizing criteria.
    Size,
    /// `SS_INLET`: place an inlet structure.
    PlaceInlet,
    /// `SS_JUNCTION`: place a junction structure.
    PlaceJunction,
    /// `SS_OUTFALL`: place an outfall structure.
    PlaceOutfall,
    /// `SS_PIPE`: draw a pipe run between structures.
    PlacePipe,
    /// `SS_CATCHMENT`: tag a catchment polygon to an inlet.
    TagCatchment,
    /// `SS_APPLYTC`: update inlet times of concentration from the network.
    ApplyTc,
    /// `SS_LANDXML` / `SS_IMPORTXML`: import a LandXML pipe network.
    ImportLandXml,
    /// `SS_PARAMS [settings]`: show or change the analysis parameters.
    Params,
}

/// The command `cmd` names, if Storm Sewer consumes it.
pub open spec fn storm_route(cmd: Seq<char>) -> Option<StormCommand> {
    if cmd == "SS_ANALYZE"@ {
        Some(StormCommand::Analyze)
    } else if cmd == "SS_REPORT"@ {
        Some(StormCommand::Report)
    } else if cmd == "SS_MULTIRP"@ {
        Some(StormCommand::MultiRp)
    } else if cmd == "SS_PROFILE"@ {
        Some(StormCommand::Profile)
    } else if cmd == "SS_SIZE"@ {
        Some(StormCommand::Size)
    } else if cmd == "SS_INLET"@ {
        Some(StormCommand::PlaceInlet)
    } else if cmd == "SS_JUNCTION"@ {
        Some(StormCommand::PlaceJunction)
    } else if cmd == "SS_OUTFALL"@ {
        Some(StormCommand::PlaceOutfall)
    } else if cmd == "SS_PIPE"@ {
        Some(StormCommand::PlacePipe)
    } else if cmd == "SS_CATCHMENT"@ {
        Some(StormCommand::TagCatchment)
    } else if cmd == "SS_APPLYTC"@ {
        Some(StormCommand::ApplyTc)
    } else if cmd == "SS_LANDXML"@ || cmd == "SS_IMPORTXML"@ {
        Some(StormCommand::ImportLandXml)
    } else if cmd == "SS_PARAMS"@ || (cmd.len() >= 10 && cmd.subrange(0, 10) == "SS_PARAMS "@) {
        Some(StormCommand::Params)
    } else {
        None
    }
}

/// Which Storm Sewer command `cmd` is; `None` when Storm Sewer does not
/// consume it (every consumed command starts with `SS_`).
pub fn route(cmd: &str) -> (r: Option<StormCommand>)
    ensures
        r == storm_route(cmd@),
{
    if str_eq(cmd, "SS_ANALYZE") {
        Some(StormCommand::Analyze)
    } else if str_eq(cmd, "SS_REPORT") {
        Some(StormCommand::Report)
    } else if str_eq(cmd, "SS_MULTIRP") {
        Some(StormCommand::MultiRp)
    } else if str_eq(cmd, "SS_PROFILE") {
        Some(StormCommand::Profile)
    } else if str_eq(cmd, "SS_SIZE") {
        Some(StormCommand::Size)
    } else if str_eq(cmd, "SS_INLET") {
        Some(StormCommand::PlaceInlet)
    } else if str_eq(cmd, "SS_JUNCTION") {
        Some(StormCommand::PlaceJunction)
    } else if str_eq(cmd, "SS_OUTFALL") {
        Some(StormCommand::PlaceOutfall)
    } else if str_eq(cmd, "SS_PIPE") {
        Some(StormCommand::PlacePipe)
    } else if str_eq(cmd, "SS_CATCHMENT") {
        Some(StormCommand::TagCatchment)
    } else if str_eq(cmd, "SS_APPLYTC") {
        Some(StormCommand::ApplyTc)
    } else if str_eq(cmd, "SS_LANDXML") || str_eq(cmd, "SS_IMPORTXML") {
        Some(StormCommand::ImportLandXml)
    } else if str_eq(cmd, "SS_PARAMS") || str_starts_with(cmd, "SS_PARAMS ") {
        proof {
            reveal_strlit("SS_PARAMS ");
        }
        Some(StormCommand::Params)
    } else {
        proof {
            reveal_strlit("SS_PARAMS ");
        }
        None
    }
}

/// The settings typed after `SS_PARAMS`, trimmed.
pub open spec fn params_argument_spec(cmd: Seq<char>) -> Seq<char> {
    if cmd.len() >= 9 && cmd.subrange(0, 9) == "SS_PARAMS"@ {
        trim(cmd.subrange(9, cmd.len() as int))
    } else {
        trim(cmd)
    }
}

/// The settings typed after `SS_PARAMS`, trimmed (`SS_PARAMS` alone gives
/// an empty string).
pub fn params_argument(cmd: &str) -> (r: String)
    ensures
        r@ == params_argument_spec(cmd@),
{
    let v = chars_of(cmd);
    let start: usize = if str_starts_with(cmd, "SS_PARAMS") {
        proof {
            reveal_strlit("SS_PARAMS");
        }
        9
    } else {
        proof {
            reveal_strlit("SS_PARAMS");
        }
        0
    };
    let (a, b) = trim_bounds(&v, start, v.len());
    proof {
        if start == 0 {
            assert(v@.subrange(0, v@.len() as int) =~= v@);
        }
    }
    string_of_range(&v, a, b)
}

/// Offer `cmd` to Storm Sewer: when it is one of its commands, hand the
/// command's document work to the host and report it consumed.
pub fn handle(host: &mut HostSession, cmd: &str) -> (consumed: bool)
    ensures
        consumed == storm_route(cmd@) is Some,
        final(host).tab() == old(host).tab(),
        consumed ==> final(host).effects().drop_last() == old(host).effects(),
        consumed ==> (final(host).effects().last() matches HostEffect::Command(c) && c@ == cmd@),
        !consumed ==> final(host).effects() == old(host).effects(),
{
    match route(cmd) {
        Some(_) => {
            host.push_command(cmd);
            true
        },
        None => false,
    }
}

/// Storm Sewer consumes only commands that carry its manifest's `SS_` prefix.
pub proof fn lemma_routed_commands_are_prefixed(cmd: Seq<char>)
    requires
        storm_route(cmd) is Some,
    ensures
        cmd.len() >= 3 && cmd.subrange(0, 3) == "SS_"@,
{
    reveal_strlit("SS_");
    reveal_strlit("SS_ANALYZE");
    reveal_strlit("SS_REPORT");
    reveal_strlit("SS_MULTIRP");
    reveal_strlit("SS_PROFILE");
    reveal_strlit("SS_SIZE");
    reveal_strlit("SS_INLET");
    reveal_strlit("SS_JUNCTION");
    reveal_strlit("SS_OUTFALL");
    reveal_strlit("SS_PIPE");
    reveal_strlit("SS_CATCHMENT");
    reveal_strlit("SS_APPLYTC");
    reveal_strlit("SS_LANDXML");
    reveal_strlit("SS_IMPORTXML");
    reveal_strlit("SS_PARAMS");
    reveal_strlit("SS_PARAMS ");
    assert(cmd.subrange(0, 3) =~= "SS_"@);
}

} // verus!
