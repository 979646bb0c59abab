//! Storm Sewer add-on (`opencad.storm_sewer`) — gravity storm-drain design
//! and analysis: its identity, its ribbon tab, and which commands it takes.

use vstd::prelude::*;
use crate::ribbon::{command_tool, is_command_tool, item_ids, CadModule, RibbonGroup, RibbonItem};

pub mod dispatch;
pub mod manifest;
pub mod plugin;

verus! {

/// The Storm Sewer ribbon tab.
pub struct StormSewerModule;

/// The command names Storm Sewer answers to, for command-line autocomplete.
pub fn command_names() -> (r: crate::command::CommandRegistration)
    ensures
        crate::manifest::strs_view(r.names@) == seq![
            "SS_INLET"@, "SS_JUNCTION"@, "SS_OUTFALL"@, "SS_PIPE"@, "SS_CATCHMENT"@, "SS_APPLYTC"@,
            "SS_LANDXML"@, "SS_IMPORTXML"@, "SS_ANALYZE"@, "SS_SIZE"@, "SS_PARAMS"@, "SS_MULTIRP"@,
            "SS_REPORT"@, "SS_PROFILE"@,
        ],
{
    crate::command::CommandRegistration {
        names: &[
            "SS_INLET",
            "SS_JUNCTION",
            "SS_OUTFALL",
            "SS_PIPE",
            "SS_CATCHMENT",
            "SS_APPLYTC",
            "SS_LANDXML",
            "SS_IMPORTXML",
            "SS_ANALYZE",
            "SS_SIZE",
            "SS_PARAMS",
            "SS_MULTIRP",
            "SS_REPORT",
            "SS_PROFILE",
        ],
    }
}

/// The ids of the Network group's tools.
pub open spec fn network_ids() -> Seq<Seq<char>> {
    seq![
        "SS_INLET"@,
        "SS_JUNCTION"@,
        "SS_OUTFALL"@,
        "SS_PIPE"@,
        "SS_CATCHMENT"@,
        "SS_LANDXML"@,
    ]
}

/// The ids of the Analysis group's tools.
pub open spec fn analysis_ids() -> Seq<Seq<char>> {
    seq![
        "SS_ANALYZE"@,
        "SS_SIZE"@,
        "SS_PARAMS"@,
        "SS_APPLYTC"@,
        "SS_MULTIRP"@,
        "SS_REPORT"@,
        "SS_PROFILE"@,
    ]
}

impl StormSewerModule {
    /// Network: place structures and connect them with pipes.
    pub fn network_group(&self) -> (g: RibbonGroup)
        ensures
            g.title@ == "Network"@,
            item_ids(g.tools@) == network_ids(),
            g.tools@[0] matches RibbonItem::LargeTool(t) && is_command_tool(t, "SS_INLET"@, "Inlet"@, "inlet.svg"@),
            g.tools@[3] matches RibbonItem::LargeTool(t) && is_command_tool(t, "SS_PIPE"@, "Pipe\nRun"@, "pipe.svg"@),
    {
        let tools = vec![
            RibbonItem::LargeTool(command_tool("SS_INLET", "Inlet", "inlet.svg")),
            RibbonItem::LargeTool(command_tool("SS_JUNCTION", "Junction", "junction.svg")),
            RibbonItem::LargeTool(command_tool("SS_OUTFALL", "Outfall", "outfall.svg")),
            RibbonItem::LargeTool(command_tool("SS_PIPE", "Pipe\nRun", "pipe.svg")),
            RibbonItem::Tool(command_tool("SS_CATCHMENT", "Catchment", "inlet.svg")),
            RibbonItem::Tool(command_tool("SS_LANDXML", "Import\nLandXML", "pipe.svg")),
        ];
        proof {
            assert(item_ids(tools@) =~= network_ids());
        }
        RibbonGroup { title: "Network", tools }
    }

    /// Analysis: run the engine and review results.
    pub fn analysis_group(&self) -> (g: RibbonGroup)
        ensures
            g.title@ == "Analysis"@,
            item_ids(g.tools@) == analysis_ids(),
    {
        let tools = vec![
            RibbonItem::LargeTool(command_tool("SS_ANALYZE", "Analyze", "analyze.svg")),
            RibbonItem::LargeTool(command_tool("SS_SIZE", "Size\nPipes", "pipe.svg")),
            RibbonItem::Tool(command_tool("SS_PARAMS", "Params", "analyze.svg")),
            RibbonItem::Tool(command_tool("SS_APPLYTC", "Apply Tc", "analyze.svg")),
            RibbonItem::Tool(command_tool("SS_MULTIRP", "Multi-RP", "report.svg")),
            RibbonItem::Tool(command_tool("SS_REPORT", "Report", "report.svg")),
            RibbonItem::Tool(command_tool("SS_PROFILE", "Profile", "profile.svg")),
        ];
        proof {
            assert(item_ids(tools@) =~= analysis_ids());
        }
        RibbonGroup { title: "Analysis", tools }
    }
}

impl CadModule for StormSewerModule {
    fn id(&self) -> (r: &'static str)
        ensures
            r@ == "storm_sewer"@,
    {
        "storm_sewer"
    }

    fn title(&self) -> (r: &'static str)
        ensures
            r@ == "Storm Sewer"@,
    {
        "Storm Sewer"
    }

    fn ribbon_groups(&self) -> (r: Vec<RibbonGroup>)
        ensures
            r@.len() == 2,
            r@[0].title@ == "Network"@,
            item_ids(r@[0].tools@) == network_ids(),
            r@[1].title@ == "Analysis"@,
            item_ids(r@[1].tools@) == analysis_ids(),
    {
        vec![self.network_group(), self.analysis_group()]
    }
}

} // verus!
