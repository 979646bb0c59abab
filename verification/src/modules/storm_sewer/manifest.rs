//! Storm Sewer plugin identity.

use vstd::prelude::*;
use crate::manifest::{ApiVersion, PluginManifest, API_VERSION};

verus! {

pub const PLUGIN_ID: &'static str = "opencad.storm_sewer";

/// `m` is the Storm Sewer manifest.
pub open spec fn is_storm_manifest(m: PluginManifest) -> bool {
    &&& m.id@ == "opencad.storm_sewer"@
    &&& m.name@ == "Storm Sewer"@
    &&& m.version@ == "0.2.0"@
    &&& m.description@ == "Gravity storm-drain network design and analysis"@
    &&& m.api_version.major == API_VERSION
    &&& m.ribbon_order == 50
    &&& m.xdata_apps@.len() == 3
    &&& m.xdata_apps@[0]@ == "STORMSEWER_STRUCT"@
    &&& m.xdata_apps@[1]@ == "STORMSEWER_PIPE"@
    &&& m.xdata_apps@[2]@ == "STORMSEWER_CATCHMENT"@
    &&& m.command_prefixes@.len() == 1
    &&& m.command_prefixes@[0]@ == "SS_"@
}

/// The Storm Sewer manifest.
pub fn manifest() -> (m: PluginManifest)
    ensures
        is_storm_manifest(m),
{
    let xdata: &'static [&'static str] = &["STORMSEWER_STRUCT", "STORMSEWER_PIPE", "STORMSEWER_CATCHMENT"];
    let prefixes: &'static [&'static str] = &["SS_"];
    PluginManifest {
        id: PLUGIN_ID,
        name: "Storm Sewer",
        version: "0.2.0",
        description: "Gravity storm-drain network design and analysis",
        api_version: ApiVersion::current(),
        ribbon_order: 50,
        xdata_apps: xdata,
        command_prefixes: prefixes,
    }
}

} // verus!
