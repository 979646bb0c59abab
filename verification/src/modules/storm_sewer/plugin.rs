//! Storm Sewer as a built-in add-on package.

use vstd::prelude::*;
use crate::manifest::PluginManifest;
use crate::plugin::host::{BuiltinPlugin, HostSession};
use super::{dispatch, manifest, StormSewerModule};

verus! {

/// The Storm Sewer package.
pub struct StormSewerPlugin;

impl BuiltinPlugin for StormSewerPlugin {
    type Ribbon = StormSewerModule;

    fn manifest(&self) -> (m: PluginManifest)
        ensures
            m.id@ == "opencad.storm_sewer"@,
            m.ribbon_order == 50,
    {
        manifest::manifest()
    }

    fn ribbon(&self) -> StormSewerModule {
        StormSewerModule
    }

    fn dispatch(&self, host: &mut HostSession, cmd: &str) -> (consumed: bool)
        ensures
            consumed == dispatch::storm_route(cmd@) is Some,
            final(host).tab() == old(host).tab(),
    {
        dispatch::handle(host, cmd)
    }
}

} // verus!
