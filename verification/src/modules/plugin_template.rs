//! The starting point for a new add-on package: copy this module, rename the
//! plugin, and fill in its commands.

use vstd::prelude::*;
use crate::manifest::{ApiVersion, PluginManifest, API_VERSION};
use crate::plugin::host::{BuiltinPlugin, HostEffect, HostSession};
use crate::ribbon::{item_ids, CadModule, IconKind, ModuleEvent, RibbonGroup, RibbonItem, ToolDef};
use crate::text_util::str_eq;

verus! {

pub const PLUGIN_ID: &'static str = "opencad.my_plugin";

/// The template package's manifest.
pub fn manifest() -> (m: PluginManifest)
    ensures
        m.id@ == "opencad.my_plugin"@,
        m.name@ == "My Plugin"@,
        m.version@ == "0.1.0"@,
        m.description@ == "Short description of what this add-on does"@,
        m.api_version.major == API_VERSION,
        m.ribbon_order == 60,
        m.xdata_apps@.len() == 1,
        m.xdata_apps@[0]@ == "MYPLUGIN_RECORD"@,
        m.command_prefixes@.len() == 1,
        m.command_prefixes@[0]@ == "MP_"@,
{
    let xdata: &'static [&'static str] = &["MYPLUGIN_RECORD"];
    let prefixes: &'static [&'static str] = &["MP_"];
    PluginManifest {
        id: PLUGIN_ID,
        name: "My Plugin",
        version: "0.1.0",
        description: "Short description of what this add-on does",
        api_version: ApiVersion::current(),
        ribbon_order: 60,
        xdata_apps: xdata,
        command_prefixes: prefixes,
    }
}

/// The command names the template answers to.
pub fn command_names() -> (r: crate::command::CommandRegistration)
    ensures
        crate::manifest::strs_view(r.names@) == seq!["MP_HELLO"@],
{
    crate::command::CommandRegistration { names: &["MP_HELLO"] }
}

/// The template's ribbon tab.
pub struct MyPluginModule;

impl CadModule for MyPluginModule {
    fn id(&self) -> (r: &'static str)
        ensures
            r@ == "my_plugin"@,
    {
        "my_plugin"
    }

    fn title(&self) -> (r: &'static str)
        ensures
            r@ == "My Plugin"@,
    {
        "My Plugin"
    }

    fn ribbon_groups(&self) -> (r: Vec<RibbonGroup>)
        ensures
            r@.len() == 1,
            r@[0].title@ == "Tools"@,
            item_ids(r@[0].tools@) == seq!["MP_HELLO"@],
            r@[0].tools@[0] matches RibbonItem::LargeTool(t) && t.label@ == "Hello"@ && t.icon
                == IconKind::Glyph("★"),
    {
        let t = ToolDef {
            id: "MP_HELLO",
            label: "Hello",
            icon: IconKind::Glyph("★"),
            event: ModuleEvent::Command("MP_HELLO".to_owned()),
        };
        let tools = vec![RibbonItem::LargeTool(t)];
        proof {
            assert(item_ids(tools@) =~= seq!["MP_HELLO"@]);
        }
        vec![RibbonGroup { title: "Tools", tools }]
    }
}

/// The template package.
pub struct MyPlugin;

impl BuiltinPlugin for MyPlugin {
    type Ribbon = MyPluginModule;

    fn manifest(&self) -> (m: PluginManifest)
        ensures
            m.id@ == "opencad.my_plugin"@,
            m.ribbon_order == 60,
    {
        manifest()
    }

    fn ribbon(&self) -> MyPluginModule {
        MyPluginModule
    }

    fn dispatch(&self, host: &mut HostSession, cmd: &str) -> (consumed: bool)
        ensures
            consumed == (cmd@ == "MP_HELLO"@),
            final(host).tab() == old(host).tab(),
    {
        handle(host, cmd)
    }
}

/// Offer `cmd` to the template: it consumes `MP_HELLO` and hands its work to
/// the host.
pub fn handle(host: &mut HostSession, cmd: &str) -> (consumed: bool)
    ensures
        consumed == (cmd@ == "MP_HELLO"@),
        final(host).tab() == old(host).tab(),
        consumed ==> final(host).effects().drop_last() == old(host).effects(),
        consumed ==> (final(host).effects().last() matches HostEffect::Command(c) && c@ == cmd@),
        !consumed ==> final(host).effects() == old(host).effects(),
{
    if str_eq(cmd, "MP_HELLO") {
        host.push_command(cmd);
        true
    } else {
        false
    }
}

} // verus!
