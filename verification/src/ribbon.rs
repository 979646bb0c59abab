//! The plain-data ribbon vocabulary a module (core tab or add-on) uses to
//! describe its tab: groups of tools, each firing a command.

use vstd::prelude::*;

verus! {

/// How a tool's icon is drawn.
#[derive(Clone, Copy, Debug, PartialEq, Eq)]
pub enum IconKind {
    /// An SVG icon, named by its file under the icon assets.
    Svg(&'static str),
    /// A text glyph drawn in place of an icon.
    Glyph(&'static str),
}

/// What activating a tool sends to the host.
#[derive(Clone, Debug, PartialEq, Eq)]
pub enum ModuleEvent {
    /// Run the named command, as if typed on the command line.
    Command(String),
}

/// One ribbon tool.
#[derive(Clone, Debug)]
pub struct ToolDef {
    pub id: &'static str,
    pub label: &'static str,
    pub icon: IconKind,
    pub event: ModuleEvent,
}

/// A tool placed in a ribbon group, at normal or large size.
#[derive(Clone, Debug)]
pub enum RibbonItem {
    Tool(ToolDef),
    LargeTool(ToolDef),
}

/// A titled group of tools on a ribbon tab.
#[derive(Clone, Debug)]
pub struct RibbonGroup {
    pub title: &'static str,
    pub tools: Vec<RibbonItem>,
}

/// A ribbon tab.
pub trait CadModule {
    /// Stable identifier of the tab.
    fn id(&self) -> &'static str;

    /// The tab's caption.
    fn title(&self) -> &'static str;

    /// The groups of tools on the tab, left to right.
    fn ribbon_groups(&self) -> Vec<RibbonGroup>;
}

/// `t` is the tool `id` with caption `label` and SVG icon `icon` that runs
/// the command `id`.
pub open spec fn is_command_tool(t: ToolDef, id: Seq<char>, label: Seq<char>, icon: Seq<char>) -> bool {
    &&& t.id@ == id
    &&& t.label@ == label
    &&& t.icon matches IconKind::Svg(n) && n@ == icon
    &&& t.event matches ModuleEvent::Command(c) && c@ == id
}

/// The tool `id` with caption `label` and SVG icon `icon`, firing the command
/// `id`.
pub fn command_tool(id: &'static str, label: &'static str, icon: &'static str) -> (t: ToolDef)
    ensures
        is_command_tool(t, id@, label@, icon@),
{
    ToolDef { id, label, icon: IconKind::Svg(icon), event: ModuleEvent::Command(id.to_owned()) }
}

/// The tool ids of `items`, in order.
pub open spec fn item_ids(items: Seq<RibbonItem>) -> Seq<Seq<char>> {
    items.map_values(
        |it: RibbonItem|
            match it {
                RibbonItem::Tool(t) => t.id@,
                RibbonItem::LargeTool(t) => t.id@,
            },
    )
}

} // verus!
