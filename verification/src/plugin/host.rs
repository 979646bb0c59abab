//! The surface a plugin uses while it handles a command: one document tab,
//! the command line and undo.
//!
//! A session records what the plugin asks of the host, in order; the host
//! applies the requests to its tab, command line and undo stack afterwards.

use vstd::prelude::*;
use crate::manifest::PluginManifest;
use crate::ribbon::CadModule;

verus! {

/// One request a plugin made of the host.
#[derive(Clone, Debug, PartialEq)]
pub enum HostEffect {
    /// Redraw the tab's geometry.
    BumpGeometry,
    /// Snapshot the document for undo under this label.
    PushUndo(String),
    /// Mark the tab's document as modified.
    SetDirty,
    /// An informational command-line message.
    Info(String),
    /// A line of command-line output.
    Output(String),
    /// A command-line error message.
    Error(String),
    /// A command the plugin consumed whose work needs the document itself;
    /// the host performs it.
    Command(String),
}

/// A plugin's session with one document tab.
pub struct HostSession {
    tab: usize,
    effects: Vec<HostEffect>,
}

impl HostSession {
    /// The tab the session works on.
    pub closed spec fn tab(&self) -> usize {
        self.tab
    }

    /// The requests made so far, oldest first.
    pub closed spec fn effects(&self) -> Seq<HostEffect> {
        self.effects@
    }

    /// A session on tab `tab` with no requests yet.
    pub fn new(tab: usize) -> (s: HostSession)
        ensures
            s.tab() == tab,
            s.effects() == Seq::<HostEffect>::empty(),
    {
        HostSession { tab, effects: Vec::new() }
    }

    /// The tab the session works on.
    pub fn tab_index(&self) -> (t: usize)
        ensures
            t == self.tab(),
    {
        self.tab
    }

    /// The requests made so far, oldest first.
    pub fn requests(&self) -> (r: &Vec<HostEffect>)
        ensures
            r@ == self.effects(),
    {
        &self.effects
    }

    fn record(&mut self, e: HostEffect)
        ensures
            final(self).tab() == old(self).tab(),
            final(self).effects() == old(self).effects().push(e),
    {
        self.effects.push(e);
    }

    /// Ask for the tab's geometry to be redrawn.
    pub fn bump_geometry(&mut self)
        ensures
            final(self).tab() == old(self).tab(),
            final(self).effects() == old(self).effects().push(HostEffect::BumpGeometry),
    {
        self.record(HostEffect::BumpGeometry);
    }

    /// Ask for an undo snapshot labelled `label`.
    pub fn push_undo(&mut self, label: &str)
        ensures
            final(self).tab() == old(self).tab(),
            final(self).effects().len() == old(self).effects().len() + 1,
            final(self).effects().drop_last() == old(self).effects(),
            final(self).effects().last() matches HostEffect::PushUndo(l) && l@ == label@,
    {
        self.record(HostEffect::PushUndo(label.to_owned()));
    }

    /// Mark the tab's document as modified.
    pub fn set_dirty(&mut self)
        ensures
            final(self).tab() == old(self).tab(),
            final(self).effects() == old(self).effects().push(HostEffect::SetDirty),
    {
        self.record(HostEffect::SetDirty);
    }

    /// Show an informational message.
    pub fn push_info(&mut self, msg: &str)
        ensures
            final(self).tab() == old(self).tab(),
            final(self).effects().len() == old(self).effects().len() + 1,
            final(self).effects().drop_last() == old(self).effects(),
            final(self).effects().last() matches HostEffect::Info(m) && m@ == msg@,
    {
        self.record(HostEffect::Info(msg.to_owned()));
    }

    /// Print a line of output.
    pub fn push_output(&mut self, msg: &str)
        ensures
            final(self).tab() == old(self).tab(),
            final(self).effects().len() == old(self).effects().len() + 1,
            final(self).effects().drop_last() == old(self).effects(),
            final(self).effects().last() matches HostEffect::Output(m) && m@ == msg@,
    {
        self.record(HostEffect::Output(msg.to_owned()));
    }

    /// Hand a consumed command's document work to the host.
    pub fn push_command(&mut self, cmd: &str)
        ensures
            final(self).tab() == old(self).tab(),
            final(self).effects().len() == old(self).effects().len() + 1,
            final(self).effects().drop_last() == old(self).effects(),
            final(self).effects().last() matches HostEffect::Command(m) && m@ == cmd@,
    {
        self.record(HostEffect::Command(cmd.to_owned()));
    }

    /// Show an error message.
    pub fn push_error(&mut self, msg: &str)
        ensures
            final(self).tab() == old(self).tab(),
            final(self).effects().len() == old(self).effects().len() + 1,
            final(self).effects().drop_last() == old(self).effects(),
            final(self).effects().last() matches HostEffect::Error(m) && m@ == msg@,
    {
        self.record(HostEffect::Error(msg.to_owned()));
    }
}

/// An add-on package built into the host: its manifest, its ribbon tab, and
/// the commands it consumes.
pub trait BuiltinPlugin {
    /// The package's manifest.
    fn manifest(&self) -> PluginManifest;

    /// The package's ribbon tab type.
    type Ribbon: CadModule;

    /// The package's ribbon tab.
    fn ribbon(&self) -> Self::Ribbon;

    /// Offer `cmd` to the package; true when it consumed the command.
    fn dispatch(&self, host: &mut HostSession, cmd: &str) -> bool;
}

} // verus!
