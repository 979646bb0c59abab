//! Command-line options and the GUI startup configuration drawn from them.
//!
//! Parsing the arguments is the program's business; these are the values it
//! fills in.

use vstd::prelude::*;
use std::path::PathBuf;

verus! {

/// Open CAD Studio command-line options.
#[derive(Debug)]
pub struct Cli {
    /// CAD file to open at startup (.dwg / .dxf). Also used by the OS file
    /// association when a drawing is double-clicked.
    pub file: Option<PathBuf>,
    /// Start with a new empty drawing, ignoring any file argument.
    pub new: bool,
    /// Open read-only: editing is allowed but saving is disabled.
    pub read_only: bool,
    /// Restrict the GPU backend (e.g. dx12, vulkan, gl, metal).
    pub backend: Option<String>,
    /// Safe mode: force the GL backend, for flaky/hybrid GPU drivers.
    pub safe_mode: bool,
    /// Run the headless JSON automation server (stdin/stdout, or --port).
    pub serve: bool,
    /// TCP port for --serve (defaults to stdin/stdout).
    pub port: Option<u16>,
    /// Headless convert: read IN, write OUT (format from OUT's extension), exit.
    pub export: Option<Vec<PathBuf>>,
    /// Run a command script at startup: one command line per line of FILE.
    pub script: Option<PathBuf>,
    /// Log level (error|warn|info|debug|trace).
    pub log: Option<String>,
    /// Internal: run as the plugin runner child process (socket, library).
    pub ocs_plugin_runner: Option<Vec<String>>,
}

impl Default for Cli {
    /// No file, every switch off, no option given.
    fn default() -> (c: Cli)
        ensures
            c.file is None,
            !c.new && !c.read_only && !c.safe_mode && !c.serve,
            c.backend is None && c.port is None && c.export is None,
            c.script is None && c.log is None && c.ocs_plugin_runner is None,
    {
        Cli {
            file: None,
            new: false,
            read_only: false,
            backend: None,
            safe_mode: false,
            serve: false,
            port: None,
            export: None,
            script: None,
            log: None,
            ocs_plugin_runner: None,
        }
    }
}

/// GUI startup configuration, handed from `main` to the GUI at boot.
#[derive(Debug, Clone)]
pub struct GuiConfig {
    /// File to open on launch (`None` for a blank session).
    pub file: Option<PathBuf>,
    /// Open a fresh drawing tab on launch instead of the welcome screen.
    pub new: bool,
    /// Saving disabled for this session.
    pub read_only: bool,
    /// Command lines to run once the editor is up.
    pub script_lines: Vec<String>,
}

impl Default for GuiConfig {
    /// A blank session: no file, no new tab, saving allowed, no script.
    fn default() -> (g: GuiConfig)
        ensures
            g.file is None,
            !g.new,
            !g.read_only,
            g.script_lines@.len() == 0,
    {
        GuiConfig { file: None, new: false, read_only: false, script_lines: Vec::new() }
    }
}

/// The GUI config that was set at startup, or a default empty one when none
/// was (e.g. tests).
pub fn gui_config(stored: Option<&GuiConfig>) -> (g: GuiConfig)
    ensures
        stored is None ==> g.file is None && !g.new && !g.read_only && g.script_lines@.len() == 0,
        stored matches Some(s) ==> g.new == s.new && g.read_only == s.read_only && g.file == s.file
            && g.script_lines@ == s.script_lines@,
{
    match stored {
        Some(s) => GuiConfig {
            file: clone_path(&s.file),
            new: s.new,
            read_only: s.read_only,
            script_lines: s.script_lines.clone(),
        },
        None => GuiConfig::default(),
    }
}

fn clone_path(p: &Option<PathBuf>) -> (r: Option<PathBuf>)
    ensures
        r == *p,
{
    match p {
        Some(x) => Some(x.clone()),
        None => None,
    }
}

} // verus!
