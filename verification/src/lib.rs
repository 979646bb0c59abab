//! The verified core of Open CAD Studio: plugin packaging and hosting, the
//! plugin transport, the MText editor's text model, and the text-driven
//! commands and ribbon definitions.

pub mod text_util;
pub mod mtext_editor;
pub mod text_support;
pub mod manifest;
pub mod plugin;
pub mod profiling;
pub mod protocol;
pub mod cli;
pub mod command;
pub mod entities;
pub mod modules;
pub mod ribbon;
pub mod transport;
