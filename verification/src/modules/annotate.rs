//! The Annotate tab: text, multiline text, leaders and text editing.

pub mod leader_cmd;
pub mod mleader_cmd;
pub mod mtext;
pub mod text;
pub mod textedit;
