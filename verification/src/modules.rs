//! Ribbon modules and the commands behind their tools.

pub mod annotate;
pub mod draw;
pub mod home;
pub mod storm_sewer;
pub mod plugin_template;
