//! The Draw tools.

pub mod explode;
pub mod line;
