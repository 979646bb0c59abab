//! The Home tab tools.

pub mod divide;
pub mod join;
pub mod rotate;
