//! Entity-level helpers that do not depend on geometry.

pub mod solid3d;
pub mod properties;
pub mod labels;
