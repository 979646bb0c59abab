//! Plugin discovery, registration and the host surface plugins call.

pub mod toml;
pub mod external;
pub mod registry;
pub mod host;
