//! Envelopes exchanged between the host and a plugin process.

use vstd::prelude::*;
use crate::manifest::OwnedPluginManifest;

verus! {

/// Responses the plugin runner sends back for a host request.
#[derive(Debug, Clone, PartialEq)]
pub enum HostResponse {
    Bool(bool),
    Text(String),
    Manifest(OwnedPluginManifest),
    Error(String),
}

} // verus!
