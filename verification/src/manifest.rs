//! Plugin identity and capability declaration, and the host API version
//! handshake.

use vstd::prelude::*;

verus! {

/// Host plugin API version. Bump when the host runtime surface breaks
/// compatibility.
pub const API_VERSION: u32 = 2;

/// A plugin API version (major number only).
#[derive(Clone, Copy, Debug, PartialEq, Eq)]
pub struct ApiVersion {
    pub major: u32,
}

impl ApiVersion {
    /// The API version this host implements.
    pub fn current() -> (v: ApiVersion)
        ensures
            v.major == API_VERSION,
    {
        ApiVersion { major: API_VERSION }
    }

    /// A package built against `host` can run here exactly when the major
    /// versions agree.
    pub fn is_compatible_with(host: ApiVersion) -> (b: bool)
        ensures
            b == (host.major == API_VERSION),
    {
        Self::current().major == host.major
    }
}

/// Static metadata every plugin supplies at registration time.
#[derive(Clone, Copy, Debug)]
pub struct PluginManifest {
    pub id: &'static str,
    pub name: &'static str,
    pub version: &'static str,
    pub description: &'static str,
    pub api_version: ApiVersion,
    /// Sort key for add-on ribbon tabs (lower = further left among plugins).
    pub ribbon_order: i32,
    pub xdata_apps: &'static [&'static str],
    pub command_prefixes: &'static [&'static str],
}

/// An owned copy of a plugin manifest, as exchanged with out-of-process
/// plugins.
#[derive(Clone, Debug, PartialEq)]
pub struct OwnedPluginManifest {
    pub id: String,
    pub name: String,
    pub version: String,
    pub description: String,
    pub api_version: u32,
    pub ribbon_order: i32,
    pub xdata_apps: Vec<String>,
    pub command_prefixes: Vec<String>,
}

/// The characters of each string in a list of strings.
pub open spec fn strs_view(v: Seq<&str>) -> Seq<Seq<char>> {
    v.map_values(|s: &str| s@)
}

/// The characters of each string in a list of owned strings.
pub open spec fn strings_view(v: Seq<String>) -> Seq<Seq<char>> {
    v.map_values(|s: String| s@)
}

/// Owned copies of a list of string slices.
pub fn to_strings(v: &[&str]) -> (r: Vec<String>)
    ensures
        strings_view(r@) == strs_view(v@),
{
    let mut r: Vec<String> = Vec::new();
    let mut i: usize = 0;
    while i < v.len()
        invariant
            0 <= i <= v@.len(),
            strings_view(r@) == strs_view(v@.take(i as int)),
        decreases v@.len() - i,
    {
        let s = v[i].to_owned();
        let ghost prev = r@;
        r.push(s);
        proof {
            prev.lemma_push_map_commute(|s: String| s@, s);
            v@.take(i as int).lemma_push_map_commute(|s: &str| s@, v@[i as int]);
            assert(v@.take(i + 1) =~= v@.take(i as int).push(v@[i as int]));
        }
        i = i + 1;
    }
    proof {
        assert(v@.take(v@.len() as int) =~= v@);
    }
    r
}

impl OwnedPluginManifest {
    /// An owned copy of a static manifest.
    pub fn from(m: &PluginManifest) -> (r: OwnedPluginManifest)
        ensures
            r.id@ == m.id@,
            r.name@ == m.name@,
            r.version@ == m.version@,
            r.description@ == m.description@,
            r.api_version == m.api_version.major,
            r.ribbon_order == m.ribbon_order,
            strings_view(r.xdata_apps@) == strs_view(m.xdata_apps@),
            strings_view(r.command_prefixes@) == strs_view(m.command_prefixes@),
    {
        OwnedPluginManifest {
            id: m.id.to_owned(),
            name: m.name.to_owned(),
            version: m.version.to_owned(),
            description: m.description.to_owned(),
            api_version: m.api_version.major,
            ribbon_order: m.ribbon_order,
            xdata_apps: to_strings(m.xdata_apps),
            command_prefixes: to_strings(m.command_prefixes),
        }
    }

    /// The manifest's API version.
    pub fn api_version(&self) -> (v: ApiVersion)
        ensures
            v.major == self.api_version,
    {
        ApiVersion { major: self.api_version }
    }
}

} // verus!
