//! What a plugin declares about itself, and the view of a loaded plugin.
use vstd::prelude::*;

use crate::text::clone_opt_string;

verus! {

/// Metadata read from a plugin's manifest.
#[derive(Debug)]
pub struct PluginManifest {
    /// Unique plugin identifier.
    pub id: String,
    /// Human-readable name.
    pub name: String,
    /// Semantic version string.
    pub version: String,
    /// Author / maintainer.
    pub author: Option<String>,
    /// Plugin capabilities (one or more of the supported types).
    pub types: Vec<PluginType>,
    /// Entry file (reserved).
    pub entry: Option<String>,
    /// Permission declarations.
    pub permissions: PluginPermissions,
}

/// Supported plugin capability types.
#[derive(PartialEq, Eq, Structural, Clone, Copy, Debug)]
pub enum PluginType {
    /// Provide recipe lists.
    RecipeProvider,
    /// Custom environment probe.
    EnvProbe,
    /// Custom step executor.
    StepExecutor,
    /// Extended error diagnosis rules.
    ErrorRule,
    /// Log output sink.
    LogSink,
}

/// Permission flags declared in a plugin manifest.
#[derive(PartialEq, Eq, Structural, Clone, Copy, Debug)]
pub struct PluginPermissions {
    pub network: bool,
    pub filesystem: bool,
}

impl Default for PluginPermissions {
    /// Every permission is off unless declared.
    fn default() -> (r: Self)
        ensures
            !r.network,
            !r.filesystem,
    {
        PluginPermissions { network: false, filesystem: false }
    }
}

/// Lightweight view of a loaded plugin.
#[derive(Debug)]
pub struct PluginInfo {
    pub id: String,
    pub name: String,
    pub version: String,
    pub author: Option<String>,
    pub types: Vec<PluginType>,
    pub enabled: bool,
}

/// `info` shows the manifest `m` of an enabled plugin.
pub open spec fn info_of(info: PluginInfo, m: PluginManifest) -> bool {
    &&& info.id == m.id
    &&& info.name == m.name
    &&& info.version == m.version
    &&& info.author == m.author
    &&& info.types@ == m.types@
    &&& info.enabled
}

/// A copy of each plugin type.
pub fn clone_types(v: &Vec<PluginType>) -> (r: Vec<PluginType>)
    ensures
        r@ == v@,
{
    let mut r: Vec<PluginType> = Vec::new();
    let mut i: usize = 0;
    while i < v.len()
        invariant
            i <= v.len(),
            r@ == v@.subrange(0, i as int),
        decreases v.len() - i,
    {
        r.push(v[i]);
        i = i + 1;
        assert(r@ =~= v@.subrange(0, i as int));
    }
    assert(r@ =~= v@);
    r
}

impl PluginInfo {
    /// The info of a loaded plugin: the manifest's id, name, version,
    /// author and types; a loaded plugin is enabled.
    pub fn from(m: &PluginManifest) -> (r: PluginInfo)
        ensures
            info_of(r, *m),
    {
        PluginInfo {
            id: m.id.clone(),
            name: m.name.clone(),
            version: m.version.clone(),
            author: clone_opt_string(&m.author),
            types: clone_types(&m.types),
            enabled: true,
        }
    }
}

impl Clone for PluginManifest {
    fn clone(&self) -> (r: Self)
        ensures
            r.id == self.id,
            r.name == self.name,
            r.version == self.version,
            r.author == self.author,
            r.types@ == self.types@,
            r.entry == self.entry,
            r.permissions == self.permissions,
    {
        PluginManifest {
            id: self.id.clone(),
            name: self.name.clone(),
            version: self.version.clone(),
            author: clone_opt_string(&self.author),
            types: clone_types(&self.types),
            entry: clone_opt_string(&self.entry),
            permissions: self.permissions,
        }
    }
}

} // verus!
