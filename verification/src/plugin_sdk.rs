//! Plugins: what a plugin reports about itself, its manifest, the checks
//! made before an external plugin is loaded, and the registry's rule that
//! identifiers are unique.
use vstd::prelude::*;
use crate::proxy_instance::texts;
use crate::text::{chars_of, chars_eq, cat, trim};

verus! {

broadcast use vstd::string::group_string_axioms;

#[derive(Debug, Clone, Copy, PartialEq, Eq, Structural)]
pub enum PluginType {
    Builtin,
    External,
}

/// What the plugin list shows of a plugin.
#[derive(Debug)]
pub struct PluginInfo {
    pub id: String,
    pub name: String,
    pub version: String,
    pub description: String,
    pub plugin_type: PluginType,
    pub installed: bool,
    pub enabled: bool,
    pub last_error: Option<String>,
}

/// The `[plugin]` table of a `plugin.toml` manifest.
#[derive(Debug)]
pub struct PluginManifestMeta {
    pub id: String,
    pub name: String,
    pub version: String,
    pub description: String,
    /// The dynamic library, relative to the manifest's directory.
    pub entry: String,
    pub min_relay_version: Option<String>,
}

#[derive(Debug)]
pub struct PluginManifest {
    pub plugin: PluginManifestMeta,
}

/// The environment variable that allows external plugins, and its value.
pub const ALLOW_EXTERNAL_VAR: &'static str = "RELAY_ALLOW_EXTERNAL_PLUGINS";

pub open spec fn external_disabled_msg() -> Seq<char> {
    "External plugins are disabled for security. To enable, set the environment variable RELAY_ALLOW_EXTERNAL_PLUGINS=1. WARNING: external plugins run arbitrary native code with full application privileges and no sandboxing. Only load plugins from sources you fully trust."@
}

/// External plugins load only when the variable is set to `1`.
pub fn check_external_allowed(var: &Option<String>) -> (r: Result<(), String>)
    ensures
        (var matches Some(v) && v@ == "1"@) ==> r is Ok,
        !(var matches Some(v) && v@ == "1"@) ==> (r matches Err(m) && m@ == external_disabled_msg()),
{
    let ok = match var {
        Some(v) => {
            let c = chars_of(v.as_str());
            crate::text::eq_text(&c, "1")
        },
        None => false,
    };
    if ok {
        Ok(())
    } else {
        Err(String::from_str("External plugins are disabled for security. To enable, set the environment variable RELAY_ALLOW_EXTERNAL_PLUGINS=1. WARNING: external plugins run arbitrary native code with full application privileges and no sandboxing. Only load plugins from sources you fully trust."))
    }
}

pub open spec fn id_mismatch_msg(manifest_id: Seq<char>, runtime_id: Seq<char>) -> Seq<char> {
    "Plugin id mismatch: manifest='"@ + manifest_id + "', runtime='"@ + runtime_id + "'"@
}

/// The library must report the identifier its manifest declares.
pub fn check_plugin_id(manifest_id: &str, runtime_id: &str) -> (r: Result<(), String>)
    ensures
        manifest_id@ == runtime_id@ ==> r is Ok,
        manifest_id@ != runtime_id@ ==> (r matches Err(m) && m@ == id_mismatch_msg(manifest_id@, runtime_id@)),
{
    let a = chars_of(manifest_id);
    let b = chars_of(runtime_id);
    if chars_eq(&a, &b) {
        Ok(())
    } else {
        Err(cat(cat(cat(cat("Plugin id mismatch: manifest='", manifest_id).as_str(), "', runtime='").as_str(), runtime_id).as_str(), "'"))
    }
}

pub open spec fn duplicate_msg(id: Seq<char>) -> Seq<char> {
    "Plugin with id '"@ + id + "' already registered"@
}

/// A plugin is registered only under an identifier not yet taken.
pub fn check_register(registered: &Vec<String>, id: &str) -> (r: Result<(), String>)
    ensures
        texts(registered@).contains(id@) ==> (r matches Err(m) && m@ == duplicate_msg(id@)),
        !texts(registered@).contains(id@) ==> r is Ok,
{
    let idv = chars_of(id);
    let mut i: usize = 0;
    while i < registered.len()
        invariant
            i <= registered@.len(),
            idv@ == id@,
            forall|k: int| 0 <= k < i ==> registered@[k]@ != id@,
        decreases registered.len() - i,
    {
        let x = chars_of(registered[i].as_str());
        if chars_eq(&x, &idv) {
            assert(texts(registered@)[i as int] == id@);
            return Err(cat(cat("Plugin with id '", id).as_str(), "' already registered"));
        }
        i = i + 1;
    }
    assert(!texts(registered@).contains(id@)) by {
        if texts(registered@).contains(id@) {
            let k = choose|k: int| 0 <= k < texts(registered@).len() && texts(registered@)[k] == id@;
            assert(registered@[k]@ == id@);
        }
    }
    Ok(())
}

} // verus!
