//! Plugin static manifest (`plugin.toml`) schema and discovery ordering.
//!
//! A manifest declares a plugin's metadata, runtime target, commands, tools and, for platform
//! adapters, the platform it serves. Reading and parsing the TOML file is the caller's I/O; this
//! module holds the parsed values and the rules the scanner applies to them.
use vstd::prelude::*;

use crate::json::JsonValue;
use crate::order::{apply_order, sorted_stably, stable_order};
use crate::text::{owned, str_equal};

verus! {

/// Metadata section `[plugin]`.
pub struct PluginSection {
    /// Unique identifier (e.g. `org.kanon.plugin.weather`).
    pub id: String,
    /// Human-readable display name.
    pub name: String,
    /// Semantic version string.
    pub version: String,
    /// Author attribution.
    pub author: Option<String>,
    /// Short explanation of the plugin.
    pub description: Option<String>,
    /// Runtime platform (`rust`, `python`, `typescript`).
    pub runtime: String,
    /// Entrypoint executable or script, relative to the plugin root.
    pub entrypoint: String,
    /// Whether the plugin must run in a dedicated sub-process.
    pub isolated: Option<bool>,
    /// Scheduling priority (1 to 1000, lower first, 500 when absent).
    pub priority: Option<i32>,
}

/// Command declared under `[[commands]]`.
pub struct CommandDefinition {
    /// Command trigger word (e.g. `rustcalc`).
    pub name: String,
    /// Short help text.
    pub description: Option<String>,
    /// Usage example.
    pub usage: Option<String>,
    /// Dispatch priority (lower first, 500 when absent).
    pub priority: Option<i32>,
}

/// Runtime dependencies declared under `[dependencies]`.
pub struct PluginDependencies {
    /// Package requirement strings (e.g. `httpx>=0.25.0`).
    pub packages: Vec<String>,
}

/// Tool declared under `[[tools]]`.
pub struct ToolDefinitionEntry {
    /// Tool name exposed to the model.
    pub name: String,
    /// What the tool does.
    pub description: Option<String>,
    /// JSON Schema of the accepted parameters.
    pub parameters: Option<JsonValue>,
}

/// Platform adapter declaration under `[adapter]`.
pub struct AdapterSection {
    /// Platform identifier served (e.g. `qqofficial`).
    pub platform: String,
    /// Console-facing name; the platform identifier when absent.
    pub display_name: Option<String>,
}

/// A parsed `plugin.toml`.
pub struct PluginManifest {
    /// Core metadata.
    pub plugin: PluginSection,
    /// Declared runtime dependencies.
    pub dependencies: Option<PluginDependencies>,
    /// JSON Schema of the user-facing configuration object.
    pub config_schema: Option<JsonValue>,
    /// Declared commands.
    pub commands: Vec<CommandDefinition>,
    /// Declared tools.
    pub tools: Vec<ToolDefinitionEntry>,
    /// Platform adapter declaration, for adapter plugins.
    pub adapter: Option<AdapterSection>,
}

/// A plugin found on disk.
pub struct DiscoveredPlugin {
    /// Parsed manifest.
    pub manifest: PluginManifest,
    /// Path of the `plugin.toml` file.
    pub manifest_path: String,
    /// Directory holding the plugin.
    pub plugin_dir: String,
}

/// Scheduling priority of a plugin section (500 when absent).
pub open spec fn effective_priority(p: Option<i32>) -> i32 {
    match p {
        Some(v) => v,
        None => 500,
    }
}

/// Directory entries the scanner never descends into: hidden entries and dependency or build
/// directories.
pub open spec fn ignored_entry(name: Seq<char>) -> bool {
    ||| (name.len() > 0 && name[0] == '.')
    ||| name == "node_modules"@
    ||| name == "target"@
    ||| name == ".venv"@
    ||| name == "venv"@
    ||| name == "__pycache__"@
}

/// Sort keys of discovered plugins: priority, then identifier.
pub open spec fn discovery_keys(plugins: Seq<DiscoveredPlugin>) -> Seq<(int, Seq<char>)> {
    Seq::new(plugins.len(), |i: int| (effective_priority(plugins[i].manifest.plugin.priority) as int, plugins[i].manifest.plugin.id@))
}

/// Scanner discovering plugins and ordering them for scheduling.
pub struct PluginScanner;

impl PluginScanner {
    /// Default plugins directory relative to the working directory.
    pub const DEFAULT_PLUGINS_DIR: &'static str = "./plugins";

    /// Maximum nesting depth below the base directory that the scanner visits.
    pub const MAX_DEPTH: usize = 2;

    /// Whether a directory entry is skipped by the scanner.
    pub fn is_ignored_entry(name: &str) -> (r: bool)
        ensures
            r == ignored_entry(name@),
    {
        proof {
            reveal_strlit("node_modules");
            reveal_strlit("target");
            reveal_strlit(".venv");
            reveal_strlit("venv");
            reveal_strlit("__pycache__");
        }
        let v = crate::text::chars_of(name);
        (v.len() > 0 && v[0] == '.') || str_equal(name, "node_modules") || str_equal(name, "target")
            || str_equal(name, ".venv") || str_equal(name, "venv") || str_equal(name, "__pycache__")
    }

    /// Orders discovered plugins for scheduling: ascending priority (500 when absent), then
    /// identifier, keeping discovery order among equal keys.
    pub fn sort_discovered(plugins: Vec<DiscoveredPlugin>) -> (r: Vec<DiscoveredPlugin>)
        ensures
            exists|order: Seq<usize>|
                sorted_stably(discovery_keys(plugins@), order) && r@.len() == plugins@.len()
                    && forall|k: int| 0 <= k < r@.len() ==> #[trigger] r@[k] == plugins@[order[k] as int],
    {
        let mut keys: Vec<(i64, String)> = Vec::new();
        for i in 0..plugins.len()
            invariant
                keys@.len() == i,
                i <= plugins@.len(),
                forall|j: int| 0 <= j < i ==> keys@[j].0 == discovery_keys(plugins@)[j].0 && keys@[j].1@ == discovery_keys(plugins@)[j].1,
        {
            let p = &plugins[i].manifest.plugin;
            let prio: i32 = match p.priority {
                Some(v) => v,
                None => 500,
            };
            keys.push((prio as i64, p.id.clone()));
        }
        let order = stable_order(&keys);
        proof {
            assert(crate::order::key_models(keys@) =~= discovery_keys(plugins@));
        }
        let r = apply_order(plugins, &order);
        r
    }
}

} // verus!
