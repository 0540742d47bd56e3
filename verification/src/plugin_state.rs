//! Enable/disable state of discovered plugins.
//!
//! A plugin's manifest describes what the plugin *is*; whether an operator wants it running on
//! this node changes over time and is kept here. A plugin absent from the store is enabled, so a
//! freshly added plugin runs without the operator having to opt in.
use vstd::prelude::*;

use crate::string_map::StringMap;
use crate::text::{owned, strs};
use crate::toggle::{disabled_keys, flag_enabled, lists_disabled};

verus! {

/// Default location of the plugin state document, relative to the node working directory.
pub const DEFAULT_PLUGIN_STATE: &'static str = "./data/plugins_state.json";

/// Plugin enable/disable state.
pub struct PluginStateStore {
    states: StringMap<bool>,
}

impl View for PluginStateStore {
    type V = Map<Seq<char>, bool>;

    closed spec fn view(&self) -> Map<Seq<char>, bool> {
        self.states@
    }
}

impl PluginStateStore {
    /// Creates a store in which nothing has been toggled.
    pub fn in_memory() -> (r: Self)
        ensures
            r@ == Map::<Seq<char>, bool>::empty(),
    {
        PluginStateStore { states: StringMap::new() }
    }

    /// Creates a store holding stored states.
    pub fn from_states(states: StringMap<bool>) -> (r: Self)
        ensures
            r@ == states@,
    {
        PluginStateStore { states }
    }

    /// Whether `plugin_id` is enabled (absent identifiers are enabled).
    pub fn is_enabled(&self, plugin_id: &str) -> (r: bool)
        ensures
            r == flag_enabled(self@, plugin_id@),
    {
        match self.states.get(plugin_id) {
            Some(flag) => *flag,
            None => true,
        }
    }

    /// Every plugin the operator explicitly disabled, in ascending order.
    pub fn disabled_ids(&self) -> (r: Vec<String>)
        ensures
            lists_disabled(self@, strs(r@)),
    {
        disabled_keys(&self.states)
    }

    /// Records the state of one plugin. Returns `true` when the state actually changed, so that
    /// callers can skip side effects (stopping or spawning a host) for an idempotent request; a
    /// request that changes nothing stores nothing.
    pub fn set_enabled(&mut self, plugin_id: &str, enabled: bool) -> (r: bool)
        ensures
            r == (flag_enabled(old(self)@, plugin_id@) != enabled),
            r ==> final(self)@ == old(self)@.insert(plugin_id@, enabled),
            !r ==> final(self)@ == old(self)@,
    {
        let current = match self.states.get(plugin_id) {
            Some(flag) => *flag,
            None => true,
        };
        if current == enabled {
            return false;
        }
        self.states.insert(owned(plugin_id), enabled);
        true
    }

    /// A copy of every recorded state.
    pub fn states(&self) -> (r: StringMap<bool>)
        ensures
            r@ == self@,
    {
        self.states.copied()
    }
}

/// Schema version of the persisted document.
pub fn default_version() -> (r: u32)
    ensures
        r == 1,
{
    1
}

/// After recording a plugin's state, querying that plugin gives the recorded state and every
/// other plugin reads as before.
pub proof fn law_set_then_query(states: Map<Seq<char>, bool>, plugin_id: Seq<char>, other: Seq<char>, enabled: bool)
    requires
        other != plugin_id,
    ensures
        flag_enabled(states.insert(plugin_id, enabled), plugin_id) == enabled,
        flag_enabled(states.insert(plugin_id, enabled), other) == flag_enabled(states, other),
{
}

} // verus!
