use kanon::plugin_state::PluginStateStore;
use kanon::toggle::{ToggleStore, MCP_SECTION, PLUGIN_SECTION, SKILL_SECTION};

#[test]
fn toggle_store_test_plugins_are_enabled_until_an_operator_says_otherwise() {
    let mut store = ToggleStore::in_memory();
    assert!(store.is_enabled(PLUGIN_SECTION, "org.kanon.plugin.fresh"));
    assert!(store.disabled_ids(PLUGIN_SECTION).is_empty());

    assert!(store.set_enabled(PLUGIN_SECTION, "org.kanon.plugin.fresh", false));
    assert!(!store.is_enabled(PLUGIN_SECTION, "org.kanon.plugin.fresh"));
    assert_eq!(store.disabled_ids(PLUGIN_SECTION), vec!["org.kanon.plugin.fresh".to_string()]);

    assert!(!store.set_enabled(PLUGIN_SECTION, "org.kanon.plugin.fresh", false));
}

#[test]
fn re_enabling_removes_the_entry_instead_of_storing_a_redundant_true() {
    let mut store = ToggleStore::in_memory();
    assert!(store.set_enabled(MCP_SECTION, "files", false));
    assert!(store.set_enabled(MCP_SECTION, "files", true));
    assert!(!store.section_of(MCP_SECTION).contains_key("files"));
    assert!(store.disabled_ids(MCP_SECTION).is_empty());
}

#[test]
fn toggle_store_test_an_in_memory_store_never_touches_the_filesystem() {
    let mut store = ToggleStore::in_memory();
    store.set_enabled(PLUGIN_SECTION, "org.kanon.plugin.x", false);
    assert!(!store.is_enabled(PLUGIN_SECTION, "org.kanon.plugin.x"));
}

#[test]
fn sections_are_independent_and_listed_in_order() {
    let mut store = ToggleStore::in_memory();
    store.set_enabled(SKILL_SECTION, "zeta", false);
    store.set_enabled(SKILL_SECTION, "alpha", false);
    assert!(store.is_enabled(PLUGIN_SECTION, "alpha"));
    assert_eq!(store.disabled_ids(SKILL_SECTION), vec!["alpha".to_string(), "zeta".to_string()]);
}

#[test]
fn plugin_state_test_plugins_are_enabled_until_an_operator_says_otherwise() {
    let mut store = PluginStateStore::in_memory();
    assert!(store.is_enabled("org.kanon.plugin.fresh"));
    assert!(store.disabled_ids().is_empty());
    assert!(store.set_enabled("org.kanon.plugin.fresh", false));
    assert!(!store.is_enabled("org.kanon.plugin.fresh"));
    assert_eq!(store.disabled_ids(), vec!["org.kanon.plugin.fresh".to_string()]);
    assert!(!store.set_enabled("org.kanon.plugin.fresh", false));
}

#[test]
fn plugin_state_test_an_in_memory_store_never_touches_the_filesystem() {
    let mut store = PluginStateStore::in_memory();
    store.set_enabled("org.kanon.plugin.x", false);
    assert!(!store.is_enabled("org.kanon.plugin.x"));
    assert!(store.set_enabled("org.kanon.plugin.x", true));
    assert!(store.is_enabled("org.kanon.plugin.x"));
    // The plugin store records an explicit `true` once a plugin has been toggled.
    assert_eq!(store.states().get("org.kanon.plugin.x"), Some(&true));
    assert!(!store.set_enabled("org.kanon.plugin.x", true));
}

#[test]
fn enabling_an_untouched_plugin_changes_nothing() {
    let mut store = PluginStateStore::in_memory();
    assert!(!store.set_enabled("org.kanon.plugin.fresh", true));
    assert!(store.is_enabled("org.kanon.plugin.fresh"));
    assert_eq!(store.states().len(), 0);
    assert!(store.disabled_ids().is_empty());
}
