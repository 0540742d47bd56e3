use kanon::instance::{
    instance_persona_id, normalize_name, BotInstance, InstanceDraft, InstanceError, InstanceRegistry, ItemPolicy,
};
use kanon::instance::{instance_personas, stale_personas};
use kanon::string_map::StringMap;

fn draft(name: &str, enabled: bool, adapters: &[&str]) -> InstanceDraft {
    InstanceDraft {
        name: name.to_string(),
        enabled,
        adapters: adapters.iter().map(|a| a.to_string()).collect(),
        persona_id: None,
        system_prompt: None,
        model: None,
        plugins: StringMap::new(),
        skills: StringMap::new(),
        mcp: StringMap::new(),
    }
}

fn error_of<T>(r: Result<T, InstanceError>) -> InstanceError {
    match r {
        Ok(_) => panic!("expected an error"),
        Err(e) => e,
    }
}

fn record(id: &str, name: &str, enabled: bool, adapters: &[&str]) -> BotInstance {
    BotInstance::from_record(
        id.to_string(),
        name.to_string(),
        enabled,
        adapters.iter().map(|a| a.to_string()).collect(),
        None,
        None,
        None,
        StringMap::new(),
        StringMap::new(),
        StringMap::new(),
        StringMap::new(),
    )
}

#[test]
fn create_derives_identifiers_and_lists_by_name() {
    let mut registry = InstanceRegistry::in_memory();
    assert!(registry.is_empty());

    let created = registry.create(draft("黑猪AI", true, &["qqofficial"])).expect("create instance");
    assert!(created.enabled);
    assert_eq!(created.adapters, vec!["qqofficial".to_string()]);
    assert_eq!(created.id, "ai");

    let second = registry.create(draft("Weather Bot", false, &[])).expect("create second instance");
    assert_eq!(second.id, "weather-bot");

    let names: Vec<String> = registry.list().into_iter().map(|i| i.name).collect();
    assert_eq!(names, vec!["Weather Bot".to_string(), "黑猪AI".to_string()]);
}

#[test]
fn a_fully_non_ascii_name_falls_back_and_identifiers_are_never_reused() {
    let mut registry = InstanceRegistry::in_memory();
    assert_eq!(registry.create(draft("机器人", false, &[])).unwrap().id, "bot");
    assert_eq!(registry.create(draft("机器人", false, &[])).unwrap().id, "bot-2");
    assert_eq!(registry.len(), 2);
}

#[test]
fn enabled_instances_cannot_share_an_adapter() {
    let mut registry = InstanceRegistry::in_memory();
    registry.create(draft("first", true, &["qqofficial"])).expect("first instance");

    let conflict = registry.create(draft("second", true, &["qqofficial"]));
    assert_eq!(registry.len(), 1);
    match error_of(conflict) {
        InstanceError::Conflict { platform, owner } => {
            assert_eq!(platform, "qqofficial");
            assert_eq!(owner, "first");
        }
        other => panic!("unexpected error: {other:?}"),
    }

    let disabled = registry.create(draft("third", false, &["qqofficial"])).expect("disabled instance may reuse the adapter");
    assert!(!disabled.enabled);

    let err = error_of(registry.update(&disabled.id, draft("third", true, &["qqofficial"])));
    assert!(matches!(err, InstanceError::Conflict { .. }));
}

#[test]
fn resolve_by_platform_only_returns_enabled_owners() {
    let mut registry = InstanceRegistry::in_memory();
    let disabled = registry.create(draft("sleeping", false, &["qqofficial"])).expect("create disabled instance");
    assert!(registry.resolve_by_platform("qqofficial").expect("resolve").is_none());

    registry.update(&disabled.id, draft("sleeping", true, &["qqofficial"])).expect("enable instance");
    let resolved = registry
        .resolve_by_platform("qqofficial")
        .expect("resolve")
        .expect("enabled instance claims the platform");
    assert_eq!(resolved.id, disabled.id);
    assert!(registry.resolve_by_platform("telegram").expect("resolve").is_none());
}

#[test]
fn ambiguous_ownership_is_reported_instead_of_guessed() {
    let list = vec![record("a", "A", true, &["qqofficial"]), record("b", "B", true, &["qqofficial"])];
    let err = error_of(InstanceRegistry::from_instances(list));
    assert!(matches!(err, InstanceError::Conflict { .. }), "unexpected: {err:?}");

    let list = vec![record("a", "A", true, &["qqofficial"]), record("b", "B", false, &["qqofficial"])];
    let registry = InstanceRegistry::from_instances(list).expect("one enabled owner is fine");
    assert_eq!(registry.len(), 2);
}

#[test]
fn new_command_rotates_only_its_conversation_and_keeps_history() {
    let mut registry = InstanceRegistry::in_memory();
    let instance = registry.create(draft("bot", true, &["qqofficial"])).expect("create instance");
    let conversation = "c2c:user-1";
    let other = "group:user-2";

    let initial = instance.conversation_session_id(conversation);
    assert_eq!(initial, "instance:bot:c2c:user-1#0");

    let rotated = registry.rotate_session(&instance.id, conversation).expect("rotate session");
    assert!(rotated.ends_with("#1"), "unexpected session id: {rotated}");
    assert_ne!(rotated, initial);

    let current = registry.get(&instance.id).expect("instance still present");
    assert_eq!(current.conversation_session_id(conversation), rotated);
    assert_eq!(current.conversation_session_id(other), format!("instance:{}:{other}#0", current.id));
    assert_eq!(current.session_generation(conversation), 1);
    assert_eq!(current.session_generation(other), 0);

    assert!(matches!(registry.rotate_session("nope", conversation), Err(InstanceError::NotFound(_))));
}

#[test]
fn update_preserves_session_history_and_validates_input() {
    let mut registry = InstanceRegistry::in_memory();
    let instance = registry.create(draft("bot", true, &["qqofficial"])).expect("create");
    registry.rotate_session(&instance.id, "c2c:user-1").expect("rotate");

    let updated = registry
        .update(
            &instance.id,
            InstanceDraft {
                name: "Renamed".to_string(),
                enabled: true,
                adapters: vec!["qqofficial".to_string()],
                persona_id: Some("assistant".to_string()),
                system_prompt: Some("  be nice  ".to_string()),
                model: Some("  deepseek-flash ".to_string()),
                plugins: StringMap::new(),
                skills: StringMap::new(),
                mcp: StringMap::new(),
            },
        )
        .expect("update");
    assert_eq!(updated.session_generation("c2c:user-1"), 1);
    assert_eq!(updated.system_prompt.as_deref(), Some("be nice"));
    assert_eq!(updated.model.as_deref(), Some("deepseek-flash"));
    assert_eq!(updated.effective_persona_id().as_deref(), Some("instance:bot"));

    let blank = error_of(registry.update(&instance.id, draft("   ", true, &[])));
    assert!(matches!(blank, InstanceError::Invalid(_)));

    let missing = error_of(registry.update("nope", draft("x", true, &[])));
    assert!(matches!(missing, InstanceError::NotFound(_)));
}

#[test]
fn session_identifiers_round_trip_to_their_instance() {
    assert_eq!(BotInstance::instance_id_from_session("instance:bot:c2c:user-1#3"), Some("bot".to_string()));
    assert_eq!(BotInstance::instance_id_from_session("persona:bot"), None);
    assert_eq!(instance_persona_id("bot"), "instance:bot");
}

#[test]
fn names_are_trimmed_and_bounded() {
    assert_eq!(normalize_name("  Weather  ").unwrap(), "Weather");
    assert!(matches!(normalize_name(" \t "), Err(InstanceError::Invalid(m)) if m == "name must not be empty"));
    let long = "x".repeat(65);
    assert!(matches!(normalize_name(&long), Err(InstanceError::Invalid(m)) if m == "name must be at most 64 characters"));
    assert_eq!(normalize_name(&"y".repeat(64)).unwrap().len(), 64);
}

#[test]
fn per_instance_policies_never_override_the_global_switch() {
    assert!(!ItemPolicy::Enable.allows(false));
    assert!(ItemPolicy::Inherit.allows(true));
    assert!(!ItemPolicy::Disable.allows(true));

    let mut registry = InstanceRegistry::in_memory();
    let mut d = draft("bot", true, &[]);
    d.plugins.insert("org.kanon.plugin.weather".to_string(), ItemPolicy::Disable);
    let b = registry.create(d).unwrap();
    assert!(!b.allows_plugin("org.kanon.plugin.weather", true));
    assert!(b.allows_plugin("org.kanon.plugin.other", true));
    assert!(!b.allows_plugin("org.kanon.plugin.other", false));
}

#[test]
fn deleting_an_instance_frees_its_adapter() {
    let mut registry = InstanceRegistry::in_memory();
    let first = registry.create(draft("first", true, &["qqofficial"])).unwrap();
    registry.delete(&first.id).expect("delete");
    assert!(registry.get(&first.id).is_none());
    assert!(matches!(registry.delete(&first.id), Err(InstanceError::NotFound(_))));
    registry.create(draft("second", true, &["qqofficial"])).expect("adapter is free again");
}

#[test]
fn instance_prompts_become_personas_and_cleared_ones_are_dropped() {
    let mut with_prompt = record("bot", "Bot", true, &[]);
    with_prompt.system_prompt = Some("  be nice ".to_string());
    let mut blank = record("quiet", "Quiet", true, &[]);
    blank.system_prompt = Some("   ".to_string());
    let personas = instance_personas(&[with_prompt, blank, record("plain", "Plain", false, &[])]);
    assert_eq!(personas.len(), 1);
    assert_eq!(personas[0].id, "instance:bot");
    assert_eq!(personas[0].name, "Bot (instance)");
    assert_eq!(personas[0].description, "Persona prompt configured on bot instance 'Bot'");
    assert_eq!(personas[0].prompt, "be nice");

    let existing = vec!["assistant".to_string(), "instance:bot".to_string(), "instance:old".to_string()];
    assert_eq!(stale_personas(&existing, &personas), vec!["instance:old".to_string()]);
}
