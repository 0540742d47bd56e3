use kanon::instance::{InstanceDraft, InstanceRegistry, ItemPolicy};
use kanon::skill::{
    allowed_skills, catalog_position, catalog_prompt, check_skill_request, parse_skill, sort_skills, SkillError,
    SkillMeta, SkillStore, MAX_SKILL_BYTES,
};
use kanon::json::JsonValue;
use kanon::skill::{read_skill_definition, read_skill_request, READ_SKILL_TOOL};
use kanon::string_map::StringMap;
use kanon::toggle::{ToggleStore, SKILL_SECTION};

fn meta(id: &str, description: &str) -> SkillMeta {
    SkillMeta { id: id.to_string(), name: id.to_string(), description: description.to_string(), enabled: false }
}

#[test]
fn identifiers_are_rejected_before_touching_the_filesystem() {
    for bad in ["", "../escape", ".hidden", "bad id", "a/b"] {
        assert!(matches!(SkillStore::validate_id(bad), Err(SkillError::InvalidId(_))), "'{bad}' must be refused");
    }
    assert_eq!(SkillStore::validate_id("  weather_v2.1 ").ok(), Some("weather_v2.1".to_string()));
    assert!(matches!(SkillStore::validate_id(&"a".repeat(65)), Err(SkillError::InvalidId(_))));
    let store = SkillStore::new("/srv/skills".to_string());
    assert_eq!(store.skill_path("weather").ok(), Some("/srv/skills/weather".to_string()));
    assert!(matches!(store.skill_path("../x"), Err(SkillError::InvalidId(_))));
}

#[test]
fn an_oversized_skill_body_is_refused_when_read() {
    assert!(SkillStore::check_body_size("big", MAX_SKILL_BYTES).is_ok());
    match SkillStore::check_body_size("big", MAX_SKILL_BYTES + 1) {
        Err(e @ SkillError::TooLarge { .. }) => {
            assert_eq!(e.message(), "skill 'big' is 65537 bytes, above the 65536 byte limit");
        }
        _ => panic!("must be refused"),
    }
}

#[test]
fn front_matter_gives_name_and_description() {
    let body = "---\nname: weather\ndescription: Source skill\n---\n\nBody text\n";
    assert_eq!(parse_skill("source", body), ("weather".to_string(), "Source skill".to_string()));
    let quoted = "---\nname: \"Quoted\"\ndescription: 'Looks up things'\n---\nrest";
    assert_eq!(parse_skill("q", quoted), ("Quoted".to_string(), "Looks up things".to_string()));
}

#[test]
fn without_front_matter_the_first_prose_line_describes_the_skill() {
    let body = "# Title\n\n  First prose line.  \nSecond line\n";
    assert_eq!(parse_skill("notes", body), ("notes".to_string(), "First prose line.".to_string()));
    assert_eq!(parse_skill("empty", "# Only a heading\n"), ("empty".to_string(), "Instructions from skill 'empty'".to_string()));
}

#[test]
fn long_descriptions_are_cut_to_two_hundred_characters() {
    let long = "d".repeat(250);
    let (_, description) = parse_skill("long", &long);
    assert_eq!(description.chars().count(), 201);
    assert!(description.ends_with('…'));
    assert!(description.starts_with(&"d".repeat(200)));
}

#[test]
fn the_catalog_lists_every_allowed_skill() {
    assert_eq!(catalog_prompt(&[]), "");
    let catalog = catalog_prompt(&[meta("weather", "Looks up weather"), meta("notes", "Takes notes")]);
    assert_eq!(
        catalog,
        "You have these skills available. Load one with the read_skill tool when it matches the user's request:\n- weather: Looks up weather\n- notes: Takes notes\n"
    );
}

#[test]
fn skills_are_sorted_by_identifier() {
    let sorted = sort_skills(vec![meta("zeta", ""), meta("alpha", ""), meta("mid", "")]);
    let ids: Vec<String> = sorted.into_iter().map(|s| s.id).collect();
    assert_eq!(ids, vec!["alpha".to_string(), "mid".to_string(), "zeta".to_string()]);
}

#[test]
fn read_skill_enforces_the_instance_override() {
    let mut toggles = ToggleStore::in_memory();
    toggles.set_enabled(SKILL_SECTION, "off", false);
    let mut registry = InstanceRegistry::in_memory();
    let mut draft = InstanceDraft::default();
    draft.name = "bot".to_string();
    let mut skills = StringMap::new();
    skills.insert("weather".to_string(), ItemPolicy::Disable);
    draft.skills = skills;
    let instance = registry.create(draft).unwrap();

    let installed = vec![meta("weather", "w"), meta("off", "o"), meta("notes", "n")];
    let node_wide = allowed_skills(vec![meta("weather", "w"), meta("off", "o"), meta("notes", "n")], &toggles, None);
    let ids: Vec<String> = node_wide.iter().map(|s| s.id.clone()).collect();
    assert_eq!(ids, vec!["weather".to_string(), "notes".to_string()]);
    assert!(node_wide.iter().all(|s| s.enabled));

    let for_instance = allowed_skills(installed, &toggles, Some(&instance));
    let ids: Vec<String> = for_instance.iter().map(|s| s.id.clone()).collect();
    assert_eq!(ids, vec!["notes".to_string()]);

    assert!(check_skill_request(&for_instance, "notes").is_ok());
    assert_eq!(
        check_skill_request(&for_instance, "weather"),
        Err("Skill 'weather' is not available for this conversation".to_string())
    );
}

#[test]
fn the_catalog_goes_after_the_last_system_message() {
    assert_eq!(catalog_position(&vec![]), 0);
    assert_eq!(catalog_position(&vec![false, false]), 0);
    assert_eq!(catalog_position(&vec![true, false, true, false]), 3);
}

#[test]
fn the_read_skill_tool_names_one_allowed_skill() {
    let def = read_skill_definition();
    assert_eq!(def.name, READ_SKILL_TOOL);
    assert_eq!(def.name, "read_skill");
    let params = def.parameters.expect("schema");
    assert_eq!(params.get("type").and_then(|t| t.as_str()), Some("object"));
    assert!(matches!(params.get("required"), Some(JsonValue::Array(r)) if r.len() == 1));

    let allowed = vec![meta("notes", "n")];
    let args = |name: &str| JsonValue::Object(vec![("name".to_string(), JsonValue::String(name.to_string()))]);
    assert_eq!(read_skill_request(&allowed, &args("notes")), Ok("notes".to_string()));
    assert_eq!(
        read_skill_request(&allowed, &args("weather")),
        Err("Skill 'weather' is not available for this conversation".to_string())
    );
    assert_eq!(
        read_skill_request(&allowed, &JsonValue::Object(vec![])),
        Err("Missing required argument 'name'".to_string())
    );
}
