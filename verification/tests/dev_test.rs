use kanon::dev::lint::{find_manifest_path, lint_manifest, lint_report, LintError, PathProbe};
use kanon::dev::pack::{bundle_digest, checksum_line, hex_lower, pack_targets, should_include_path, zip_entry_name, PackError};
use kanon::dev::sandbox::format_segments;
use kanon::message::{MediaSource, MessageSegment, Segment};
use kanon::dev::sandbox::{
    check_tool_declared, command_plugin, parse_repl_line, sandbox_call_id, sandbox_mode, tool_arguments, ReplInput,
    SandboxError, SandboxMode, SandboxOptions,
};
use kanon::dev::scaffold::{
    scaffold_language, scaffold_target, to_pascal_case, to_snake_case, validate_plugin_name, ScaffoldError,
    ScaffoldLanguage,
};
use kanon::json::JsonValue;
use kanon::manifest::{CommandDefinition, PluginManifest, PluginSection, ToolDefinitionEntry};
use kanon::message::{CommandMeta, PluginMeta, ToolMeta};

fn section(id: &str, name: &str, version: &str, runtime: &str, entrypoint: &str, priority: Option<i32>) -> PluginSection {
    PluginSection {
        id: id.to_string(),
        name: name.to_string(),
        version: version.to_string(),
        author: None,
        description: None,
        runtime: runtime.to_string(),
        entrypoint: entrypoint.to_string(),
        isolated: None,
        priority,
    }
}

fn command(name: &str, priority: Option<i32>) -> CommandDefinition {
    CommandDefinition { name: name.to_string(), description: None, usage: None, priority }
}

fn manifest(plugin: PluginSection, commands: Vec<CommandDefinition>, tools: Vec<ToolDefinitionEntry>) -> PluginManifest {
    PluginManifest { plugin, dependencies: None, config_schema: None, commands, tools, adapter: None }
}

#[test]
fn test_plugin_lint_catches_invalid_manifest() {
    let m = manifest(
        section("INVALID_ID_WITHOUT_DOT", "", "v1-beta", "golang", "non_existent_script.py", Some(9999)),
        vec![command("/leading_slash", Some(0)), command("duplicate", None), command("duplicate", None)],
        vec![ToolDefinitionEntry {
            name: "bad tool space".to_string(),
            description: None,
            parameters: Some(JsonValue::String("not an object".to_string())),
        }],
    );
    let report = lint_report("/tmp/p/plugin.toml".to_string(), "/tmp/p".to_string(), &m, false);
    assert!(!report.is_valid(), "Expected validation errors");
    let err_str = report.errors.join("\n");
    for needle in [
        "reverse domain notation",
        "Plugin 'name' must not be empty",
        "not a valid Semantic Version",
        "Unsupported runtime 'golang'",
        "Plugin priority 9999 is outside valid range",
        "must not include a leading slash",
        "Duplicate command declaration: command 'duplicate'",
        "bad tool space",
        "parameters schema must be a JSON Schema Object",
    ] {
        assert!(err_str.contains(needle), "missing '{needle}' in:\n{err_str}");
    }
}

#[test]
fn a_well_formed_manifest_lints_clean() {
    let m = manifest(
        section("org.kanon.plugin.weather", "Weather", "1.2.3", "python", "main.py", Some(100)),
        vec![command("weather", None)],
        vec![ToolDefinitionEntry {
            name: "get_weather".to_string(),
            description: Some("Looks up the weather".to_string()),
            parameters: Some(JsonValue::Object(vec![("type".to_string(), JsonValue::String("object".to_string()))])),
        }],
    );
    let (errors, _warnings) = lint_manifest(&m, "/tmp/weather", true);
    assert_eq!(errors, Vec::<String>::new());
    let report = lint_report("/tmp/weather/plugin.toml".to_string(), "/tmp/weather".to_string(), &m, true);
    assert!(report.is_valid());
    assert_eq!(report.plugin_id.as_deref(), Some("org.kanon.plugin.weather"));
}

#[test]
fn the_manifest_is_found_next_to_or_inside_the_given_path() {
    assert!(find_manifest_path("/p", PathProbe::Missing).is_err());
    match find_manifest_path("/p", PathProbe::Missing) {
        Err(LintError::ManifestNotFound(p)) => assert_eq!(p, "/p"),
        _ => panic!("a missing path has no manifest"),
    }
    assert_eq!(
        find_manifest_path("/p", PathProbe::Dir { manifest_is_file: true }).ok(),
        Some(("/p/plugin.toml".to_string(), "/p".to_string()))
    );
    assert!(matches!(
        find_manifest_path("/p", PathProbe::Dir { manifest_is_file: false }),
        Err(LintError::ManifestNotFound(p)) if p == "/p/plugin.toml"
    ));
    assert_eq!(
        find_manifest_path("/p/plugin.toml", PathProbe::File { parent: "/p".to_string() }).ok(),
        Some(("/p/plugin.toml".to_string(), "/p".to_string()))
    );
}

#[test]
fn packaging_skips_build_outputs_and_caches() {
    assert!(should_include_path("plugin.toml"));
    assert!(should_include_path("src/main.py"));
    assert!(!should_include_path("__pycache__/test.pyc"));
    assert!(!should_include_path("module/cache.pyc"));
    assert!(!should_include_path("target/release/demo"));
    assert!(!should_include_path(".env"));
    assert!(!should_include_path("notes.txt~"));
    assert!(!should_include_path("dist/org.kanon.plugin.x.kpk"));
    assert_eq!(zip_entry_name("src\\main.rs"), "src/main.rs");
}

#[test]
fn a_bundle_is_refused_while_the_manifest_has_errors() {
    let bad = manifest(section("bad", "", "x", "golang", "", None), vec![], vec![]);
    let report = lint_report("/p/plugin.toml".to_string(), "/p".to_string(), &bad, false);
    let n = report.errors.len();
    match pack_targets(&report, None) {
        Err(PackError::ValidationFailed(count)) => assert_eq!(count, n),
        _ => panic!("invalid manifests are not packaged"),
    }
    assert_eq!(
        PackError::validation_message(3),
        "Plugin manifest validation failed with 3 error(s). Run 'kanon-dev lint' for details."
    );
    let good = manifest(section("org.kanon.plugin.pack_test", "Pack", "0.1.0", "python", "main.py", None), vec![], vec![]);
    let report = lint_report("/p/plugin.toml".to_string(), "/p".to_string(), &good, true);
    let targets = pack_targets(&report, Some("/dist")).ok().expect("valid manifest");
    assert_eq!(targets.archive_name, "org.kanon.plugin.pack_test.kpk");
    assert_eq!(targets.bundle_path, "/dist/org.kanon.plugin.pack_test.kpk");
    assert_eq!(targets.checksum_path, "/dist/org.kanon.plugin.pack_test.kpk.sha256");
}

#[test]
fn bundles_are_identified_by_their_sha256() {
    assert_eq!(hex_lower(&[0x00, 0xab, 0x10]), "00ab10");
    let digest = bundle_digest(b"abc");
    assert_eq!(digest, "ba7816bf8f01cfea414140de5dae2223b00361a396177a9cb410ff61f20015ad");
    assert_eq!(bundle_digest(b""), "e3b0c44298fc1c149afbf4c8996fb92427ae41e4649b934ca495991b7852b855");
    assert_eq!(
        checksum_line(&digest, "org.kanon.plugin.pack_test.kpk"),
        format!("{digest}  org.kanon.plugin.pack_test.kpk\n")
    );
}

#[test]
fn scaffold_names_are_validated_and_converted() {
    assert!(validate_plugin_name("my_rust-plugin2").is_ok());
    assert!(matches!(validate_plugin_name("bad name"), Err(ScaffoldError::InvalidPluginName(n)) if n == "bad name"));
    assert!(matches!(validate_plugin_name(""), Err(ScaffoldError::InvalidPluginName(_))));
    assert_eq!(to_snake_case("My-Rust-Plugin"), "my_rust_plugin");
    assert_eq!(to_pascal_case("my_rust-plugin"), "MyRustPlugin");
    assert!(matches!(scaffold_language("Python"), Ok(ScaffoldLanguage::Python)));
    assert!(matches!(scaffold_language("ts"), Ok(ScaffoldLanguage::TypeScript)));
    assert!(matches!(scaffold_language("rust"), Ok(ScaffoldLanguage::Rust)));
    assert!(matches!(scaffold_language("golang"), Err(ScaffoldError::UnsupportedLanguage(l)) if l == "golang"));
    assert_eq!(scaffold_target("demo", None), "demo");
    assert_eq!(scaffold_target("demo", Some("/tmp/out")), "/tmp/out");
}

fn calc_plugin() -> PluginMeta {
    PluginMeta {
        id: "org.kanon.plugin.pycalc".to_string(),
        name: "Calc".to_string(),
        version: "0.1.0".to_string(),
        author: String::new(),
        description: String::new(),
        commands: vec![CommandMeta {
            name: "pycalc".to_string(),
            description: String::new(),
            usage: String::new(),
            priority: 500,
        }],
        tools: vec![ToolMeta { name: "add".to_string(), description: String::new(), parameters: None }],
    }
}

#[test]
fn the_sandbox_mode_follows_the_options() {
    let mut opts = SandboxOptions::default();
    assert!(matches!(sandbox_mode(&opts), SandboxMode::Interactive));
    opts.non_interactive = true;
    assert!(matches!(sandbox_mode(&opts), SandboxMode::Probe));
    opts.tool = Some("add".to_string());
    assert!(matches!(sandbox_mode(&opts), SandboxMode::Tool(t) if t == "add"));
    opts.command = Some("/pycalc".to_string());
    assert!(matches!(sandbox_mode(&opts), SandboxMode::Command(c) if c == "/pycalc"));
}

#[test]
fn sandbox_commands_and_tools_are_resolved_against_the_plugins() {
    let meta = vec![calc_plugin()];
    assert_eq!(
        command_plugin(&meta, "/pycalc").ok(),
        Some(("org.kanon.plugin.pycalc".to_string(), "pycalc".to_string()))
    );
    assert!(matches!(command_plugin(&meta, "//nope"), Err(SandboxError::CommandNotFound(n)) if n == "nope"));
    assert!(check_tool_declared(&meta, "add").is_ok());
    assert!(matches!(check_tool_declared(&meta, "mul"), Err(SandboxError::ToolNotFound(n)) if n == "mul"));
    assert_eq!(tool_arguments(&["{\"a\":".to_string(), "1}".to_string()]), Some("{\"a\": 1}".to_string()));
    assert_eq!(tool_arguments(&[" ".to_string()]), None);
    assert_eq!(sandbox_call_id(1234), "test_call_1234");
}

#[test]
fn prompt_lines_are_classified() {
    assert!(matches!(parse_repl_line("   "), ReplInput::Empty));
    assert!(matches!(parse_repl_line(" quit "), ReplInput::Exit));
    assert!(matches!(parse_repl_line("/help"), ReplInput::Help));
    match parse_repl_line("//pycalc 1 +  2") {
        ReplInput::Command { name, args } => {
            assert_eq!(name, "pycalc");
            assert_eq!(args, vec!["1".to_string(), "+".to_string(), "2".to_string()]);
        }
        _ => panic!("a slash line is a command"),
    }
    match parse_repl_line("call add {\"a\":1}") {
        ReplInput::ToolCall { tool, arguments } => {
            assert_eq!(tool, "add");
            assert_eq!(arguments, "{\"a\":1}");
        }
        _ => panic!("a call line is a tool call"),
    }
    match parse_repl_line("call add") {
        ReplInput::ToolCall { tool, arguments } => {
            assert_eq!(tool, "add");
            assert_eq!(arguments, "{}");
        }
        _ => panic!("a call line is a tool call"),
    }
    assert!(matches!(parse_repl_line("hello"), ReplInput::Unrecognized));
}

#[test]
fn replies_are_rendered_on_one_line() {
    let seg = |s| MessageSegment { segment: Some(s) };
    let line = format_segments(&[
        seg(Segment::Text { content: "Result: ".to_string() }),
        seg(Segment::Mention { target_user_id: "u1".to_string(), display_name: "U".to_string(), is_all: false }),
        seg(Segment::Image { mime_type: "image/png".to_string(), filename: "a.png".to_string(), source: Some(MediaSource::Url("http://x/a.png".to_string())) }),
        seg(Segment::Audio { duration_seconds: 3, source: Some(MediaSource::RawBytes(vec![0; 12])) }),
        seg(Segment::Reply { target_message_id: "m1".to_string(), snippet: "hi".to_string() }),
        seg(Segment::Custom { custom_type: "ark".to_string() }),
        MessageSegment { segment: None },
    ]);
    assert_eq!(line, "Result: @u1[Image URL: http://x/a.png][Audio Bytes: 12B][Reply to m1: hi][Custom: ark]");
}
