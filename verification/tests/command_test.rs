use kanon::message::{CommandMeta, PluginMeta};
use kanon::pipeline::command::CommandRouter;
use kanon::supervisor::ManagedHost;

fn command(name: &str, priority: i32) -> CommandMeta {
    CommandMeta {
        name: name.to_string(),
        description: format!("{name} command"),
        usage: format!("/{name} <args>"),
        priority,
    }
}

fn host(host_id: &str, priority: i32, commands: Vec<CommandMeta>) -> ManagedHost {
    let meta = vec![PluginMeta {
        id: format!("org.kanon.plugin.{host_id}"),
        name: host_id.to_string(),
        version: "1.0.0".to_string(),
        author: "Tester".to_string(),
        description: "Test host".to_string(),
        commands,
        tools: vec![],
    }];
    ManagedHost::new(host_id.to_string(), format!("/tmp/{host_id}.sock"), meta, priority)
}

#[test]
fn test_parse_command_valid() {
    let res = CommandRouter::parse_command("/rustcalc 2 + 2");
    assert_eq!(
        res,
        Some((
            "rustcalc".to_string(),
            vec!["2".to_string(), "+".to_string(), "2".to_string()]
        ))
    );

    let res = CommandRouter::parse_command("   /weather   beijing   shanghai   ");
    assert_eq!(
        res,
        Some((
            "weather".to_string(),
            vec!["beijing".to_string(), "shanghai".to_string()]
        ))
    );

    let res = CommandRouter::parse_command("/ping");
    assert_eq!(res, Some(("ping".to_string(), vec![])));
}

#[test]
fn test_parse_command_invalid() {
    assert_eq!(CommandRouter::parse_command("hello world"), None);
    assert_eq!(CommandRouter::parse_command("/"), None);
    assert_eq!(CommandRouter::parse_command("   "), None);
    assert_eq!(CommandRouter::parse_command(""), None);
}

#[test]
fn test_resolve_command_priority() {
    let host1 = host("host1", 500, vec![command("calc", 200)]);
    let host2 = host("host2", 500, vec![command("calc", 50)]);
    let hosts = vec![host1, host2];

    let resolved = CommandRouter::resolve("calc", &hosts).expect("Should resolve");
    assert_eq!(resolved.host_id, "host2");
    assert_eq!(resolved.host_index, 1);
    assert_eq!(resolved.meta.priority, 50);
    assert_eq!(resolved.plugin_id, "org.kanon.plugin.host2");

    let resolved_slash = CommandRouter::resolve("/calc", &hosts).expect("Should resolve with leading slash");
    assert_eq!(resolved_slash.host_id, "host2");

    assert!(CommandRouter::resolve("unknown", &hosts).is_none());
}

#[test]
fn test_resolve_host_priority_fallback() {
    let host1 = host("host_low_priority", 600, vec![command("echo", 100)]);
    let host2 = host("host_high_priority", 100, vec![command("echo", 100)]);
    let hosts = vec![host1, host2];
    let resolved = CommandRouter::resolve("echo", &hosts).expect("Should resolve");
    assert_eq!(resolved.host_id, "host_high_priority");
}

#[test]
fn resolve_breaks_full_ties_by_host_id_then_declaration_order() {
    let hosts = vec![
        host("beta", 100, vec![command("go", 10)]),
        host("alpha", 100, vec![command("go", 10), command("/go", 10)]),
    ];
    let resolved = CommandRouter::resolve("go", &hosts).expect("resolves");
    assert_eq!(resolved.host_id, "alpha");
    assert_eq!(resolved.meta.name, "go");
}

#[test]
fn parse_command_keeps_inner_slashes_and_tabs_split() {
    assert_eq!(
        CommandRouter::parse_command("/a\tb/c  d"),
        Some(("a".to_string(), vec!["b/c".to_string(), "d".to_string()]))
    );
    assert_eq!(CommandRouter::parse_command("/ help"), Some(("help".to_string(), vec![])));
}
