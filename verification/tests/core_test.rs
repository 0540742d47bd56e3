use kanon::adapter::{AdapterDescriptor, AdapterError, AdapterKind, AdapterRegistry, IngestError};
use kanon::ipc::{
    deliver_request, ingest_response, llm_messages, no_dispatcher, no_llm_provider, no_supervisor, register_response, send_response, ChatRole,
    MessageIds, QueuePush, SendMessageRequest,
};
use kanon::manifest::{AdapterSection, DiscoveredPlugin, PluginManifest, PluginScanner, PluginSection};
use kanon::message::MessageSegment;
use kanon::supervisor::circuit_breaker::CircuitState;
use kanon::supervisor::{host_environment, readiness_step, runner_lookup, runner_missing, Lookup, ReadinessStep, HOST_READY_TIMEOUT};
use kanon::supervisor::{
    host_id_for_plugin, plan_manifest_launch, runner_args, synthesized_meta, AdapterRoute, LaunchPlan, ManagedHost,
    Supervisor, SupervisorError,
};

fn manifest(id: &str, runtime: &str, priority: Option<i32>, adapter: Option<(&str, Option<&str>)>) -> PluginManifest {
    PluginManifest {
        plugin: PluginSection {
            id: id.to_string(),
            name: id.to_string(),
            version: "0.1.0".to_string(),
            author: None,
            description: None,
            runtime: runtime.to_string(),
            entrypoint: "bin/host".to_string(),
            isolated: None,
            priority,
        },
        dependencies: None,
        config_schema: None,
        commands: vec![],
        tools: vec![],
        adapter: adapter.map(|(p, n)| AdapterSection { platform: p.to_string(), display_name: n.map(|x| x.to_string()) }),
    }
}

fn discovered(id: &str, priority: Option<i32>) -> DiscoveredPlugin {
    DiscoveredPlugin {
        manifest: manifest(id, "python", priority, None),
        manifest_path: format!("/plugins/{id}/plugin.toml"),
        plugin_dir: format!("/plugins/{id}"),
    }
}

#[test]
fn builtin_adapter_registers_and_resolves() {
    let mut registry: AdapterRegistry<u32> = AdapterRegistry::new();
    assert!(registry.is_empty());
    registry.register("webhook".to_string(), 1).expect("first registration");
    match registry.register("webhook".to_string(), 2) {
        Err(e @ AdapterError::DuplicatePlatform(_)) => {
            assert_eq!(e.message(), "platform 'webhook' is already served by another adapter")
        }
        _ => panic!("a platform is owned once"),
    }
    assert_eq!(registry.get("webhook"), Some(&1));
    assert_eq!(registry.len(), 1);
    assert_eq!(registry.unregister("webhook"), Some(1));
    assert!(registry.get("webhook").is_none());
}

#[test]
fn unknown_platform_is_reported() {
    let e = AdapterError::UnknownPlatform("telegram".to_string());
    assert_eq!(e.message(), "no adapter is registered for platform 'telegram'");
    let supervisor = Supervisor::new("/run".to_string(), "/run/core.sock".to_string());
    let registry: AdapterRegistry<u32> = AdapterRegistry::new();
    assert!(supervisor.resolve_adapter(&registry, "telegram").is_none());
}

#[test]
fn outbound_is_routed_to_builtin_adapter_before_plugin_hosts() {
    let mut supervisor = Supervisor::new("/run".to_string(), "/run/core.sock".to_string());
    supervisor.register_managed_host(
        ManagedHost::new("host_qq".to_string(), "/run/qq.sock".to_string(), vec![], 500)
            .with_manifest(manifest("org.kanon.adapter.qq", "python", None, Some(("qqofficial", Some("QQ Official"))))),
    );
    let mut registry: AdapterRegistry<u32> = AdapterRegistry::new();
    match supervisor.resolve_adapter(&registry, "qqofficial") {
        Some(AdapterRoute::Plugin { host_id, plugin_id }) => {
            assert_eq!(host_id, "host_qq");
            assert_eq!(plugin_id, "org.kanon.adapter.qq");
        }
        _ => panic!("the plugin host serves the platform"),
    }
    registry.register("qqofficial".to_string(), 7).unwrap();
    assert!(matches!(supervisor.resolve_adapter(&registry, "qqofficial"), Some(AdapterRoute::Builtin(&7))));
}

#[test]
fn the_adapter_catalog_lists_builtins_then_plugin_adapters() {
    let mut supervisor = Supervisor::new("/run".to_string(), "/run/core.sock".to_string());
    supervisor.register_managed_host(
        ManagedHost::new("host_qq".to_string(), "/run/qq.sock".to_string(), vec![], 500)
            .with_manifest(manifest("org.kanon.adapter.qq", "python", None, Some(("qqofficial", None)))),
    );
    supervisor.register_managed_host(ManagedHost::new("host_plain".to_string(), "/run/p.sock".to_string(), vec![], 500));
    let builtin = AdapterDescriptor {
        platform: "webhook".to_string(),
        display_name: "Webhook".to_string(),
        kind: AdapterKind::Builtin,
        connected: true,
        circuit_state: CircuitState::Closed,
        plugin_id: None,
        host_id: None,
    };
    let catalog = supervisor.adapter_catalog(vec![builtin]);
    let platforms: Vec<String> = catalog.iter().map(|d| d.platform.clone()).collect();
    // Built-ins come first, then plugin adapters.
    assert_eq!(platforms, vec!["webhook".to_string(), "qqofficial".to_string()]);
    let qq = catalog.iter().find(|d| d.platform == "qqofficial").unwrap();
    assert_eq!(qq.kind, AdapterKind::Plugin);
    assert_eq!(qq.display_name, "qqofficial");
    assert_eq!(qq.host_id.as_deref(), Some("host_qq"));
}

#[test]
fn send_requests_are_numbered_and_answered_by_queue_outcome() {
    let mut ids = MessageIds::new();
    assert_eq!(ids.next_event_id(255), "send-ff-1");
    assert_eq!(ids.next_event_id(4096), "send-1000-2");

    let req = SendMessageRequest {
        platform: "qqofficial".to_string(),
        channel_id: "c".to_string(),
        recipient_id: "r".to_string(),
        segments: vec![MessageSegment { segment: None }],
    };
    let delivery = deliver_request(req, "send-ff-1".to_string());
    assert_eq!(delivery.event_id, "send-ff-1");
    assert_eq!(delivery.platform, "qqofficial");

    let ok = send_response(QueuePush::Queued, "send-ff-1".to_string()).ok().unwrap();
    assert!(ok.accepted && ok.success);
    assert_eq!(ok.message_id, "send-ff-1");
    let full = send_response(QueuePush::Full, "x".to_string()).ok().unwrap();
    assert!(!full.accepted);
    assert_eq!(full.error_message, "Outbound queue full; delivery dropped");
    assert_eq!(send_response(QueuePush::Closed, "x".to_string()).err().unwrap().0, "Outbound message queue is closed");
    assert_eq!(no_supervisor().0, "Supervisor is not configured on CoreApiService; cannot register host");
    assert_eq!(no_dispatcher().0, "Outbound delivery dispatcher is not configured on CoreApiService");
}

#[test]
fn ingest_handle_reports_backpressure_and_closure() {
    assert!(ingest_response("e1".to_string(), Ok(())).ok().unwrap().accepted);
    let full = ingest_response("e2".to_string(), Err(IngestError::QueueFull)).ok().unwrap();
    assert!(!full.accepted);
    assert_eq!(full.event_id, "e2");
    assert_eq!(ingest_response("e3".to_string(), Err(IngestError::Closed)).err().unwrap().0, "Microkernel event queue has been closed");
}

#[test]
fn host_registration_is_acknowledged() {
    let ok = register_response("host_demo", &Ok(()));
    assert!(ok.success);
    assert_eq!(ok.message, "Host 'host_demo' registered successfully");
    let failed = register_response("host_demo", &Err(SupervisorError::Timeout("host_demo".to_string())));
    assert!(!failed.success);
    assert_eq!(failed.message, "Failed to register host: Host 'host_demo' timed out waiting for socket readiness");
}

#[test]
fn model_requests_put_the_system_prompt_first() {
    assert_eq!(
        llm_messages(Some("be brief".to_string()), "hi".to_string()),
        vec![(ChatRole::System, "be brief".to_string()), (ChatRole::User, "hi".to_string())]
    );
    assert_eq!(llm_messages(None, "hi".to_string()), vec![(ChatRole::User, "hi".to_string())]);
    assert_eq!(no_llm_provider().0, "No LLM provider is configured on this core; RequestLLM is disabled");
}

#[test]
fn scanner_ignores_hidden_and_build_dirs() {
    for name in [".git", ".hidden", "node_modules", "target", ".venv", "venv", "__pycache__"] {
        assert!(PluginScanner::is_ignored_entry(name), "{name}");
    }
    assert!(!PluginScanner::is_ignored_entry("weather"));
}

#[test]
fn scanner_discovers_and_sorts_by_priority() {
    let sorted = PluginScanner::sort_discovered(vec![
        discovered("org.kanon.plugin.zeta", None),
        discovered("org.kanon.plugin.alpha", Some(900)),
        discovered("org.kanon.plugin.beta", Some(10)),
        discovered("org.kanon.plugin.gamma", None),
    ]);
    let ids: Vec<String> = sorted.into_iter().map(|d| d.manifest.plugin.id).collect();
    assert_eq!(
        ids,
        vec![
            "org.kanon.plugin.beta".to_string(),
            "org.kanon.plugin.gamma".to_string(),
            "org.kanon.plugin.zeta".to_string(),
            "org.kanon.plugin.alpha".to_string(),
        ]
    );
}

#[test]
fn plugins_are_launched_according_to_their_runtime() {
    assert!(matches!(
        plan_manifest_launch(&manifest("p", "rust", None, None), "/plugins/p", None),
        Ok(LaunchPlan::Executable { path }) if path == "/plugins/p/bin/host"
    ));
    assert!(matches!(plan_manifest_launch(&manifest("p", "python", None, None), "/p", None), Ok(LaunchPlan::Python)));
    assert!(matches!(plan_manifest_launch(&manifest("p", "ts", None, None), "/p", None), Ok(LaunchPlan::TypeScript)));
    assert!(matches!(
        plan_manifest_launch(&manifest("p", "golang", None, None), "/p", Some("/opt/prebuilt")),
        Ok(LaunchPlan::Executable { path }) if path == "/opt/prebuilt"
    ));
    match plan_manifest_launch(&manifest("p", "golang", None, None), "/p", None) {
        Err(SupervisorError::RuntimeUnavailable { runtime, reason }) => {
            assert_eq!(runtime, "golang");
            assert_eq!(reason, "Unsupported plugin runtime 'golang' declared in manifest");
        }
        _ => panic!("unknown runtimes are refused"),
    }
    assert_eq!(host_id_for_plugin("org.kanon.plugin.demo"), "org_kanon_plugin_demo");
    assert_eq!(runner_args("host.py", "/p/plugin.toml"), vec!["host.py".to_string(), "--plugin".to_string(), "/p/plugin.toml".to_string()]);
    let meta = synthesized_meta(&vec!["a.b".to_string()]);
    assert_eq!((meta[0].id.as_str(), meta[0].name.as_str(), meta[0].version.as_str()), ("a.b", "a.b", "0.1.0"));
}

#[test]
fn supervisor_tracks_unavailable_plugins() {
    let mut supervisor = Supervisor::new("/run".to_string(), "/run/core.sock".to_string());
    supervisor.record_unavailable_plugin(
        manifest("org.kanon.plugin.py", "python", None, None),
        "/plugins/py/plugin.toml".to_string(),
        "python3 not found".to_string(),
    );
    let list = supervisor.get_unavailable_plugins();
    assert_eq!(list.len(), 1);
    assert_eq!(list[0].manifest.plugin.id, "org.kanon.plugin.py");
    assert_eq!(list[0].reason, "python3 not found");
    assert_eq!(list[0].status, "RuntimeUnavailable");
    supervisor.remove_unavailable_plugin("org.kanon.plugin.py");
    assert!(supervisor.get_unavailable_plugins().is_empty());
}

fn describe(ls: &[Lookup]) -> Vec<String> {
    ls.iter()
        .map(|l| match l {
            Lookup::Env(v) => format!("env:{v}"),
            Lookup::Upwards(p) => format!("up:{p}"),
            Lookup::OnPath(n) => format!("path:{n}"),
        })
        .collect()
}

#[test]
fn interpreted_plugins_look_for_their_runner_in_order() {
    assert!(runner_lookup(&LaunchPlan::Executable { path: "/bin/x".to_string() }).is_none());
    let py = runner_lookup(&LaunchPlan::Python).expect("python needs a runner");
    assert_eq!(
        describe(&py.interpreter),
        vec!["env:KANON_PYTHON_BIN", "up:sdks/python/.venv/bin/python", "path:python3", "path:python"]
    );
    assert_eq!(describe(&py.script), vec!["env:KANON_PYTHON_HOST_PATH", "up:sdks/python/kanon_host/main.py", "up:kanon_host/main.py"]);
    match runner_missing(&py, true) {
        SupervisorError::RuntimeUnavailable { runtime, reason } => {
            assert_eq!(runtime, "python");
            assert_eq!(reason, "Neither python3 nor a virtual environment (.venv) was found in PATH");
        }
        other => panic!("unexpected {other:?}"),
    }
    let ts = runner_lookup(&LaunchPlan::TypeScript).expect("typescript needs a runner");
    assert_eq!(describe(&ts.interpreter), vec!["env:KANON_NODE_BIN", "path:bun", "path:node"]);
    assert!(matches!(runner_missing(&ts, false), SupervisorError::RuntimeUnavailable { reason, .. }
        if reason == "Could not locate TypeScript host runner script (dist/src/host/index.js)"));
}

#[test]
fn spawned_hosts_get_their_endpoints_and_a_readiness_deadline() {
    let env = host_environment("host_demo", "/run/host_demo.sock", "/run/core.sock", "/run");
    assert_eq!(
        env,
        vec![
            ("KANON_HOST_ID".to_string(), "host_demo".to_string()),
            ("KANON_HOST_SOCK".to_string(), "/run/host_demo.sock".to_string()),
            ("KANON_CORE_SOCK".to_string(), "/run/core.sock".to_string()),
            ("KANON_RUN_DIR".to_string(), "/run".to_string()),
        ]
    );
    assert!(matches!(readiness_step("h", 0, HOST_READY_TIMEOUT, None), ReadinessStep::Connect));
    assert!(matches!(
        readiness_step("h", 10, HOST_READY_TIMEOUT, Some("exit status: 1".to_string())),
        ReadinessStep::Fail(SupervisorError::PrematureExit { status, .. }) if status == "exit status: 1"
    ));
    assert!(matches!(
        readiness_step("h", HOST_READY_TIMEOUT, HOST_READY_TIMEOUT, None),
        ReadinessStep::Fail(SupervisorError::Timeout(h)) if h == "h"
    ));
}

#[test]
fn builtins_precede_plugin_adapters_whatever_their_platform() {
    let mut supervisor = Supervisor::new("/run".to_string(), "/run/core.sock".to_string());
    supervisor.register_managed_host(
        ManagedHost::new("host_a".to_string(), "/run/a.sock".to_string(), vec![], 500)
            .with_manifest(manifest("org.kanon.adapter.alpha", "python", None, Some(("alpha", None)))),
    );
    let builtin = |p: &str| AdapterDescriptor {
        platform: p.to_string(),
        display_name: p.to_string(),
        kind: AdapterKind::Builtin,
        connected: true,
        circuit_state: CircuitState::Closed,
        plugin_id: None,
        host_id: None,
    };
    let catalog = supervisor.adapter_catalog(vec![builtin("zeta"), builtin("beta")]);
    let platforms: Vec<String> = catalog.iter().map(|d| d.platform.clone()).collect();
    assert_eq!(platforms, vec!["beta".to_string(), "zeta".to_string(), "alpha".to_string()]);
    assert_eq!(catalog[2].kind, AdapterKind::Plugin);
    assert_eq!(catalog[2].plugin_id.as_deref(), Some("org.kanon.adapter.alpha"));
    assert_eq!(catalog[2].host_id.as_deref(), Some("host_a"));
}
