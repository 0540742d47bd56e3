use std::time::Duration;

use kanon::json::JsonValue;
use kanon::message::PluginMeta;
use kanon::supervisor::circuit_breaker::{CircuitBreaker, CircuitBreakerConfig, CircuitState, FailureReason};
use kanon::supervisor::HostCall;
use kanon::supervisor::{
    termination_step, LaunchSpec, ManagedHost, Supervisor, SupervisorError, TerminationStep,
    HOST_SHUTDOWN_GRACE,
};

fn plugin(id: &str) -> PluginMeta {
    PluginMeta {
        id: id.to_string(),
        name: "Demo".to_string(),
        version: "1.0.0".to_string(),
        author: String::new(),
        description: String::new(),
        commands: vec![],
        tools: vec![],
    }
}

fn object(pairs: Vec<(&str, JsonValue)>) -> JsonValue {
    JsonValue::Object(pairs.into_iter().map(|(k, v)| (k.to_string(), v)).collect())
}

#[test]
fn the_shutdown_grace_period_is_bounded() {
    let grace = Duration::from_micros(HOST_SHUTDOWN_GRACE);
    assert!(grace >= Duration::from_secs(1));
    assert!(grace <= Duration::from_secs(10));
}

#[test]
fn termination_waits_for_the_grace_period_then_kills() {
    assert_eq!(termination_step(true, 0, 200_000), TerminationStep::Reaped);
    assert_eq!(termination_step(true, 999_999, 200_000), TerminationStep::Reaped);
    assert_eq!(termination_step(false, 199_999, 200_000), TerminationStep::KeepWaiting);
    assert_eq!(termination_step(false, 200_000, 200_000), TerminationStep::Kill);
}

#[test]
fn restart_requires_a_recorded_launch_spec() {
    let mut supervisor = Supervisor::new("/tmp/run".to_string(), "/tmp/run/core.sock".to_string());
    let host = ManagedHost::new(
        "host_external".to_string(),
        "/tmp/run/host_external.sock".to_string(),
        vec![],
        500,
    );
    supervisor.register_managed_host(host);

    let error = supervisor.restart_plan("host_external").expect_err("no launch recipe");
    assert!(matches!(error, SupervisorError::RestartUnavailable(id) if id == "host_external"));

    let error = supervisor.restart_plan("host_missing").expect_err("unknown host");
    assert!(matches!(error, SupervisorError::HostNotFound(id) if id == "host_missing"));
}

#[test]
fn restart_reuses_the_recorded_launch_spec() {
    let mut supervisor = Supervisor::new("/tmp/run".to_string(), "/tmp/run/core.sock".to_string());
    let host = ManagedHost::new("host_demo".to_string(), "/tmp/demo.sock".to_string(), vec![plugin("org.kanon.plugin.demo")], 300)
        .with_launch_spec(LaunchSpec::Direct {
            executable: "bin/demo".to_string(),
            args: vec!["--flag".to_string()],
            priority: 300,
        });
    supervisor.register_managed_host(host);
    match supervisor.restart_plan("host_demo").expect("recipe recorded") {
        LaunchSpec::Direct { executable, args, priority } => {
            assert_eq!(executable, "bin/demo");
            assert_eq!(args, &vec!["--flag".to_string()]);
            assert_eq!(*priority, 300);
        }
        other => panic!("unexpected recipe: {other:?}"),
    }
}

#[test]
fn managed_host_exposes_launch_spec_and_declared_plugins() {
    let host = ManagedHost::new("host_demo".to_string(), "/tmp/demo.sock".to_string(), vec![plugin("org.kanon.plugin.demo")], 300)
        .with_launch_spec(LaunchSpec::Direct {
            executable: "bin/demo".to_string(),
            args: vec!["--flag".to_string()],
            priority: 300,
        });
    assert!(host.declares_plugin("org.kanon.plugin.demo"));
    assert!(!host.declares_plugin("org.kanon.plugin.other"));
    assert!(matches!(host.launch_spec(), Some(LaunchSpec::Direct { .. })));
    assert!(host.manifest().is_none());
}

#[test]
fn reload_config_reports_missing_plugin_and_invalid_payload() {
    let mut supervisor = Supervisor::new("/tmp/run".to_string(), "/tmp/run/core.sock".to_string());
    supervisor.register_managed_host(ManagedHost::new(
        "host_demo".to_string(),
        "/tmp/run/host_demo.sock".to_string(),
        vec![plugin("org.kanon.plugin.demo")],
        500,
    ));

    let error = supervisor
        .prepare_config_reload("org.kanon.plugin.absent", &object(vec![]), None)
        .expect_err("unknown plugin");
    assert!(matches!(error, SupervisorError::PluginNotFound(id) if id == "org.kanon.plugin.absent"));

    let error = supervisor
        .prepare_config_reload("org.kanon.plugin.demo", &JsonValue::String("nope".to_string()), None)
        .expect_err("scalar payload");
    assert!(matches!(error, SupervisorError::InvalidConfigPayload));

    let (host_id, next) = supervisor
        .prepare_config_reload("org.kanon.plugin.demo", &object(vec![("k", JsonValue::String("v".to_string()))]), None)
        .expect("object payload on a declared plugin");
    assert_eq!(host_id, "host_demo");
    assert_eq!(next, 1);
}

#[test]
fn config_hot_reload_enforces_cas_version_vectors() {
    let plugin_id = "org.kanon.plugin.cas_test";
    let mut supervisor = Supervisor::new("/tmp/run".to_string(), "/tmp/run/core.sock".to_string());
    supervisor.register_managed_host(ManagedHost::new(
        "host_cas".to_string(),
        "/tmp/run/host_cas.sock".to_string(),
        vec![plugin(plugin_id)],
        500,
    ));
    let payload = object(vec![("k", JsonValue::Bool(true))]);
    assert_eq!(supervisor.config_version(plugin_id), 0);

    let err = supervisor.prepare_config_reload(plugin_id, &payload, Some(5)).expect_err("mismatch");
    assert!(matches!(err, SupervisorError::StaleConfigVersion { current_version: 0, requested_version: 5, .. }));

    let (host, next) = supervisor.prepare_config_reload(plugin_id, &payload, Some(0)).expect("cas 0");
    let v1 = supervisor.apply_config_reload(plugin_id, host, next, true, String::new(), next).expect("applied");
    assert_eq!(v1, 1);
    assert_eq!(supervisor.config_version(plugin_id), 1);

    let (host, next) = supervisor.prepare_config_reload(plugin_id, &payload, Some(1)).expect("cas 1");
    let v2 = supervisor.apply_config_reload(plugin_id, host, next, true, String::new(), next).expect("applied");
    assert_eq!(v2, 2);
    assert_eq!(supervisor.config_version(plugin_id), 2);

    let err = supervisor.prepare_config_reload(plugin_id, &payload, Some(1)).expect_err("stale");
    assert!(matches!(err, SupervisorError::StaleConfigVersion { current_version: 2, requested_version: 1, .. }));
    assert_eq!(supervisor.config_version(plugin_id), 2);
}

#[test]
fn a_rejected_reload_keeps_the_version() {
    let plugin_id = "org.kanon.plugin.cas_test";
    let mut supervisor = Supervisor::new("/tmp/run".to_string(), "/tmp/run/core.sock".to_string());
    supervisor.register_managed_host(ManagedHost::new("host_cas".to_string(), "/tmp/s".to_string(), vec![plugin(plugin_id)], 500));
    let err = supervisor
        .apply_config_reload(plugin_id, "host_cas".to_string(), 1, false, "Stale version".to_string(), 0)
        .expect_err("rejected");
    match &err {
        SupervisorError::ConfigReloadRejected { host_id, plugin_id: p, reason } => {
            assert_eq!(host_id, "host_cas");
            assert_eq!(p, plugin_id);
            assert_eq!(reason, "Stale version");
        }
        other => panic!("unexpected: {other:?}"),
    }
    assert_eq!(
        err.message(),
        "Host 'host_cas' rejected configuration reload for plugin 'org.kanon.plugin.cas_test': Stale version"
    );
    assert_eq!(supervisor.config_version(plugin_id), 0);
    // A host reporting its own version wins over the proposed one.
    assert_eq!(supervisor.apply_config_reload(plugin_id, "host_cas".to_string(), 1, true, String::new(), 7).unwrap(), 7);
    assert_eq!(supervisor.config_version(plugin_id), 7);
}

#[test]
fn stale_version_message_spells_both_versions() {
    let e = SupervisorError::StaleConfigVersion { plugin_id: "p".to_string(), current_version: 2, requested_version: 10 };
    assert_eq!(e.message(), "Stale configuration version for plugin 'p': current is 2, requested 10");
}

#[test]
fn hosts_are_listed_by_identifier_and_taken_out() {
    let mut supervisor = Supervisor::new("/tmp/run".to_string(), "/tmp/run/core.sock".to_string());
    supervisor.register_managed_host(ManagedHost::new("host_b".to_string(), "/b".to_string(), vec![plugin("p.b")], 1));
    supervisor.register_managed_host(ManagedHost::new("host_a".to_string(), "/a".to_string(), vec![plugin("p.a")], 2));
    assert_eq!(supervisor.host_count(), 2);
    assert_eq!(supervisor.list_host_ids(), vec!["host_a".to_string(), "host_b".to_string()]);
    assert_eq!(supervisor.find_host_for_plugin("p.b").map(|h| h.host_id.clone()), Some("host_b".to_string()));
    assert!(supervisor.find_host_for_plugin("p.c").is_none());
    let taken = supervisor.take_host("host_a").expect("present");
    assert_eq!(taken.host_id, "host_a");
    assert_eq!(supervisor.host_count(), 1);
    assert!(matches!(supervisor.take_host("host_a"), Err(SupervisorError::HostNotFound(_))));
}

fn config(failure_threshold: usize, latency_ms: u64, window: usize, min_samples: usize, cooldown_ms: u64) -> CircuitBreakerConfig {
    CircuitBreakerConfig {
        failure_threshold,
        latency_threshold: latency_ms * 1000,
        window_size: window,
        min_samples_for_latency: min_samples,
        cooldown_period: cooldown_ms * 1000,
        half_open_success_threshold: 2,
    }
}

#[test]
fn test_circuit_breaker_consecutive_failures_and_cooldown_recovery() {
    let mut cb = CircuitBreaker::new(config(3, 50, 10, 5, 50));
    assert_eq!(cb.state_at(0), CircuitState::Closed);
    assert!(cb.allow_request_at(0));

    cb.record_failure_at("error 1", 1);
    cb.record_failure_at("error 2", 2);
    assert_eq!(cb.consecutive_failures(), 2);
    assert_eq!(cb.state_at(3), CircuitState::Closed);
    assert!(cb.allow_request_at(3));

    cb.record_failure_at("error 3", 10);
    assert_eq!(cb.consecutive_failures(), 3);
    assert_eq!(cb.state_at(10), CircuitState::Open);
    assert!(!cb.allow_request_at(20));

    // 60 ms later the cooldown (50 ms) is over.
    assert!(cb.allow_request_at(60_010), "the probe must be let through");
    assert_eq!(cb.state_at(60_010), CircuitState::HalfOpen);

    cb.record_success_at(5_000, 60_020);
    assert_eq!(cb.consecutive_successes(), 1);
    assert_eq!(cb.state_at(60_020), CircuitState::HalfOpen);

    cb.record_success_at(5_000, 60_030);
    assert_eq!(cb.state_at(60_030), CircuitState::Closed);
    assert_eq!(cb.consecutive_failures(), 0);
    assert!(cb.allow_request_at(60_040));
}

#[test]
fn test_circuit_breaker_half_open_probe_failure_trips_back_to_open() {
    let mut cb = CircuitBreaker::new(config(1, 50, 10, 5, 30));
    cb.record_failure_at("initial timeout", 0);
    assert_eq!(cb.state_at(0), CircuitState::Open);
    assert!(!cb.allow_request_at(1));

    assert!(cb.allow_request_at(40_000));
    assert_eq!(cb.state_at(40_000), CircuitState::HalfOpen);

    cb.record_failure_at("probe failed", 40_001);
    assert_eq!(cb.state_at(40_001), CircuitState::Open);
    assert!(!cb.allow_request_at(40_002));
}

#[test]
fn test_circuit_breaker_sliding_window_latency_tripping() {
    let mut cb = CircuitBreaker::new(config(10, 20, 5, 3, 1000));
    cb.record_success_at(5_000, 1);
    cb.record_success_at(10_000, 2);
    assert_eq!(cb.state_at(2), CircuitState::Closed);

    cb.record_success_at(40_000, 3);
    // [5, 10, 40] ms: average 18.3 ms, under 20 ms.
    assert_eq!(cb.state_at(3), CircuitState::Closed);

    cb.record_success_at(50_000, 4);
    // [5, 10, 40, 50] ms: average 26.25 ms.
    assert_eq!(cb.state_at(4), CircuitState::Open);
    assert!(!cb.allow_request_at(5), "breaker must trip on high average latency");
    // The average RTT is recorded as the reason, in microseconds.
    assert_eq!(
        cb.last_failure_reason(),
        Some(FailureReason::SlowAverage { avg_micros: 26_250, threshold_micros: 20_000 })
    );
}

#[test]
fn the_latency_window_keeps_only_the_newest_samples() {
    let mut cb = CircuitBreaker::new(config(10, 1_000, 2, 1, 1000));
    cb.record_success_at(100, 1);
    cb.record_success_at(200, 2);
    cb.record_success_at(400, 3);
    assert_eq!(cb.average_rtt(), Some(300));
}

#[test]
fn trip_and_reset_override_the_state() {
    let mut cb = CircuitBreaker::with_defaults();
    cb.trip_at("operator", 5);
    assert_eq!(cb.state_at(6), CircuitState::Open);
    assert_eq!(cb.last_failure_reason(), Some(FailureReason::Reported("operator".to_string())));
    cb.reset_at(7);
    assert_eq!(cb.state_at(8), CircuitState::Closed);
    assert_eq!(cb.consecutive_failures(), 0);
    assert_eq!(cb.average_rtt(), None);
    assert_eq!(*cb.config(), CircuitBreakerConfig::default());
}

#[test]
fn test_tool_host_call_tool_fast_fails_when_circuit_open() {
    let mut host = ManagedHost::new("stalled_host".to_string(), "/tmp/s.sock".to_string(), vec![plugin("p")], 100)
        .with_circuit_breaker(CircuitBreaker::new(config(1, 50, 10, 5, 1000)));
    assert!(host.admit_tool_call_at(0).is_ok());
    host.record_call_at(HostCall::ToolCall, Err("Unavailable".to_string()), 1);
    assert_eq!(host.circuit_breaker().last_failure_reason(), Some(FailureReason::Reported("Tool call gRPC error: Unavailable".to_string())));
    assert_eq!(host.admit_tool_call_at(2), Err("Circuit breaker is OPEN for host 'stalled_host'".to_string()));
    host.record_call_at(HostCall::Delivery, Ok(2_000), 3);
    assert_eq!(host.circuit_breaker().average_rtt(), Some(2_000));
}

#[test]
fn test_unified_host_registration_into_supervisor() {
    let mut supervisor = Supervisor::new("/tmp/run".to_string(), "/tmp/run/core.sock".to_string());
    assert!(supervisor.register_external_host("host_py", "/tmp/run/py.sock".to_string(), vec![plugin("org.kanon.plugin.py")]));
    let host = supervisor.get_host("host_py").expect("registered");
    assert_eq!(host.priority, 500);
    assert_eq!(host.socket_path, "/tmp/run/py.sock");
    assert!(host.declares_plugin("org.kanon.plugin.py"));
    // A second announcement keeps the first registration.
    assert!(!supervisor.register_external_host("host_py", "/elsewhere.sock".to_string(), vec![]));
    assert_eq!(supervisor.get_host("host_py").unwrap().socket_path, "/tmp/run/py.sock");
    assert_eq!(supervisor.find_host_for_plugin("org.kanon.plugin.py").map(|h| h.host_id.clone()), Some("host_py".to_string()));
}

#[test]
fn a_failure_while_open_restarts_the_cooldown() {
    let mut cb = CircuitBreaker::new(config(1, 50, 10, 5, 50));
    cb.record_failure_at("a", 0);
    assert_eq!(cb.state_at(0), CircuitState::Open);
    cb.record_failure_at("b", 40_000);
    assert_eq!(cb.consecutive_failures(), 2);
    assert_eq!(cb.last_failure_reason(), Some(FailureReason::Reported("b".to_string())));
    // 60 ms after opening but only 20 ms after the last failure: still refused.
    assert!(!cb.allow_request_at(60_000));
    assert_eq!(cb.state_at(60_000), CircuitState::Open);
    assert!(cb.allow_request_at(90_000));
    assert_eq!(cb.state_at(90_000), CircuitState::HalfOpen);
}

#[test]
fn a_call_completing_while_open_moves_to_half_open() {
    let mut cb = CircuitBreaker::new(config(1, 50, 10, 5, 1000));
    cb.record_failure_at("a", 0);
    assert_eq!(cb.state_at(1), CircuitState::Open);
    cb.record_success_at(7_000, 2);
    assert_eq!(cb.state_at(3), CircuitState::HalfOpen);
    assert_eq!(cb.consecutive_successes(), 0);
    assert_eq!(cb.average_rtt(), Some(7_000));
}

#[test]
fn a_tripped_default_host_refuses_tool_calls() {
    let mut host = ManagedHost::new("dead_host".to_string(), "/tmp/dead_host.sock".to_string(), vec![plugin("p")], 100);
    host.circuit_breaker.trip_at("Host GC pause timeout", 10);
    let refused = host.admit_tool_call_at(20).expect_err("an open breaker refuses");
    assert!(refused.contains("Circuit breaker is OPEN"));
    assert_eq!(host.circuit_breaker().consecutive_failures(), 0);
}
