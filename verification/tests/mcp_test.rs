use kanon::instance::{InstanceDraft, InstanceRegistry, ItemPolicy};
use kanon::json::{JsonNumber, JsonValue};
use kanon::mcp::{
    answers_request, call_text, foreign_tool_message, host_id, http_payload, qualified_tool_name, rpc_result,
    server_usable, tool_metas, unqualified_tool_name, validate_config, McpConfigStore, McpError, McpHealth,
    McpServer, McpServerConfig, McpTransport, MCP_MAX_FAILURES,
};
use kanon::mcp::{clone_config, same_config, McpPool};
use kanon::mcp::{tool_call_params, tool_call_response, ToolCallRequest};
use kanon::mcp::{initialize_params, rpc_notification, rpc_request, transport_error, TransportFailure, MCP_PROTOCOL_VERSION};
use kanon::string_map::StringMap;
use kanon::toggle::{ToggleStore, MCP_SECTION};

fn s(v: &str) -> JsonValue {
    JsonValue::String(v.to_string())
}

fn obj(pairs: Vec<(&str, JsonValue)>) -> JsonValue {
    JsonValue::Object(pairs.into_iter().map(|(k, v)| (k.to_string(), v)).collect())
}

fn stdio(id: &str, name: &str, command: &str) -> McpServerConfig {
    McpServerConfig {
        id: id.to_string(),
        name: name.to_string(),
        transport: McpTransport::Stdio { command: command.to_string(), args: vec![], env: StringMap::new() },
    }
}

fn http(id: &str, url: &str) -> McpServerConfig {
    McpServerConfig {
        id: id.to_string(),
        name: "Remote".to_string(),
        transport: McpTransport::Http { url: url.to_string(), headers: StringMap::new() },
    }
}

fn config_error(config: &McpServerConfig) -> String {
    match validate_config(config) {
        Err(McpError::Config(m)) => m,
        Err(other) => panic!("unexpected error {}", other.message()),
        Ok(()) => panic!("configuration must be refused"),
    }
}

#[test]
fn server_configurations_are_validated() {
    assert!(validate_config(&stdio("files", "Files", "npx")).is_ok());
    assert!(validate_config(&http("remote", "https://mcp.example.com")).is_ok());
    assert_eq!(config_error(&stdio("bad id", "Files", "npx")), "invalid MCP server id 'bad id': use letters, digits, '-' or '_'");
    assert_eq!(config_error(&stdio("", "Files", "npx")), "invalid MCP server id '': use letters, digits, '-' or '_'");
    assert_eq!(config_error(&stdio("files", "  ", "npx")), "server name must not be empty");
    assert_eq!(config_error(&stdio("files", "Files", " ")), "stdio command must not be empty");
    assert_eq!(config_error(&http("remote", "ftp://x")), "HTTP MCP url must start with http:// or https://");
}

#[test]
fn connect_handshakes_and_exposes_qualified_tools() {
    assert_eq!(host_id("files"), "mcp_files");
    assert_eq!(qualified_tool_name("files", "read"), "mcp__files__read");
    assert_eq!(unqualified_tool_name("files", "mcp__files__read"), Some("read".to_string()));
    assert_eq!(unqualified_tool_name("files", "mcp__other__read"), None);

    let list = obj(vec![(
        "tools",
        JsonValue::Array(vec![
            obj(vec![("name", s("read")), ("description", s("Reads a file")), ("inputSchema", obj(vec![("type", s("object"))]))]),
            obj(vec![("description", s("nameless"))]),
            obj(vec![("name", s("list"))]),
        ]),
    )]);
    let tools = tool_metas("files", list);
    assert_eq!(tools.len(), 2);
    assert_eq!(tools[0].name, "mcp__files__read");
    assert_eq!(tools[0].description, "Reads a file");
    assert!(matches!(tools[0].parameters, Some(JsonValue::Object(_))));
    assert_eq!(tools[1].name, "mcp__files__list");
    assert_eq!(tools[1].description, "");
    assert!(tools[1].parameters.is_none());

    let mut server = McpServer::new(stdio("files", "Files", "npx"));
    assert_eq!(server.host_id(), "mcp_files");
    assert_eq!(server.take_request_id(), 1);
    assert_eq!(server.take_request_id(), 2);
    server.set_tools(tools);
    assert_eq!(server.tool_count(), 2);
    assert_eq!(server.plugin_meta().len(), 1);
    assert_eq!(server.plugin_meta()[0].tools.len(), 2);
    assert_eq!(server.health().state, "connecting");
    server.record_success();
    assert_eq!((server.health().state.as_str(), server.health().tools), ("connected", 2));
    server.record_failure("broken pipe");
    assert_eq!(server.health().state, "reconnecting");
}

#[test]
fn a_missing_server_records_the_concrete_failure() {
    let mut health = McpHealth::default();
    assert_eq!(health.state, "connecting");
    health.record_failure("spawn failed: No such file or directory");
    assert_eq!(health.state, "reconnecting");
    assert_eq!(health.last_error.as_deref(), Some("spawn failed: No such file or directory"));
    for _ in 1..MCP_MAX_FAILURES {
        health.record_failure("again");
    }
    assert_eq!(health.failures, MCP_MAX_FAILURES);
    assert_eq!(health.state, "failed");
    health.record_success(4);
    assert_eq!((health.state.as_str(), health.failures, health.tools), ("connected", 0, 4));
    health.disconnect();
    assert_eq!((health.state.as_str(), health.tools), ("disconnected", 0));
}

#[test]
fn pool_honours_the_global_switch_and_the_instance_policy() {
    let mut toggles = ToggleStore::in_memory();
    assert!(server_usable(&toggles, None, "files"));
    let mut registry = InstanceRegistry::in_memory();
    let mut draft = InstanceDraft::default();
    draft.name = "bot".to_string();
    draft.mcp.insert("search".to_string(), ItemPolicy::Disable);
    draft.mcp.insert("files".to_string(), ItemPolicy::Enable);
    let instance = registry.create(draft).unwrap();
    assert!(server_usable(&toggles, Some(&instance), "files"));
    assert!(!server_usable(&toggles, Some(&instance), "search"));
    toggles.set_enabled(MCP_SECTION, "files", false);
    assert!(!server_usable(&toggles, None, "files"));
    assert!(!server_usable(&toggles, Some(&instance), "files"));
}

#[test]
fn the_config_store_keeps_servers_by_identifier() {
    let mut store = McpConfigStore::in_memory();
    assert!(store.path().is_none());
    store.upsert(stdio("files", "Files", "npx")).expect("valid");
    store.upsert(http("remote", "http://localhost:9000")).expect("valid");
    assert!(matches!(store.upsert(stdio("bad id", "x", "y")), Err(McpError::Config(_))));
    let ids: Vec<String> = store.list().iter().map(|c| c.id.clone()).collect();
    assert_eq!(ids, vec!["files".to_string(), "remote".to_string()]);
    assert_eq!(store.get("files").map(|c| c.name.clone()), Some("Files".to_string()));
    assert!(store.remove("files"));
    assert!(!store.remove("files"));
    assert!(store.get("files").is_none());
}

#[test]
fn json_rpc_answers_are_matched_and_unwrapped() {
    let answer = obj(vec![("jsonrpc", s("2.0")), ("id", JsonValue::Number(JsonNumber::PosInt(7))), ("result", obj(vec![("ok", JsonValue::Bool(true))]))]);
    assert!(answers_request(&answer, 7));
    assert!(!answers_request(&answer, 8));
    assert!(!answers_request(&obj(vec![("method", s("notifications/progress"))]), 7));
    assert!(matches!(rpc_result(answer, "files", "tools/list"), Ok(JsonValue::Object(m)) if m.len() == 1));
    assert!(matches!(rpc_result(obj(vec![("id", JsonValue::Null)]), "files", "ping"), Ok(JsonValue::Null)));

    let failure = obj(vec![("error", obj(vec![("code", JsonValue::Number(JsonNumber::NegInt(-32601))), ("message", s("Method not found"))]))]);
    match rpc_result(failure, "files", "tools/call") {
        Err(e @ McpError::Rpc { .. }) => assert_eq!(e.message(), "MCP server 'files' rejected 'tools/call': Method not found"),
        _ => panic!("expected an RPC error"),
    }
    match rpc_result(obj(vec![("error", obj(vec![]))]), "files", "x") {
        Err(McpError::Rpc { message, .. }) => assert_eq!(message, "unknown error"),
        _ => panic!("expected an RPC error"),
    }
}

#[test]
fn event_stream_bodies_yield_their_last_data_line() {
    assert_eq!(http_payload("event: message\ndata: {\"a\":1}\n\ndata: {\"b\":2}\n\n"), "{\"b\":2}");
    assert_eq!(http_payload("  {\"plain\":true}\n"), "{\"plain\":true}");
    assert_eq!(http_payload("data:   \n"), "data:");
}

#[test]
fn tool_call_text_joins_the_text_items() {
    let result = obj(vec![(
        "content",
        JsonValue::Array(vec![obj(vec![("type", s("text")), ("text", s("first"))]), obj(vec![("type", s("image"))]), obj(vec![("text", s("second"))])]),
    )]);
    assert_eq!(call_text(&result), Some("first\nsecond".to_string()));
    assert_eq!(call_text(&obj(vec![("content", JsonValue::Array(vec![]))])), None);
    assert_eq!(call_text(&obj(vec![("structured", JsonValue::Bool(true))])), None);
    assert_eq!(foreign_tool_message("weather", "files"), "Tool 'weather' does not belong to MCP server 'files'");
}

#[test]
fn a_connected_server_reuses_its_transport() {
    let mut config = McpConfigStore::in_memory();
    config.upsert(stdio("files", "Files", "npx")).unwrap();
    config.upsert(http("remote", "https://mcp.example.com")).unwrap();
    let mut pool = McpPool::new();
    pool.sync_from_config(&config);
    assert_eq!(pool.describe().len(), 2);

    // The live server keeps its state across a sync that does not change its configuration.
    let mut files = pool.take("files").expect("configured");
    files.record_success();
    pool.put(files);
    config.upsert(http("remote", "https://other.example.com")).unwrap();
    config.remove("gone");
    pool.sync_from_config(&config);
    assert_eq!(pool.get("files").unwrap().health().state, "connected");
    assert_eq!(pool.get("remote").unwrap().health().state, "connecting");

    // Removed servers leave the pool.
    config.remove("remote");
    pool.sync_from_config(&config);
    let described: Vec<String> = pool.describe().iter().map(|(c, _)| c.id.clone()).collect();
    assert_eq!(described, vec!["files".to_string()]);
}

#[test]
fn configurations_are_compared_by_content() {
    let mut a = stdio("files", "Files", "npx");
    if let McpTransport::Stdio { env, args, .. } = &mut a.transport {
        env.insert("TOKEN".to_string(), "x".to_string());
        args.push("-y".to_string());
    }
    let b = clone_config(&a);
    assert!(same_config(&a, &b));
    let mut c = clone_config(&a);
    if let McpTransport::Stdio { env, .. } = &mut c.transport {
        env.insert("TOKEN".to_string(), "y".to_string());
    }
    assert!(!same_config(&a, &c));
    assert!(!same_config(&a, &http("files", "http://x")));
}

#[test]
fn the_pool_offers_only_usable_servers() {
    let mut config = McpConfigStore::in_memory();
    config.upsert(stdio("files", "Files", "npx")).unwrap();
    config.upsert(stdio("search", "Search", "npx")).unwrap();
    let mut pool = McpPool::new();
    pool.sync_from_config(&config);
    let mut toggles = ToggleStore::in_memory();
    assert_eq!(pool.usable_server_ids(&toggles, None), vec!["files".to_string(), "search".to_string()]);
    toggles.set_enabled(MCP_SECTION, "search", false);
    assert_eq!(pool.usable_server_ids(&toggles, None), vec!["files".to_string()]);
}

fn keys(v: &JsonValue) -> Vec<String> {
    match v {
        JsonValue::Object(m) => m.iter().map(|(k, _)| k.clone()).collect(),
        _ => panic!("an object was expected"),
    }
}

#[test]
fn requests_and_notifications_are_framed_as_json_rpc() {
    let req = rpc_request(7, "tools/list", obj(vec![]));
    assert_eq!(keys(&req), vec!["jsonrpc", "id", "method", "params"]);
    assert!(answers_request(&req, 7));
    assert_eq!(req.get("method").and_then(|m| m.as_str()), Some("tools/list"));
    let call = tool_call_params("read", obj(vec![("path", s("/tmp/a"))]));
    assert_eq!(keys(&call), vec!["name", "arguments"]);
    assert_eq!(call.get("name").and_then(|v| v.as_str()), Some("read"));
    let note = rpc_notification("notifications/initialized", obj(vec![]));
    assert_eq!(keys(&note), vec!["jsonrpc", "method", "params"]);
    assert!(note.get("id").is_none());
    let init = initialize_params("0.1.0");
    assert_eq!(init.get("protocolVersion").and_then(|v| v.as_str()), Some(MCP_PROTOCOL_VERSION));
    assert_eq!(MCP_PROTOCOL_VERSION, "2024-11-05");
    let info = init.get("clientInfo").expect("client info");
    assert_eq!(info.get("name").and_then(|v| v.as_str()), Some("kanon"));
    assert_eq!(info.get("version").and_then(|v| v.as_str()), Some("0.1.0"));
}

#[test]
fn transport_failures_name_the_server_and_method() {
    let m = |f| transport_error("files", "tools/call", f).message();
    assert_eq!(m(TransportFailure::NotConnected), "MCP transport failed: MCP server 'files' is not connected");
    assert_eq!(m(TransportFailure::TimedOut), "MCP transport failed: MCP server 'files' did not answer 'tools/call' in time");
    assert_eq!(
        m(TransportFailure::OutputClosed),
        "MCP transport failed: MCP server 'files' closed its output while answering 'tools/call'"
    );
    assert_eq!(
        m(TransportFailure::HttpStatus("502 Bad Gateway".to_string())),
        "MCP transport failed: MCP server 'files' answered HTTP 502 Bad Gateway"
    );
}

#[test]
fn call_tool_strips_the_server_prefix_and_defaults_arguments() {
    let server = McpServer::new(stdio("files", "Files", "npx"));
    let req = ToolCallRequest { call_id: "c1".to_string(), tool_name: "mcp__files__read".to_string(), arguments: None };
    let (tool, params) = match server.call_tool(req) {
        Ok(step) => step,
        Err(_) => panic!("the call belongs to this server"),
    };
    assert_eq!(tool, "read");
    match params {
        JsonValue::Object(m) => {
            assert_eq!(m.len(), 2);
            assert_eq!(m[0].0, "name");
            assert!(matches!(&m[0].1, JsonValue::String(t) if t == "read"));
            assert_eq!(m[1].0, "arguments");
            assert!(matches!(&m[1].1, JsonValue::Object(e) if e.is_empty()));
        }
        _ => panic!("parameters are an object"),
    }
}

#[test]
fn call_tool_passes_the_request_arguments() {
    let server = McpServer::new(stdio("files", "Files", "npx"));
    let args = JsonValue::Object(vec![("path".to_string(), JsonValue::String("/tmp".to_string()))]);
    let req = ToolCallRequest { call_id: "c2".to_string(), tool_name: "mcp__files__list".to_string(), arguments: Some(args) };
    match server.call_tool(req) {
        Ok((tool, JsonValue::Object(m))) => {
            assert_eq!(tool, "list");
            assert!(matches!(&m[1].1, JsonValue::Object(a) if a.len() == 1 && a[0].0 == "path"));
        }
        _ => panic!("the call belongs to this server"),
    }
}

#[test]
fn call_tool_refuses_a_tool_of_another_server() {
    let server = McpServer::new(stdio("files", "Files", "npx"));
    let req = ToolCallRequest { call_id: "c3".to_string(), tool_name: "mcp__web__fetch".to_string(), arguments: None };
    match server.call_tool(req) {
        Err(resp) => {
            assert_eq!(resp.call_id, "c3");
            assert!(!resp.success);
            assert_eq!(resp.error_message, "Tool 'mcp__web__fetch' does not belong to MCP server 'files'");
            assert!(resp.payload.is_none());
        }
        Ok(_) => panic!("the call must be refused"),
    }
}

#[test]
fn tool_call_response_wraps_text_or_reports_the_error() {
    let ok = tool_call_response("c4".to_string(), Ok("42 files".to_string()));
    assert_eq!(ok.call_id, "c4");
    assert!(ok.success);
    assert_eq!(ok.error_message, "");
    match ok.payload {
        Some(JsonValue::Object(m)) => {
            assert_eq!(m.len(), 1);
            assert_eq!(m[0].0, "content");
            assert!(matches!(&m[0].1, JsonValue::String(t) if t == "42 files"));
        }
        _ => panic!("a successful call carries its content"),
    }
    let failed = tool_call_response("c5".to_string(), Err(McpError::Transport("pipe closed".to_string())));
    assert_eq!(failed.call_id, "c5");
    assert!(!failed.success);
    assert_eq!(failed.error_message, "MCP transport failed: pipe closed");
    assert!(failed.payload.is_none());
}
