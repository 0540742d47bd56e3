//! Plugin host supervision.
//!
//! The supervisor keeps the registry of managed plugin hosts, remembers how each host was
//! launched so that a restart reconstructs the same command line, tracks configuration versions
//! for compare-and-swap reloads, remembers plugins whose runtime is unavailable, and derives the
//! adapter routing and catalog from host manifests. Spawning processes, waiting for sockets and
//! talking to hosts over IPC is the I/O layer's work; it asks this module what to do and reports
//! back what happened.
use vstd::prelude::*;

use crate::adapter::{AdapterDescriptor, AdapterKind, AdapterRegistry};
use crate::json::JsonValue;
use crate::manifest::{AdapterSection, PluginManifest};
use crate::message::{CommandMeta, PluginMeta, ToolMeta};
use crate::order::{apply_order, is_stable_order, key_of, key_lt, stable_order};
use crate::string_map::StringMap;
use crate::text::{chars_of, owned, push_char, str_equal};

pub mod circuit_breaker;

use circuit_breaker::{allow_step, failure_step, success_step, CircuitBreaker, CircuitState};

verus! {

/// Errors arising during supervisor operations.
#[derive(Debug)]
pub enum SupervisorError {
    /// I/O failure launching a process or inspecting a socket.
    Io(String),
    /// Transport error connecting to a host.
    Transport(String),
    /// RPC error returned by a host.
    Rpc(String),
    /// Host did not become ready within the deadline.
    Timeout(String),
    /// Host process exited before completing its handshake.
    PrematureExit {
        /// Host identifier.
        host_id: String,
        /// Exit status as reported by the OS.
        status: String,
    },
    /// Manifest could not be loaded.
    Manifest(String),
    /// Requested host is not registered.
    HostNotFound(String),
    /// Requested plugin is not loaded by any host.
    PluginNotFound(String),
    /// Host has no recorded launch recipe and cannot be restarted.
    RestartUnavailable(String),
    /// Configuration payload is not a JSON object.
    InvalidConfigPayload,
    /// Host rejected a configuration reload.
    ConfigReloadRejected {
        /// Host identifier.
        host_id: String,
        /// Plugin identifier.
        plugin_id: String,
        /// Reason reported by the host.
        reason: String,
    },
    /// Compare-and-swap reload carried a stale version.
    StaleConfigVersion {
        /// Plugin identifier.
        plugin_id: String,
        /// Version currently applied.
        current_version: u64,
        /// Version the caller expected.
        requested_version: u64,
    },
    /// Runtime environment is missing or unsupported.
    RuntimeUnavailable {
        /// Runtime name.
        runtime: String,
        /// Why it is unavailable.
        reason: String,
    },
}

/// Recorded recipe describing how a host process was launched.
#[derive(Debug)]
pub enum LaunchSpec {
    /// Spawned from an executable with an explicit argument vector.
    Direct {
        /// Executable path.
        executable: String,
        /// Arguments passed to it.
        args: Vec<String>,
        /// Pipeline priority retained across restarts.
        priority: i32,
    },
    /// Spawned from a `plugin.toml` manifest; restarts re-resolve the runtime launcher.
    Manifest {
        /// Path of the manifest file.
        manifest_path: String,
        /// Pre-built artifact overriding the manifest entrypoint.
        executable_override: Option<String>,
        /// Pipeline priority retained across restarts.
        priority: i32,
    },
}

/// A plugin host managed by the supervisor: everything the core decides on about it.
pub struct ManagedHost {
    /// Unique identifier (e.g. `host_demo_rust`).
    pub host_id: String,
    /// Path of the host's dedicated IPC endpoint.
    pub socket_path: String,
    /// Metadata obtained during the handshake.
    pub meta: Vec<PluginMeta>,
    /// Pipeline priority (lower first).
    pub priority: i32,
    /// Launch recipe; absent for externally registered hosts.
    pub launch_spec: Option<LaunchSpec>,
    /// Static manifest that produced this host.
    pub manifest: Option<PluginManifest>,
    /// Circuit breaker tracking the host's latency and failures.
    pub circuit_breaker: CircuitBreaker,
}

/// The adapter declaration of a host's manifest.
pub open spec fn host_adapter(h: ManagedHost) -> Option<AdapterSection> {
    match h.manifest {
        Some(m) => m.adapter,
        None => None,
    }
}

/// Platforms a host serves as an adapter.
pub open spec fn host_platforms(h: ManagedHost) -> Seq<Seq<char>> {
    match host_adapter(h) {
        Some(a) => seq![a.platform@],
        None => Seq::empty(),
    }
}

/// Console name of a host's adapter.
pub open spec fn host_adapter_name(h: ManagedHost) -> Option<Seq<char>> {
    match host_adapter(h) {
        Some(a) => match a.display_name {
            Some(n) => Some(n@),
            None => Some(a.platform@),
        },
        None => None,
    }
}

/// Plugin identifier of a host's adapter declaration.
pub open spec fn host_adapter_plugin(h: ManagedHost) -> Option<Seq<char>> {
    match h.manifest {
        Some(m) => if m.adapter is Some {
            Some(m.plugin.id@)
        } else {
            None
        },
        None => None,
    }
}

/// Whether some plugin of the host has identifier `id`.
pub open spec fn host_declares(h: ManagedHost, id: Seq<char>) -> bool {
    exists|i: int| 0 <= i < h.meta@.len() && #[trigger] h.meta@[i].id@ == id
}

impl ManagedHost {
    /// Creates a host record without launch recipe or manifest, with a default circuit breaker
    /// (5 failures, 50 ms average RTT over 20 samples with at least 5, 5 s cooldown, 2 probes).
    pub fn new(host_id: String, socket_path: String, meta: Vec<PluginMeta>, priority: i32) -> (h: Self)
        ensures
            h.host_id == host_id,
            h.socket_path == socket_path,
            h.meta == meta,
            h.priority == priority,
            h.launch_spec_view() is None,
            h.manifest is None,
            h.circuit_breaker@ == circuit_breaker::initial_model(
                (circuit_breaker::CircuitBreakerConfig {
                    failure_threshold: 5,
                    latency_threshold: 50_000,
                    window_size: 20,
                    min_samples_for_latency: 5,
                    cooldown_period: 5_000_000,
                    half_open_success_threshold: 2,
                }),
                0,
            ),
    {
        ManagedHost {
            host_id,
            socket_path,
            meta,
            priority,
            launch_spec: None,
            manifest: None,
            circuit_breaker: CircuitBreaker::with_defaults(),
        }
    }

    /// The launch recipe.
    pub open spec fn launch_spec_view(&self) -> Option<LaunchSpec> {
        self.launch_spec
    }

    /// Replaces the circuit breaker.
    pub fn with_circuit_breaker(self, breaker: CircuitBreaker) -> (h: Self)
        ensures
            h == (ManagedHost { circuit_breaker: breaker, ..self }),
    {
        ManagedHost { circuit_breaker: breaker, ..self }
    }

    /// The host's circuit breaker.
    pub fn circuit_breaker(&self) -> (r: &CircuitBreaker)
        ensures
            *r == self.circuit_breaker,
    {
        &self.circuit_breaker
    }

    /// Attaches a launch recipe.
    pub fn with_launch_spec(self, spec: LaunchSpec) -> (h: Self)
        ensures
            h == (ManagedHost { launch_spec: Some(spec), ..self }),
            h.launch_spec_view() == Some(spec),
    {
        ManagedHost { launch_spec: Some(spec), ..self }
    }

    /// Attaches the static manifest.
    pub fn with_manifest(self, manifest: PluginManifest) -> (h: Self)
        ensures
            h == (ManagedHost { manifest: Some(manifest), ..self }),
    {
        ManagedHost { manifest: Some(manifest), ..self }
    }

    /// The launch recipe, when the supervisor spawned this host.
    pub fn launch_spec(&self) -> (r: Option<&LaunchSpec>)
        ensures
            match r {
                Some(s) => self.launch_spec_view() == Some(*s),
                None => self.launch_spec_view() is None,
            },
    {
        match &self.launch_spec {
            Some(s) => Some(s),
            None => None,
        }
    }

    /// The static manifest retained for this host.
    pub fn manifest(&self) -> (r: Option<&PluginManifest>)
        ensures
            match r {
                Some(m) => self.manifest == Some(*m),
                None => self.manifest is None,
            },
    {
        match &self.manifest {
            Some(m) => Some(m),
            None => None,
        }
    }

    /// Whether this host declares plugin `plugin_id`.
    pub fn declares_plugin(&self, plugin_id: &str) -> (r: bool)
        ensures
            r == host_declares(*self, plugin_id@),
    {
        let n = self.meta.len();
        for i in 0..n
            invariant
                n == self.meta@.len(),
                forall|j: int| 0 <= j < i ==> self.meta@[j].id@ != plugin_id@,
        {
            if str_equal(self.meta[i].id.as_str(), plugin_id) {
                return true;
            }
        }
        false
    }

    /// Platforms this host serves as an adapter, from its manifest.
    pub fn adapter_platforms(&self) -> (r: Vec<String>)
        ensures
            crate::text::strs(r@) == host_platforms(*self),
    {
        match &self.manifest {
            Some(m) => match &m.adapter {
                Some(a) => {
                    let mut v: Vec<String> = Vec::new();
                    v.push(a.platform.clone());
                    assert(crate::text::strs(v@) =~= host_platforms(*self));
                    v
                },
                None => {
                    let v: Vec<String> = Vec::new();
                    assert(crate::text::strs(v@) =~= host_platforms(*self));
                    v
                },
            },
            None => {
                let v: Vec<String> = Vec::new();
                assert(crate::text::strs(v@) =~= host_platforms(*self));
                v
            },
        }
    }

    /// Console-facing adapter name: the declared display name, else the platform.
    pub fn adapter_display_name(&self) -> (r: Option<String>)
        ensures
            crate::text::opt_str(r) == host_adapter_name(*self),
    {
        match &self.manifest {
            Some(m) => match &m.adapter {
                Some(a) => match &a.display_name {
                    Some(n) => Some(n.clone()),
                    None => Some(a.platform.clone()),
                },
                None => None,
            },
            None => None,
        }
    }

    /// Plugin identifier of the manifest, when the manifest declares an adapter.
    pub fn adapter_plugin_id(&self) -> (r: Option<String>)
        ensures
            crate::text::opt_str(r) == host_adapter_plugin(*self),
    {
        match &self.manifest {
            Some(m) => if m.adapter.is_some() {
                Some(m.plugin.id.clone())
            } else {
                None
            },
            None => None,
        }
    }
}

/// Kinds of calls made to a plugin host, as named in the failures they record.
#[derive(Clone, Copy, Debug, PartialEq, Eq, Structural)]
pub enum HostCall {
    /// A command execution.
    Command,
    /// A tool call.
    ToolCall,
    /// An outbound message delivery.
    Delivery,
}

/// Failure recorded when a call of kind `kind` fails with status code `code`.
pub open spec fn host_call_failure(kind: HostCall, code: Seq<char>) -> Seq<char> {
    match kind {
        HostCall::Command => "Command gRPC error: "@ + code,
        HostCall::ToolCall => "Tool call gRPC error: "@ + code,
        HostCall::Delivery => "DeliverMessage gRPC error: "@ + code,
    }
}

/// Refusal of a tool call while the host's breaker is open.
pub open spec fn breaker_refusal(host_id: Seq<char>) -> Seq<char> {
    "Circuit breaker is OPEN for host '"@ + host_id + "'"@
}

impl ManagedHost {
    /// Asks the breaker at time `now` whether a tool call may be sent to this host; refused
    /// calls fail fast with the refusal message.
    pub fn admit_tool_call_at(&mut self, now: u64) -> (r: Result<(), String>)
        ensures
            final(self).circuit_breaker@ == allow_step(old(self).circuit_breaker@, now).0,
            allow_step(old(self).circuit_breaker@, now).1 ==> r is Ok,
            !allow_step(old(self).circuit_breaker@, now).1 ==> (r matches Err(m) && m@ == breaker_refusal(old(self).host_id@)),
            final(self).host_id == old(self).host_id,
            final(self).meta == old(self).meta,
            final(self).priority == old(self).priority,
            final(self).socket_path == old(self).socket_path,
    {
        if self.circuit_breaker.allow_request_at(now) {
            Ok(())
        } else {
            let mut m = owned("Circuit breaker is OPEN for host '");
            crate::text::push_str(&mut m, self.host_id.as_str());
            crate::text::push_str(&mut m, "'");
            Err(m)
        }
    }

    /// Records the outcome of a call of kind `kind` at time `now`: its round-trip time in
    /// microseconds, or the status code it failed with.
    pub fn record_call_at(&mut self, kind: HostCall, outcome: Result<u64, String>, now: u64)
        ensures
            match outcome {
                Ok(rtt) => final(self).circuit_breaker@ == success_step(old(self).circuit_breaker@, rtt, now),
                Err(code) => final(self).circuit_breaker@ == failure_step(old(self).circuit_breaker@, host_call_failure(kind, code@), now),
            },
            final(self).host_id == old(self).host_id,
            final(self).meta == old(self).meta,
            final(self).priority == old(self).priority,
            final(self).socket_path == old(self).socket_path,
    {
        match outcome {
            Ok(rtt) => self.circuit_breaker.record_success_at(rtt, now),
            Err(code) => {
                let mut reason = match kind {
                    HostCall::Command => owned("Command gRPC error: "),
                    HostCall::ToolCall => owned("Tool call gRPC error: "),
                    HostCall::Delivery => owned("DeliverMessage gRPC error: "),
                };
                crate::text::push_str(&mut reason, code.as_str());
                self.circuit_breaker.record_failure_at(reason.as_str(), now);
            },
        }
    }
}

/// A plugin whose launch failed because its runtime is unavailable.
pub struct UnavailablePlugin {
    /// Parsed manifest.
    pub manifest: PluginManifest,
    /// Path of the manifest file.
    pub manifest_path: String,
    /// Why the runtime could not be activated.
    pub reason: String,
    /// Lifecycle status (`RuntimeUnavailable`).
    pub status: String,
}

/// Where an outbound message for a platform goes.
pub enum AdapterRoute<A> {
    /// A built-in adapter.
    Builtin(A),
    /// A plugin host whose manifest declares the platform.
    Plugin {
        /// Host owning the adapter plugin.
        host_id: String,
        /// Plugin identifier (the host identifier when the manifest gives none).
        plugin_id: String,
    },
}

/// Host identifier of a plugin launched from its manifest: `.` replaced by `_`.
pub open spec fn manifest_host_id(plugin_id: Seq<char>) -> Seq<char> {
    Seq::new(plugin_id.len(), |i: int| if plugin_id[i] == '.' { '_' } else { plugin_id[i] })
}

/// Identifier of the host launched for `plugin_id`.
pub fn host_id_for_plugin(plugin_id: &str) -> (r: String)
    ensures
        r@ == manifest_host_id(plugin_id@),
{
    let v = chars_of(plugin_id);
    let mut r = String::new();
    for i in 0..v.len()
        invariant
            v@ == plugin_id@,
            r@ == manifest_host_id(plugin_id@).take(i as int),
    {
        if v[i] == '.' {
            push_char(&mut r, '_');
        } else {
            push_char(&mut r, v[i]);
        }
        assert(r@ =~= manifest_host_id(plugin_id@).take(i + 1));
    }
    assert(manifest_host_id(plugin_id@).take(v@.len() as int) =~= manifest_host_id(plugin_id@));
    r
}

/// What launching a plugin from its manifest takes.
pub enum LaunchPlan {
    /// Run this executable without arguments.
    Executable {
        /// Executable path.
        path: String,
    },
    /// Run the Python host runner: the interpreter and runner script are resolved by the caller.
    Python,
    /// Run the TypeScript host runner (Bun or Node).
    TypeScript,
}

/// Decides how a plugin is launched: an explicit override wins, a `rust` plugin runs its
/// entrypoint below `plugin_root`, `python` and `typescript`/`ts` plugins run through their
/// host runner, and any other runtime is refused.
pub fn plan_manifest_launch(manifest: &PluginManifest, plugin_root: &str, executable_override: Option<&str>) -> (r: Result<LaunchPlan, SupervisorError>)
    ensures
        executable_override matches Some(o) ==> (r matches Ok(LaunchPlan::Executable { path }) && path@ == o@),
        executable_override is None && manifest.plugin.runtime@ == "rust"@ ==> (r matches Ok(LaunchPlan::Executable { path })
            && path@ == crate::text::joined_path(plugin_root@, manifest.plugin.entrypoint@)),
        executable_override is None && manifest.plugin.runtime@ == "python"@ ==> (r matches Ok(LaunchPlan::Python)),
        executable_override is None && (manifest.plugin.runtime@ == "typescript"@ || manifest.plugin.runtime@ == "ts"@)
            ==> (r matches Ok(LaunchPlan::TypeScript)),
        executable_override is None && manifest.plugin.runtime@ != "rust"@ && manifest.plugin.runtime@ != "python"@
            && manifest.plugin.runtime@ != "typescript"@ && manifest.plugin.runtime@ != "ts"@ ==>
            (r matches Err(SupervisorError::RuntimeUnavailable { runtime, reason })
            && runtime@ == manifest.plugin.runtime@
            && reason@ == "Unsupported plugin runtime '"@ + manifest.plugin.runtime@ + "' declared in manifest"@),
{
    proof {
        reveal_strlit("rust");
        reveal_strlit("python");
        reveal_strlit("typescript");
        reveal_strlit("ts");
        assert("python"@.len() == 6);
        assert("rust"@.len() == 4);
        assert("typescript"@.len() == 10);
        assert("ts"@.len() == 2);
        assert("python"@ != "rust"@);
        assert("typescript"@ != "rust"@ && "typescript"@ != "python"@);
        assert("ts"@ != "rust"@ && "ts"@ != "python"@);
    }
    if let Some(o) = executable_override {
        return Ok(LaunchPlan::Executable { path: owned(o) });
    }
    let rt = manifest.plugin.runtime.as_str();
    if str_equal(rt, "rust") {
        Ok(LaunchPlan::Executable { path: crate::text::join_path(plugin_root, manifest.plugin.entrypoint.as_str()) })
    } else if str_equal(rt, "python") {
        Ok(LaunchPlan::Python)
    } else if str_equal(rt, "typescript") || str_equal(rt, "ts") {
        Ok(LaunchPlan::TypeScript)
    } else {
        let mut reason = String::new();
        crate::text::push_str(&mut reason, "Unsupported plugin runtime '");
        crate::text::push_str(&mut reason, rt);
        crate::text::push_str(&mut reason, "' declared in manifest");
        Err(SupervisorError::RuntimeUnavailable { runtime: owned(rt), reason })
    }
}

/// One place where a file needed to launch an interpreted plugin is looked for.
pub enum Lookup {
    /// The path named by this environment variable, when it is set.
    Env(String),
    /// This relative path, tried from the plugin directory and then from each of its ancestors.
    Upwards(String),
    /// An executable of this name on `PATH`.
    OnPath(String),
}

/// Mathematical form of a lookup: its kind (0 environment, 1 upwards, 2 `PATH`) and its text.
pub open spec fn lookup_model(l: Lookup) -> (int, Seq<char>) {
    match l {
        Lookup::Env(v) => (0, v@),
        Lookup::Upwards(p) => (1, p@),
        Lookup::OnPath(n) => (2, n@),
    }
}

/// Models of a sequence of lookups.
pub open spec fn lookup_models(ls: Seq<Lookup>) -> Seq<(int, Seq<char>)> {
    Seq::new(ls.len(), |i: int| lookup_model(ls[i]))
}

/// What launching an interpreted plugin searches for, in order, and how each miss is reported.
pub struct RunnerLookup {
    /// Runtime named in errors.
    pub runtime: String,
    /// Where the interpreter is looked for; the first hit wins.
    pub interpreter: Vec<Lookup>,
    /// Reason reported when no interpreter is found.
    pub interpreter_missing: String,
    /// Where the host runner script is looked for; the first hit wins.
    pub script: Vec<Lookup>,
    /// Reason reported when no runner script is found.
    pub script_missing: String,
}

fn env(v: &str) -> (r: Lookup)
    ensures
        lookup_model(r) == (0int, v@),
{
    Lookup::Env(owned(v))
}

fn upwards(p: &str) -> (r: Lookup)
    ensures
        lookup_model(r) == (1int, p@),
{
    Lookup::Upwards(owned(p))
}

fn on_path(n: &str) -> (r: Lookup)
    ensures
        lookup_model(r) == (2int, n@),
{
    Lookup::OnPath(owned(n))
}

/// Where the interpreter and runner script of a plugin launched through a host runner are
/// looked for: Python uses `KANON_PYTHON_BIN`, the SDK's virtual environment, then `python3`
/// and `python`; TypeScript uses `KANON_NODE_BIN`, then `bun` and `node`. A plugin run directly
/// needs no lookup.
pub fn runner_lookup(plan: &LaunchPlan) -> (r: Option<RunnerLookup>)
    ensures
        *plan is Executable ==> r is None,
        *plan is Python ==> (r matches Some(l) && {
            &&& l.runtime@ == "python"@
            &&& lookup_models(l.interpreter@) == seq![(0int, "KANON_PYTHON_BIN"@), (1int, "sdks/python/.venv/bin/python"@), (2int, "python3"@), (2int, "python"@)]
            &&& l.interpreter_missing@ == "Neither python3 nor a virtual environment (.venv) was found in PATH"@
            &&& lookup_models(l.script@) == seq![(0int, "KANON_PYTHON_HOST_PATH"@), (1int, "sdks/python/kanon_host/main.py"@), (1int, "kanon_host/main.py"@)]
            &&& l.script_missing@ == "Could not locate Python host runner script (kanon_host/main.py)"@
        }),
        *plan is TypeScript ==> (r matches Some(l) && {
            &&& l.runtime@ == "typescript"@
            &&& lookup_models(l.interpreter@) == seq![(0int, "KANON_NODE_BIN"@), (2int, "bun"@), (2int, "node"@)]
            &&& l.interpreter_missing@ == "Neither bun nor node was found in PATH"@
            &&& lookup_models(l.script@) == seq![(0int, "KANON_TS_HOST_PATH"@), (1int, "sdks/typescript/dist/src/host/index.js"@), (1int, "dist/src/host/index.js"@)]
            &&& l.script_missing@ == "Could not locate TypeScript host runner script (dist/src/host/index.js)"@
        }),
{
    match plan {
        LaunchPlan::Executable { .. } => None,
        LaunchPlan::Python => {
            let interpreter = vec![env("KANON_PYTHON_BIN"), upwards("sdks/python/.venv/bin/python"), on_path("python3"), on_path("python")];
            let script = vec![env("KANON_PYTHON_HOST_PATH"), upwards("sdks/python/kanon_host/main.py"), upwards("kanon_host/main.py")];
            assert(lookup_models(interpreter@) =~= seq![(0int, "KANON_PYTHON_BIN"@), (1int, "sdks/python/.venv/bin/python"@), (2int, "python3"@), (2int, "python"@)]);
            assert(lookup_models(script@) =~= seq![(0int, "KANON_PYTHON_HOST_PATH"@), (1int, "sdks/python/kanon_host/main.py"@), (1int, "kanon_host/main.py"@)]);
            Some(RunnerLookup {
                runtime: owned("python"),
                interpreter,
                interpreter_missing: owned("Neither python3 nor a virtual environment (.venv) was found in PATH"),
                script,
                script_missing: owned("Could not locate Python host runner script (kanon_host/main.py)"),
            })
        },
        LaunchPlan::TypeScript => {
            let interpreter = vec![env("KANON_NODE_BIN"), on_path("bun"), on_path("node")];
            let script = vec![env("KANON_TS_HOST_PATH"), upwards("sdks/typescript/dist/src/host/index.js"), upwards("dist/src/host/index.js")];
            assert(lookup_models(interpreter@) =~= seq![(0int, "KANON_NODE_BIN"@), (2int, "bun"@), (2int, "node"@)]);
            assert(lookup_models(script@) =~= seq![(0int, "KANON_TS_HOST_PATH"@), (1int, "sdks/typescript/dist/src/host/index.js"@), (1int, "dist/src/host/index.js"@)]);
            Some(RunnerLookup {
                runtime: owned("typescript"),
                interpreter,
                interpreter_missing: owned("Neither bun nor node was found in PATH"),
                script,
                script_missing: owned("Could not locate TypeScript host runner script (dist/src/host/index.js)"),
            })
        },
    }
}

/// The error reported when a lookup of `lookup` found nothing: the interpreter's when
/// `interpreter` is set, else the runner script's.
pub fn runner_missing(lookup: &RunnerLookup, interpreter: bool) -> (r: SupervisorError)
    ensures
        r matches SupervisorError::RuntimeUnavailable { runtime, reason } && runtime == lookup.runtime
            && reason == if interpreter { lookup.interpreter_missing } else { lookup.script_missing },
{
    let reason = if interpreter {
        lookup.interpreter_missing.clone()
    } else {
        lookup.script_missing.clone()
    };
    SupervisorError::RuntimeUnavailable { runtime: lookup.runtime.clone(), reason }
}

/// Environment a host process is started with: its identifier, its endpoint, the core's
/// endpoint and the run directory.
pub fn host_environment(host_id: &str, host_sock: &str, core_sock: &str, run_dir: &str) -> (r: Vec<(String, String)>)
    ensures
        r@.len() == 4,
        r@[0].0@ == "KANON_HOST_ID"@ && r@[0].1@ == host_id@,
        r@[1].0@ == "KANON_HOST_SOCK"@ && r@[1].1@ == host_sock@,
        r@[2].0@ == "KANON_CORE_SOCK"@ && r@[2].1@ == core_sock@,
        r@[3].0@ == "KANON_RUN_DIR"@ && r@[3].1@ == run_dir@,
{
    vec![
        (owned("KANON_HOST_ID"), owned(host_id)),
        (owned("KANON_HOST_SOCK"), owned(host_sock)),
        (owned("KANON_CORE_SOCK"), owned(core_sock)),
        (owned("KANON_RUN_DIR"), owned(run_dir)),
    ]
}

/// Time, in microseconds, a freshly spawned host gets to open its endpoint.
pub const HOST_READY_TIMEOUT: u64 = 5_000_000;

/// Interval, in microseconds, between two readiness checks of a spawned host.
pub const HOST_POLL_INTERVAL: u64 = 50_000;

/// What to do next while waiting for a spawned host to become ready.
pub enum ReadinessStep {
    /// Try to connect to the host's endpoint (and wait for the next check if that fails).
    Connect,
    /// Give up with this error (the caller then kills the process).
    Fail(SupervisorError),
}

/// Decides the next readiness step of host `host_id`, `elapsed` microseconds after it was
/// spawned, given the exit status it reported if it has exited: past `timeout` the launch
/// times out, an exited host failed, otherwise its endpoint is tried.
pub fn readiness_step(host_id: &str, elapsed: u64, timeout: u64, exit_status: Option<String>) -> (r: ReadinessStep)
    ensures
        elapsed >= timeout ==> (r matches ReadinessStep::Fail(SupervisorError::Timeout(h)) && h@ == host_id@),
        elapsed < timeout && exit_status is Some ==> (r matches ReadinessStep::Fail(SupervisorError::PrematureExit { host_id: h, status })
            && h@ == host_id@ && Some(status) == exit_status),
        elapsed < timeout && exit_status is None ==> r is Connect,
{
    if elapsed >= timeout {
        return ReadinessStep::Fail(SupervisorError::Timeout(owned(host_id)));
    }
    match exit_status {
        Some(status) => ReadinessStep::Fail(SupervisorError::PrematureExit { host_id: owned(host_id), status }),
        None => ReadinessStep::Connect,
    }
}

/// Arguments of an interpreted host runner: the runner script, `--plugin` and the manifest path.
pub fn runner_args(host_script: &str, manifest_path: &str) -> (r: Vec<String>)
    ensures
        crate::text::strs(r@) == seq![host_script@, "--plugin"@, manifest_path@],
{
    let mut v: Vec<String> = Vec::new();
    v.push(owned(host_script));
    v.push(owned("--plugin"));
    v.push(owned(manifest_path));
    assert(crate::text::strs(v@) =~= seq![host_script@, "--plugin"@, manifest_path@]);
    v
}

/// Metadata standing in for a host whose handshake failed: one minimal entry per declared
/// plugin identifier (name = identifier, version `0.1.0`, nothing declared).
pub fn synthesized_meta(plugin_ids: &Vec<String>) -> (r: Vec<PluginMeta>)
    ensures
        r@.len() == plugin_ids@.len(),
        forall|i: int| 0 <= i < r@.len() ==> {
            &&& (#[trigger] r@[i]).id == plugin_ids@[i]
            &&& r@[i].name == plugin_ids@[i]
            &&& r@[i].version@ == "0.1.0"@
            &&& r@[i].author@.len() == 0
            &&& r@[i].description@.len() == 0
            &&& r@[i].commands@.len() == 0
            &&& r@[i].tools@.len() == 0
        },
{
    let mut out: Vec<PluginMeta> = Vec::new();
    for i in 0..plugin_ids.len()
        invariant
            out@.len() == i,
            i <= plugin_ids@.len(),
            forall|j: int| 0 <= j < i ==> {
                &&& (#[trigger] out@[j]).id == plugin_ids@[j]
                &&& out@[j].name == plugin_ids@[j]
                &&& out@[j].version@ == "0.1.0"@
                &&& out@[j].author@.len() == 0
                &&& out@[j].description@.len() == 0
                &&& out@[j].commands@.len() == 0
                &&& out@[j].tools@.len() == 0
            },
    {
        let id = plugin_ids[i].clone();
        let name = plugin_ids[i].clone();
        let commands: Vec<CommandMeta> = Vec::new();
        let tools: Vec<ToolMeta> = Vec::new();
        out.push(PluginMeta {
            id,
            name,
            version: owned("0.1.0"),
            author: String::new(),
            description: String::new(),
            commands,
            tools,
        });
    }
    out
}

/// Registry of managed hosts and the state the supervisor keeps about plugins.
pub struct Supervisor {
    run_dir: String,
    core_sock_path: String,
    hosts: StringMap<ManagedHost>,
    config_versions: StringMap<u64>,
    unavailable_plugins: StringMap<UnavailablePlugin>,
}

/// Configuration version of a plugin in a version table (0 when never configured).
pub open spec fn version_in(versions: Map<Seq<char>, u64>, plugin_id: Seq<char>) -> u64 {
    if versions.dom().contains(plugin_id) {
        versions[plugin_id]
    } else {
        0
    }
}

impl Supervisor {
    /// Every host is registered under its own identifier.
    #[verifier::type_invariant]
    closed spec fn hosts_keyed_by_id(self) -> bool {
        forall|k: Seq<char>| #[trigger] self.hosts@.dom().contains(k) ==> self.hosts@[k].host_id@ == k
    }

    /// Hosts by identifier.
    pub closed spec fn hosts_view(&self) -> Map<Seq<char>, ManagedHost> {
        self.hosts@
    }

    /// Host identifiers in ascending order.
    pub closed spec fn host_ids(&self) -> Seq<Seq<char>> {
        self.hosts.key_seq()
    }

    /// Applied configuration versions by plugin.
    pub closed spec fn versions_view(&self) -> Map<Seq<char>, u64> {
        self.config_versions@
    }

    /// Unavailable plugins by plugin identifier.
    pub closed spec fn unavailable_view(&self) -> Map<Seq<char>, UnavailablePlugin> {
        self.unavailable_plugins@
    }

    /// The run directory.
    pub closed spec fn run_dir_view(&self) -> Seq<char> {
        self.run_dir@
    }

    /// The core socket path.
    pub closed spec fn core_sock_view(&self) -> Seq<char> {
        self.core_sock_path@
    }

    /// Creates a supervisor with no hosts.
    pub fn new(run_dir: String, core_sock_path: String) -> (s: Self)
        ensures
            s.run_dir_view() == run_dir@,
            s.core_sock_view() == core_sock_path@,
            s.hosts_view() == Map::<Seq<char>, ManagedHost>::empty(),
            s.versions_view() == Map::<Seq<char>, u64>::empty(),
            s.unavailable_view() == Map::<Seq<char>, UnavailablePlugin>::empty(),
    {
        Supervisor {
            run_dir,
            core_sock_path,
            hosts: StringMap::new(),
            config_versions: StringMap::new(),
            unavailable_plugins: StringMap::new(),
        }
    }

    /// The run directory holding IPC sockets.
    pub fn run_dir(&self) -> (r: &str)
        ensures
            r@ == self.run_dir_view(),
    {
        self.run_dir.as_str()
    }

    /// The core socket path.
    pub fn core_sock_path(&self) -> (r: &str)
        ensures
            r@ == self.core_sock_view(),
    {
        self.core_sock_path.as_str()
    }

    /// Records a plugin whose runtime is unavailable (status `RuntimeUnavailable`), replacing an
    /// earlier record of the same plugin.
    pub fn record_unavailable_plugin(&mut self, manifest: PluginManifest, manifest_path: String, reason: String)
        ensures
            final(self).unavailable_view() == old(self).unavailable_view().insert(
                manifest.plugin.id@,
                UnavailablePlugin { manifest, manifest_path, reason, status: final(self).unavailable_view()[manifest.plugin.id@].status },
            ),
            final(self).unavailable_view()[manifest.plugin.id@].status@ == "RuntimeUnavailable"@,
            final(self).hosts_view() == old(self).hosts_view(),
            final(self).versions_view() == old(self).versions_view(),
    {
        proof {
            use_type_invariant(&*self);
        }
        let id = manifest.plugin.id.clone();
        let ghost key = manifest.plugin.id@;
        let entry = UnavailablePlugin { manifest, manifest_path, reason, status: owned("RuntimeUnavailable") };
        let ghost e = entry;
        let mut m: StringMap<UnavailablePlugin> = StringMap::new();
        std::mem::swap(&mut m, &mut self.unavailable_plugins);
        m.insert(id, entry);
        self.unavailable_plugins = m;
        assert(self.unavailable_plugins@[key] == e);
    }

    /// Plugin identifiers of the unavailable-plugin records, ascending.
    pub closed spec fn unavailable_ids(&self) -> Seq<Seq<char>> {
        self.unavailable_plugins.key_seq()
    }

    /// Plugins currently recorded as unavailable, ordered by plugin identifier.
    pub fn get_unavailable_plugins(&self) -> (r: Vec<&UnavailablePlugin>)
        ensures
            r@.len() == self.unavailable_ids().len(),
            self.unavailable_ids().to_set() == self.unavailable_view().dom(),
            forall|i: int| 0 <= i < r@.len() ==> self.unavailable_view()[self.unavailable_ids()[i]] == *#[trigger] r@[i],
    {
        self.unavailable_plugins.facts();
        let n = self.unavailable_plugins.len();
        let mut out: Vec<&UnavailablePlugin> = Vec::new();
        for i in 0..n
            invariant
                n == self.unavailable_plugins.key_seq().len(),
                out@.len() == i,
                forall|j: int| 0 <= j < self.unavailable_plugins.key_seq().len() ==> #[trigger] self.unavailable_plugins@[self.unavailable_plugins.key_seq()[j]] == self.unavailable_plugins.value_seq()[j],
                forall|j: int| 0 <= j < out@.len() ==> self.unavailable_plugins@[self.unavailable_plugins.key_seq()[j]] == *#[trigger] out@[j],
        {
            out.push(self.unavailable_plugins.value_at(i));
        }
        out
    }

    /// Forgets an unavailable-plugin record (e.g. after a successful launch).
    pub fn remove_unavailable_plugin(&mut self, plugin_id: &str)
        ensures
            final(self).unavailable_view() == old(self).unavailable_view().remove(plugin_id@),
            final(self).hosts_view() == old(self).hosts_view(),
            final(self).versions_view() == old(self).versions_view(),
    {
        proof {
            use_type_invariant(&*self);
        }
        let mut m: StringMap<UnavailablePlugin> = StringMap::new();
        std::mem::swap(&mut m, &mut self.unavailable_plugins);
        let _ = m.remove(plugin_id);
        self.unavailable_plugins = m;
    }

    /// Configuration version currently applied to a plugin (0 if never configured).
    pub fn config_version(&self, plugin_id: &str) -> (r: u64)
        ensures
            r == version_in(self.versions_view(), plugin_id@),
    {
        match self.config_versions.get(plugin_id) {
            Some(v) => *v,
            None => 0,
        }
    }

    /// Registers a host, replacing any host with the same identifier.
    pub fn register_managed_host(&mut self, host: ManagedHost)
        ensures
            final(self).hosts_view() == old(self).hosts_view().insert(host.host_id@, host),
            final(self).versions_view() == old(self).versions_view(),
            final(self).unavailable_view() == old(self).unavailable_view(),
    {
        proof {
            use_type_invariant(&*self);
        }
        let id = host.host_id.clone();
        let mut m: StringMap<ManagedHost> = StringMap::new();
        std::mem::swap(&mut m, &mut self.hosts);
        m.insert(id, host);
        self.hosts = m;
    }

    /// Registers a host that announced itself at `endpoint` with `plugins`, at the default
    /// priority. A host already known keeps its registration; returns whether it was added.
    pub fn register_external_host(&mut self, host_id: &str, endpoint: String, plugins: Vec<PluginMeta>) -> (r: bool)
        ensures
            old(self).hosts_view().dom().contains(host_id@) ==> !r && final(self).hosts_view() == old(self).hosts_view(),
            !old(self).hosts_view().dom().contains(host_id@) ==> r && final(self).hosts_view().dom() == old(self).hosts_view().dom().insert(host_id@)
                && forall|k: Seq<char>| #[trigger] old(self).hosts_view().dom().contains(k) ==> final(self).hosts_view()[k] == old(self).hosts_view()[k],
            !old(self).hosts_view().dom().contains(host_id@) ==> ({
                let h = final(self).hosts_view()[host_id@];
                &&& h.host_id@ == host_id@
                &&& h.socket_path == endpoint
                &&& h.meta == plugins
                &&& h.priority == 500
                &&& h.launch_spec is None
                &&& h.manifest is None
            }),
            final(self).versions_view() == old(self).versions_view(),
            final(self).unavailable_view() == old(self).unavailable_view(),
    {
        if self.get_host(host_id).is_some() {
            return false;
        }
        let host = ManagedHost::new(owned(host_id), endpoint, plugins, 500);
        self.register_managed_host(host);
        true
    }

    /// The host registered under `host_id`.
    pub fn get_host(&self, host_id: &str) -> (r: Option<&ManagedHost>)
        ensures
            r matches Some(h) ==> self.hosts_view().dom().contains(host_id@) && self.hosts_view()[host_id@] == *h,
            r is None ==> !self.hosts_view().dom().contains(host_id@),
    {
        self.hosts.get(host_id)
    }

    /// Unregisters the host `host_id` and hands it back (stopping its process and removing its
    /// socket is the caller's part).
    pub fn take_host(&mut self, host_id: &str) -> (r: Result<ManagedHost, SupervisorError>)
        ensures
            final(self).hosts_view() == old(self).hosts_view().remove(host_id@),
            old(self).hosts_view().dom().contains(host_id@) ==> (r matches Ok(h) && h == old(self).hosts_view()[host_id@]),
            !old(self).hosts_view().dom().contains(host_id@) ==> (r matches Err(SupervisorError::HostNotFound(id)) && id@ == host_id@),
            final(self).versions_view() == old(self).versions_view(),
            final(self).unavailable_view() == old(self).unavailable_view(),
    {
        proof {
            use_type_invariant(&*self);
        }
        let mut m: StringMap<ManagedHost> = StringMap::new();
        std::mem::swap(&mut m, &mut self.hosts);
        let removed = m.remove(host_id);
        self.hosts = m;
        match removed {
            Some(h) => Ok(h),
            None => Err(SupervisorError::HostNotFound(owned(host_id))),
        }
    }

    /// Number of registered hosts.
    pub fn host_count(&self) -> (r: usize)
        ensures
            r == self.hosts_view().dom().len(),
    {
        self.hosts.facts();
        self.hosts.len()
    }

    /// Identifiers of the registered hosts, ascending.
    pub fn list_host_ids(&self) -> (r: Vec<String>)
        ensures
            crate::text::strs(r@) == self.host_ids(),
            self.host_ids().to_set() == self.hosts_view().dom(),
    {
        self.hosts.facts();
        let n = self.hosts.len();
        let mut out: Vec<String> = Vec::new();
        for i in 0..n
            invariant
                n == self.hosts.key_seq().len(),
                crate::text::strs(out@) == self.hosts.key_seq().take(i as int),
        {
            let ghost before = out@;
            let k = self.hosts.key_at(i).clone();
            out.push(k);
            assert(out@ == before.push(k));
            assert(crate::text::strs(out@) =~= crate::text::strs(before).push(k@));
            assert(crate::text::strs(out@) =~= self.hosts.key_seq().take(i + 1));
        }
        assert(self.hosts.key_seq().take(n as int) =~= self.hosts.key_seq());
        out
    }

    /// The first host (in identifier order) declaring `plugin_id`.
    pub fn find_host_for_plugin(&self, plugin_id: &str) -> (r: Option<&ManagedHost>)
        ensures
            r matches Some(h) ==> self.hosts_view().dom().contains(h.host_id@) && self.hosts_view()[h.host_id@] == *h,
            r matches Some(h) ==> host_declares(*h, plugin_id@),
            r is None <==> !exists|k: Seq<char>| #[trigger] self.hosts_view().dom().contains(k) && host_declares(self.hosts_view()[k], plugin_id@),
    {
        proof {
            use_type_invariant(self);
        }
        self.hosts.facts();
        let n = self.hosts.len();
        for i in 0..n
            invariant
                n == self.hosts.key_seq().len(),
                forall|k: Seq<char>| #[trigger] self.hosts@.dom().contains(k) ==> self.hosts@[k].host_id@ == k,
                self.hosts@.dom() == self.hosts.key_seq().to_set(),
                forall|j: int| 0 <= j < self.hosts.key_seq().len() ==> #[trigger] self.hosts@[self.hosts.key_seq()[j]] == self.hosts.value_seq()[j],
                forall|j: int| 0 <= j < i ==> !host_declares(#[trigger] self.hosts.value_seq()[j], plugin_id@),
        {
            let h = self.hosts.value_at(i);
            if h.declares_plugin(plugin_id) {
                proof {
                    let k = self.hosts.key_seq()[i as int];
                    assert(self.hosts.key_seq().to_set().contains(k));
                    assert(self.hosts@.dom().contains(k));
                    assert(host_declares(self.hosts@[k], plugin_id@));
                    assert(self.hosts_view().dom().contains(k) && host_declares(self.hosts_view()[k], plugin_id@));
                }
                return Some(h);
            }
        }
        proof {
            assert forall|k: Seq<char>| #[trigger] self.hosts@.dom().contains(k) implies !host_declares(self.hosts@[k], plugin_id@) by {
                assert(self.hosts.key_seq().to_set().contains(k));
                let j = self.hosts.key_seq().index_of(k);
                assert(self.hosts@[self.hosts.key_seq()[j]] == self.hosts.value_seq()[j]);
            }
        }
        None
    }
}

/// Hosts among `hs` whose manifest declares an adapter, in order.
pub open spec fn adapter_hosts(hs: Seq<ManagedHost>) -> Seq<ManagedHost>
    decreases hs.len(),
{
    if hs.len() == 0 {
        Seq::empty()
    } else {
        let r = adapter_hosts(hs.drop_last());
        if host_adapter(hs.last()) is Some {
            r.push(hs.last())
        } else {
            r
        }
    }
}

/// Whether `d` is the catalog entry of the plugin adapter of host `h`.
pub open spec fn describes_plugin_adapter(d: AdapterDescriptor, h: ManagedHost) -> bool {
    &&& host_adapter(h) matches Some(a) && d.platform@ == a.platform@
    &&& d.display_name@ == match host_adapter_name(h) {
        Some(n) => n,
        None => h.host_id@,
    }
    &&& d.kind == AdapterKind::Plugin
    &&& d.connected
    &&& d.circuit_state == CircuitState::Closed
    &&& crate::text::opt_str(d.plugin_id) == host_adapter_plugin(h)
    &&& crate::text::opt_str(d.host_id) == Some(h.host_id@)
}

/// Sort keys of the catalog entries (the built-in descriptors, then one per adapter host):
/// built-ins before plugin adapters, each group by platform, ties in that order.
pub open spec fn catalog_keys(builtins: Seq<AdapterDescriptor>, ah: Seq<ManagedHost>) -> Seq<(int, Seq<char>)> {
    Seq::new(builtins.len() + ah.len(), |j: int|
        if j < builtins.len() {
            (0int, builtins[j].platform@)
        } else {
            (1int, host_adapter(ah[j - builtins.len()])->0.platform@)
        })
}

/// Version a reload reports as applied: the host's own report when positive, else `next`.
pub open spec fn applied_version(next: u64, reported: u64) -> u64 {
    if reported > 0 {
        reported
    } else {
        next
    }
}

impl Supervisor {
    /// Hosts in identifier order.
    pub closed spec fn hosts_in_order(&self) -> Seq<ManagedHost> {
        self.hosts.value_seq()
    }

    /// Decides whether a configuration reload of `plugin_id` may proceed, returning the host to
    /// send it to and the version it will carry.
    ///
    /// Refused when no host declares the plugin, when `expected_version` is given and differs
    /// from the version currently applied (compare-and-swap), or when `config` is not a JSON
    /// object.
    pub fn prepare_config_reload(&self, plugin_id: &str, config: &JsonValue, expected_version: Option<u64>) -> (r: Result<(String, u64), SupervisorError>)
        requires
            version_in(self.versions_view(), plugin_id@) < u64::MAX,
        ensures
            ({
                let current = version_in(self.versions_view(), plugin_id@);
                let declared = exists|k: Seq<char>| #[trigger] self.hosts_view().dom().contains(k) && host_declares(self.hosts_view()[k], plugin_id@);
                &&& !declared ==> (r matches Err(SupervisorError::PluginNotFound(p)) && p@ == plugin_id@)
                &&& declared && (expected_version matches Some(e) && e != current) ==>
                    (r matches Err(SupervisorError::StaleConfigVersion { plugin_id: p, current_version, requested_version })
                        && p@ == plugin_id@ && current_version == current && requested_version == expected_version->0)
                &&& declared && !(expected_version matches Some(e) && e != current) && !(*config is Object) ==>
                    (r matches Err(SupervisorError::InvalidConfigPayload))
                &&& declared && !(expected_version matches Some(e) && e != current) && *config is Object ==>
                    (r matches Ok((host_id, next)) && next == current + 1
                        && self.hosts_view().dom().contains(host_id@) && host_declares(self.hosts_view()[host_id@], plugin_id@))
            }),
    {
        let host = self.find_host_for_plugin(plugin_id);
        let host_id = match host {
            Some(h) => h.host_id.clone(),
            None => return Err(SupervisorError::PluginNotFound(owned(plugin_id))),
        };
        let current = self.config_version(plugin_id);
        if let Some(expected) = expected_version {
            if expected != current {
                return Err(SupervisorError::StaleConfigVersion {
                    plugin_id: owned(plugin_id),
                    current_version: current,
                    requested_version: expected,
                });
            }
        }
        if !config.is_object() {
            return Err(SupervisorError::InvalidConfigPayload);
        }
        Ok((host_id, current + 1))
    }

    /// Records the outcome of a configuration reload sent to `host_id` with version
    /// `next_version`: a rejection leaves the version unchanged; an acceptance applies the
    /// version the host reports, or `next_version` when it reports none.
    pub fn apply_config_reload(&mut self, plugin_id: &str, host_id: String, next_version: u64, success: bool, error_message: String, reported_version: u64) -> (r: Result<u64, SupervisorError>)
        ensures
            !success ==> (r matches Err(SupervisorError::ConfigReloadRejected { host_id: h, plugin_id: p, reason })
                && h == host_id && p@ == plugin_id@ && reason == error_message)
                && final(self).versions_view() == old(self).versions_view(),
            success ==> r == Ok::<u64, SupervisorError>(applied_version(next_version, reported_version))
                && final(self).versions_view() == old(self).versions_view().insert(plugin_id@, applied_version(next_version, reported_version)),
            final(self).hosts_view() == old(self).hosts_view(),
            final(self).unavailable_view() == old(self).unavailable_view(),
    {
        proof {
            use_type_invariant(&*self);
        }
        if !success {
            return Err(SupervisorError::ConfigReloadRejected { host_id, plugin_id: owned(plugin_id), reason: error_message });
        }
        let applied = if reported_version > 0 {
            reported_version
        } else {
            next_version
        };
        let mut m: StringMap<u64> = StringMap::new();
        std::mem::swap(&mut m, &mut self.config_versions);
        m.insert(owned(plugin_id), applied);
        self.config_versions = m;
        Ok(applied)
    }
}

/// Whether host `h` serves `platform` as an adapter.
pub open spec fn serves_platform(h: ManagedHost, platform: Seq<char>) -> bool {
    host_adapter(h) matches Some(a) && a.platform@ == platform
}

impl Supervisor {
    /// Resolves the adapter responsible for `platform`: a built-in adapter wins; otherwise the
    /// first host (in identifier order) whose manifest declares the platform.
    pub fn resolve_adapter<'a, A>(&'a self, builtins: &'a AdapterRegistry<A>, platform: &str) -> (r: Option<AdapterRoute<&'a A>>)
        ensures
            builtins@.dom().contains(platform@) ==> (r matches Some(AdapterRoute::Builtin(a)) && *a == builtins@[platform@]),
            !builtins@.dom().contains(platform@) ==> match r {
                Some(AdapterRoute::Plugin { host_id, plugin_id }) => {
                    &&& self.hosts_view().dom().contains(host_id@)
                    &&& serves_platform(self.hosts_view()[host_id@], platform@)
                    &&& plugin_id@ == match host_adapter_plugin(self.hosts_view()[host_id@]) {
                        Some(p) => p,
                        None => host_id@,
                    }
                    &&& forall|i: int| 0 <= i < self.host_ids().len() && seq_lt_ids(self.host_ids()[i], host_id@) ==>
                        !serves_platform(#[trigger] self.hosts_in_order()[i], platform@)
                },
                Some(AdapterRoute::Builtin(_)) => false,
                None => forall|k: Seq<char>| #[trigger] self.hosts_view().dom().contains(k) ==> !serves_platform(self.hosts_view()[k], platform@),
            },
    {
        if let Some(a) = builtins.get(platform) {
            return Some(AdapterRoute::Builtin(a));
        }
        proof {
            use_type_invariant(self);
        }
        self.hosts.facts();
        let n = self.hosts.len();
        for i in 0..n
            invariant
                n == self.hosts.key_seq().len(),
                forall|k: Seq<char>| #[trigger] self.hosts@.dom().contains(k) ==> self.hosts@[k].host_id@ == k,
                self.hosts@.dom() == self.hosts.key_seq().to_set(),
                crate::string_map::strictly_sorted(self.hosts.key_seq()),
                forall|j: int| 0 <= j < self.hosts.key_seq().len() ==> #[trigger] self.hosts@[self.hosts.key_seq()[j]] == self.hosts.value_seq()[j],
                forall|j: int| 0 <= j < i ==> !serves_platform(#[trigger] self.hosts.value_seq()[j], platform@),
                !builtins@.dom().contains(platform@),
        {
            let h = self.hosts.value_at(i);
            let platforms = h.adapter_platforms();
            proof {
                assert(crate::text::strs(platforms@).len() == platforms@.len());
                if platforms@.len() > 0 {
                    assert(crate::text::strs(platforms@)[0] == platforms@[0]@);
                }
                if host_adapter(*h) is Some {
                    assert(platforms@.len() == 1);
                } else {
                    assert(platforms@.len() == 0);
                }
            }
            if platforms.len() > 0 && str_equal(platforms[0].as_str(), platform) {
                let plugin_id = match h.adapter_plugin_id() {
                    Some(p) => p,
                    None => h.host_id.clone(),
                };
                proof {
                    let k = self.hosts.key_seq()[i as int];
                    assert(crate::text::strs(platforms@)[0] == platforms@[0]@);
                    assert(serves_platform(*h, platform@));
                    assert(self.hosts.key_seq().to_set().contains(k));
                    assert(self.hosts@[k] == *h);
                    assert(h.host_id@ == k);
                    assert forall|j: int| 0 <= j < self.hosts.key_seq().len() && seq_lt_ids(self.hosts.key_seq()[j], h.host_id@) implies
                        !serves_platform(#[trigger] self.hosts.value_seq()[j], platform@) by {
                        if j >= i {
                            if j > i {
                                assert(crate::text::seq_lt(self.hosts.key_seq()[i as int], self.hosts.key_seq()[j]));
                                crate::text::lemma_seq_lt_asymmetric(self.hosts.key_seq()[i as int], self.hosts.key_seq()[j]);
                            } else {
                                crate::text::lemma_seq_lt_irreflexive(k);
                            }
                        }
                    }
                }
                return Some(AdapterRoute::Plugin { host_id: h.host_id.clone(), plugin_id });
            }
        }
        proof {
            assert forall|k: Seq<char>| #[trigger] self.hosts@.dom().contains(k) implies !serves_platform(self.hosts@[k], platform@) by {
                assert(self.hosts.key_seq().to_set().contains(k));
                let j = self.hosts.key_seq().index_of(k);
                assert(self.hosts@[self.hosts.key_seq()[j]] == self.hosts.value_seq()[j]);
            }
        }
        None
    }
}

/// Code-point order of identifiers.
pub open spec fn seq_lt_ids(a: Seq<char>, b: Seq<char>) -> bool {
    crate::text::seq_lt(a, b)
}

/// `r` lists the catalog entries (`builtins`, then the adapters of hosts `ah`) in the order
/// `order`: every built-in before every plugin adapter, each group sorted stably by platform.
pub open spec fn catalog_order(builtins: Seq<AdapterDescriptor>, ah: Seq<ManagedHost>, order: Seq<usize>, r: Seq<AdapterDescriptor>) -> bool {
    &&& crate::order::sorted_stably(catalog_keys(builtins, ah), order)
    &&& forall|a: int, b: int| #![trigger order[a], order[b]]
        0 <= a < b < order.len() && (order[a] as int) >= builtins.len() ==> (order[b] as int) >= builtins.len()
    &&& r.len() == order.len()
    &&& forall|k: int| 0 <= k < r.len() ==> if (order[k] as int) < builtins.len() {
        #[trigger] r[k] == builtins[order[k] as int]
    } else {
        describes_plugin_adapter(r[k], ah[order[k] - builtins.len()])
    }
}

impl Supervisor {
    /// The console catalog: the given built-in descriptors, then one entry per host whose
    /// manifest declares an adapter (connected, circuit closed); built-ins come first, each
    /// group ordered by platform with ties kept in that order.
    pub fn adapter_catalog(&self, builtins: Vec<AdapterDescriptor>) -> (r: Vec<AdapterDescriptor>)
        ensures
            exists|order: Seq<usize>| #[trigger] catalog_order(builtins@, adapter_hosts(self.hosts_in_order()), order, r@),
    {
        let ghost b0 = builtins@;
        let ghost hs = self.hosts.value_seq();
        let b = builtins.len();
        let mut entries = builtins;
        self.hosts.facts();
        let n = self.hosts.len();
        for i in 0..n
            invariant
                n == hs.len(),
                n == self.hosts.key_seq().len(),
                hs == self.hosts.value_seq(),
                b == b0.len(),
                entries@.len() == b + adapter_hosts(hs.take(i as int)).len(),
                forall|j: int| 0 <= j < b ==> #[trigger] entries@[j] == b0[j],
                forall|j: int| b <= j < entries@.len() ==> describes_plugin_adapter(#[trigger] entries@[j], adapter_hosts(hs.take(i as int))[j - b]),
        {
            let h = self.hosts.value_at(i);
            let platforms = h.adapter_platforms();
            proof {
                assert(hs.take(i + 1).drop_last() =~= hs.take(i as int));
                assert(hs.take(i + 1).last() == *h);
                assert(crate::text::strs(platforms@).len() == platforms@.len());
                if platforms@.len() > 0 {
                    assert(crate::text::strs(platforms@)[0] == platforms@[0]@);
                }
                if host_adapter(*h) is Some {
                    assert(platforms@.len() == 1);
                } else {
                    assert(platforms@.len() == 0);
                }
            }
            if platforms.len() > 0 {
                let display_name = match h.adapter_display_name() {
                    Some(n) => n,
                    None => h.host_id.clone(),
                };
                let d = AdapterDescriptor {
                    platform: platforms[0].clone(),
                    display_name,
                    kind: AdapterKind::Plugin,
                    connected: true,
                    circuit_state: CircuitState::Closed,
                    plugin_id: h.adapter_plugin_id(),
                    host_id: Some(h.host_id.clone()),
                };
                let ghost before = entries@;
                entries.push(d);
                proof {
                    let ah = adapter_hosts(hs.take(i + 1));
                    assert(ah == adapter_hosts(hs.take(i as int)).push(*h));
                    assert(describes_plugin_adapter(d, *h));
                    assert forall|j: int| b <= j < entries@.len() implies describes_plugin_adapter(#[trigger] entries@[j], ah[j - b]) by {
                        if j < entries@.len() - 1 {
                            assert(entries@[j] == before[j]);
                        }
                    }
                }
            } else {
                proof {
                    assert(adapter_hosts(hs.take(i + 1)) == adapter_hosts(hs.take(i as int)));
                }
            }
        }
        let ghost ah = adapter_hosts(hs);
        proof {
            assert(hs.take(n as int) =~= hs);
        }
        let m = entries.len();
        let mut keys: Vec<(i64, String)> = Vec::new();
        for j in 0..m
            invariant
                m == entries@.len() == b + ah.len(),
                b == b0.len(),
                keys@.len() == j,
                forall|q: int| 0 <= q < b ==> #[trigger] entries@[q] == b0[q],
                forall|q: int| b <= q < entries@.len() ==> describes_plugin_adapter(#[trigger] entries@[q], ah[q - b]),
                forall|q: int| 0 <= q < j ==> crate::order::key_of(keys@, q) == #[trigger] catalog_keys(b0, ah)[q],
        {
            let group: i64 = if j < b { 0 } else { 1 };
            keys.push((group, entries[j].platform.clone()));
            proof {
                if j >= b {
                    assert(describes_plugin_adapter(entries@[j as int], ah[j - b]));
                } else {
                    assert(entries@[j as int] == b0[j as int]);
                }
            }
        }
        let order = stable_order(&keys);
        proof {
            assert(crate::order::key_models(keys@) =~= catalog_keys(b0, ah));
        }
        let r = apply_order(entries, &order);
        proof {
            assert forall|k: int| 0 <= k < r@.len() implies if (order@[k] as int) < b0.len() {
                #[trigger] r@[k] == b0[order@[k] as int]
            } else {
                describes_plugin_adapter(r@[k], ah[order@[k] - b0.len()])
            } by {
                let j = order@[k] as int;
                assert(r@[k] == entries@[j]);
            }
            let ck = catalog_keys(b0, ah);
            assert forall|x: int, y: int| #![trigger order@[x], order@[y]]
                0 <= x < y < order@.len() && (order@[x] as int) >= b0.len() implies (order@[y] as int) >= b0.len() by {
                assert(!crate::order::key_lt(ck[order@[y] as int], ck[order@[x] as int]));
            }
            assert(catalog_order(b0, ah, order@, r@));
            assert(self.hosts_in_order() == hs);
            assert(catalog_order(builtins@, adapter_hosts(self.hosts_in_order()), order@, r@));
        }
        r
    }
}

impl Supervisor {
    /// The launch recipe to restart host `host_id` with: refused when the host is unknown or was
    /// registered without a recipe.
    pub fn restart_plan(&self, host_id: &str) -> (r: Result<&LaunchSpec, SupervisorError>)
        ensures
            !self.hosts_view().dom().contains(host_id@) ==> (r matches Err(SupervisorError::HostNotFound(id)) && id@ == host_id@),
            self.hosts_view().dom().contains(host_id@) && self.hosts_view()[host_id@].launch_spec is None ==>
                (r matches Err(SupervisorError::RestartUnavailable(id)) && id@ == host_id@),
            self.hosts_view().dom().contains(host_id@) && self.hosts_view()[host_id@].launch_spec is Some ==>
                (r matches Ok(spec) && self.hosts_view()[host_id@].launch_spec == Some(*spec)),
    {
        match self.hosts.get(host_id) {
            None => Err(SupervisorError::HostNotFound(owned(host_id))),
            Some(h) => match &h.launch_spec {
                Some(spec) => Ok(spec),
                None => Err(SupervisorError::RestartUnavailable(owned(host_id))),
            },
        }
    }
}

/// Message of a supervisor error.
pub open spec fn supervisor_error_text(e: SupervisorError) -> Seq<char> {
    match e {
        SupervisorError::Io(m) => "I/O error in supervisor: "@ + m@,
        SupervisorError::Transport(m) => "Transport error connecting to host: "@ + m@,
        SupervisorError::Rpc(m) => "RPC error during host communication: "@ + m@,
        SupervisorError::Timeout(h) => "Host '"@ + h@ + "' timed out waiting for socket readiness"@,
        SupervisorError::PrematureExit { host_id, status } => "Host process '"@ + host_id@ + "' exited prematurely with exit status: "@ + status@,
        SupervisorError::Manifest(m) => "Failed to load plugin manifest: "@ + m@,
        SupervisorError::HostNotFound(h) => "Host '"@ + h@ + "' not found in supervisor"@,
        SupervisorError::PluginNotFound(p) => "Plugin '"@ + p@ + "' is not loaded by any active host"@,
        SupervisorError::RestartUnavailable(h) => "Host '"@ + h@ + "' has no recorded launch specification and cannot be restarted"@,
        SupervisorError::InvalidConfigPayload => "Plugin configuration payload must be a JSON object"@,
        SupervisorError::ConfigReloadRejected { host_id, plugin_id, reason } =>
            "Host '"@ + host_id@ + "' rejected configuration reload for plugin '"@ + plugin_id@ + "': "@ + reason@,
        SupervisorError::StaleConfigVersion { plugin_id, current_version, requested_version } =>
            "Stale configuration version for plugin '"@ + plugin_id@ + "': current is "@ + crate::text::decimal(current_version as nat)
                + ", requested "@ + crate::text::decimal(requested_version as nat),
        SupervisorError::RuntimeUnavailable { runtime, reason } => "Runtime environment '"@ + runtime@ + "' is not available: "@ + reason@,
    }
}

impl SupervisorError {
    /// Human-readable message of the error.
    pub fn message(&self) -> (r: String)
        ensures
            r@ == supervisor_error_text(*self),
    {
        let mut s = String::new();
        match self {
            SupervisorError::Io(m) => {
                crate::text::push_str(&mut s, "I/O error in supervisor: ");
                crate::text::push_str(&mut s, m.as_str());
            },
            SupervisorError::Transport(m) => {
                crate::text::push_str(&mut s, "Transport error connecting to host: ");
                crate::text::push_str(&mut s, m.as_str());
            },
            SupervisorError::Rpc(m) => {
                crate::text::push_str(&mut s, "RPC error during host communication: ");
                crate::text::push_str(&mut s, m.as_str());
            },
            SupervisorError::Timeout(h) => {
                crate::text::push_str(&mut s, "Host '");
                crate::text::push_str(&mut s, h.as_str());
                crate::text::push_str(&mut s, "' timed out waiting for socket readiness");
            },
            SupervisorError::PrematureExit { host_id, status } => {
                crate::text::push_str(&mut s, "Host process '");
                crate::text::push_str(&mut s, host_id.as_str());
                crate::text::push_str(&mut s, "' exited prematurely with exit status: ");
                crate::text::push_str(&mut s, status.as_str());
            },
            SupervisorError::Manifest(m) => {
                crate::text::push_str(&mut s, "Failed to load plugin manifest: ");
                crate::text::push_str(&mut s, m.as_str());
            },
            SupervisorError::HostNotFound(h) => {
                crate::text::push_str(&mut s, "Host '");
                crate::text::push_str(&mut s, h.as_str());
                crate::text::push_str(&mut s, "' not found in supervisor");
            },
            SupervisorError::PluginNotFound(p) => {
                crate::text::push_str(&mut s, "Plugin '");
                crate::text::push_str(&mut s, p.as_str());
                crate::text::push_str(&mut s, "' is not loaded by any active host");
            },
            SupervisorError::RestartUnavailable(h) => {
                crate::text::push_str(&mut s, "Host '");
                crate::text::push_str(&mut s, h.as_str());
                crate::text::push_str(&mut s, "' has no recorded launch specification and cannot be restarted");
            },
            SupervisorError::InvalidConfigPayload => {
                crate::text::push_str(&mut s, "Plugin configuration payload must be a JSON object");
            },
            SupervisorError::ConfigReloadRejected { host_id, plugin_id, reason } => {
                crate::text::push_str(&mut s, "Host '");
                crate::text::push_str(&mut s, host_id.as_str());
                crate::text::push_str(&mut s, "' rejected configuration reload for plugin '");
                crate::text::push_str(&mut s, plugin_id.as_str());
                crate::text::push_str(&mut s, "': ");
                crate::text::push_str(&mut s, reason.as_str());
            },
            SupervisorError::StaleConfigVersion { plugin_id, current_version, requested_version } => {
                crate::text::push_str(&mut s, "Stale configuration version for plugin '");
                crate::text::push_str(&mut s, plugin_id.as_str());
                crate::text::push_str(&mut s, "': current is ");
                crate::text::push_decimal(&mut s, *current_version);
                crate::text::push_str(&mut s, ", requested ");
                crate::text::push_decimal(&mut s, *requested_version);
            },
            SupervisorError::RuntimeUnavailable { runtime, reason } => {
                crate::text::push_str(&mut s, "Runtime environment '");
                crate::text::push_str(&mut s, runtime.as_str());
                crate::text::push_str(&mut s, "' is not available: ");
                crate::text::push_str(&mut s, reason.as_str());
            },
        }
        s
    }
}

/// Grace period, in microseconds, that a plugin host gets to exit after SIGTERM before it is
/// killed: long enough for its unload hooks to run, short enough not to stall core shutdown.
pub const HOST_SHUTDOWN_GRACE: u64 = 5_000_000;

/// What the supervisor does next while stopping a host it has sent SIGTERM.
#[derive(Clone, Copy, Debug, PartialEq, Eq, Structural)]
pub enum TerminationStep {
    /// The host has exited and was reaped: stopping is done.
    Reaped,
    /// The host is still running inside its grace period: poll it again.
    KeepWaiting,
    /// The grace period is over and the host still runs: kill it.
    Kill,
}

/// Decides the next step of stopping a host, given whether it has exited and how long, in
/// microseconds, it has been waited for since SIGTERM: a host that exited is reaped, one that
/// still runs is waited for until `grace` has passed and killed from then on.
pub fn termination_step(exited: bool, waited: u64, grace: u64) -> (r: TerminationStep)
    ensures
        exited ==> r == TerminationStep::Reaped,
        !exited && waited < grace ==> r == TerminationStep::KeepWaiting,
        !exited && waited >= grace ==> r == TerminationStep::Kill,
{
    if exited {
        TerminationStep::Reaped
    } else if waited < grace {
        TerminationStep::KeepWaiting
    } else {
        TerminationStep::Kill
    }
}

/// A reload accepted at the current version by a host that reports no version of its own
/// moves the plugin's version one step up; any other plugin's version is untouched.
pub proof fn law_reload_increments_version(versions: Map<Seq<char>, u64>, plugin_id: Seq<char>, other: Seq<char>)
    requires
        version_in(versions, plugin_id) < u64::MAX,
        other != plugin_id,
    ensures
        ({
            let next = (version_in(versions, plugin_id) + 1) as u64;
            let after = versions.insert(plugin_id, applied_version(next, 0));
            &&& version_in(after, plugin_id) == version_in(versions, plugin_id) + 1
            &&& version_in(after, other) == version_in(versions, other)
        }),
{
}

} // verus!
