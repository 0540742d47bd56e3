//! MCP (Model Context Protocol) servers as tool sources.
//!
//! An MCP server exposes tools over JSON-RPC, over a child process' stdio or over HTTP. Its
//! tools are exposed to the model as `mcp__<server>__<tool>`: the prefix keeps them recognisable
//! and prevents an MCP tool from shadowing a plugin tool of the same name. This module holds the
//! configuration store and its validation, the naming rules, the health bookkeeping of each
//! server, and the interpretation of JSON-RPC messages; moving bytes over pipes and sockets is
//! the I/O layer's part.
use vstd::prelude::*;

use crate::instance::{policy_allows, policy_of, BotInstance};
use crate::json::{json_get, json_str, JsonValue};
use crate::message::{CommandMeta, PluginMeta, ToolMeta};
use crate::string_map::StringMap;
use crate::text::{chars_of, decimal, is_ascii_alnum, is_ascii_alphanumeric, lines_of, owned, push_str, split_lines, str_equal, strs, trim};
use crate::toggle::{flag_enabled, section_flags, ToggleStore, MCP_SECTION};

verus! {

/// Default MCP configuration path.
pub const DEFAULT_MCP_CONFIG: &'static str = "./data/mcp.json";

/// Per-request deadline of an MCP call, in seconds.
pub const MCP_REQUEST_TIMEOUT_SECS: u64 = 30;

/// Interval between two watchdog probes, in seconds.
pub const MCP_WATCHDOG_INTERVAL_SECS: u64 = 30;

/// Consecutive failed probes after which a server is parked as failed.
pub const MCP_MAX_FAILURES: u32 = 3;

/// Failures raised while configuring or talking to MCP servers.
#[derive(Debug)]
pub enum McpError {
    /// The server is not configured on this node.
    NotFound(String),
    /// The configuration document could not be read, written or accepted.
    Config(String),
    /// The transport could not be established or broke.
    Transport(String),
    /// The server answered with a JSON-RPC error.
    Rpc {
        /// Server identifier.
        server: String,
        /// Method that failed.
        method: String,
        /// Error message reported by the server.
        message: String,
    },
}

/// Message of an MCP error.
pub open spec fn mcp_error_text(e: McpError) -> Seq<char> {
    match e {
        McpError::NotFound(id) => "MCP server '"@ + id@ + "' is not configured"@,
        McpError::Config(m) => "MCP configuration failed: "@ + m@,
        McpError::Transport(m) => "MCP transport failed: "@ + m@,
        McpError::Rpc { server, method, message } => "MCP server '"@ + server@ + "' rejected '"@ + method@ + "': "@ + message@,
    }
}

impl McpError {
    /// Human-readable message of the error.
    pub fn message(&self) -> (r: String)
        ensures
            r@ == mcp_error_text(*self),
    {
        let mut s = String::new();
        match self {
            McpError::NotFound(id) => {
                push_str(&mut s, "MCP server '");
                push_str(&mut s, id.as_str());
                push_str(&mut s, "' is not configured");
            },
            McpError::Config(m) => {
                push_str(&mut s, "MCP configuration failed: ");
                push_str(&mut s, m.as_str());
            },
            McpError::Transport(m) => {
                push_str(&mut s, "MCP transport failed: ");
                push_str(&mut s, m.as_str());
            },
            McpError::Rpc { server, method, message } => {
                push_str(&mut s, "MCP server '");
                push_str(&mut s, server.as_str());
                push_str(&mut s, "' rejected '");
                push_str(&mut s, method.as_str());
                push_str(&mut s, "': ");
                push_str(&mut s, message.as_str());
            },
        }
        s
    }
}

/// How to reach an MCP server.
pub enum McpTransport {
    /// A child process speaking JSON-RPC on stdio.
    Stdio {
        /// Executable to run.
        command: String,
        /// Arguments passed to it.
        args: Vec<String>,
        /// Extra environment variables.
        env: StringMap<String>,
    },
    /// JSON-RPC over HTTP POST.
    Http {
        /// Endpoint URL.
        url: String,
        /// Extra headers (authorization, etc.).
        headers: StringMap<String>,
    },
}

/// One configured MCP server.
pub struct McpServerConfig {
    /// Stable identifier, also used in tool names.
    pub id: String,
    /// Human-readable name.
    pub name: String,
    /// Transport configuration.
    pub transport: McpTransport,
}

/// Characters allowed in a server identifier.
pub open spec fn id_char_ok(c: char) -> bool {
    is_ascii_alnum(c) || c == '-' || c == '_'
}

/// Why a server configuration is refused, if it is.
pub open spec fn config_problem(config: McpServerConfig) -> Option<Seq<char>> {
    let id = trim(config.id@);
    if id.len() == 0 || id.len() > 64 || !(forall|i: int| 0 <= i < id.len() ==> id_char_ok(#[trigger] id[i])) {
        Some("invalid MCP server id '"@ + config.id@ + "': use letters, digits, '-' or '_'"@)
    } else if trim(config.name@).len() == 0 {
        Some("server name must not be empty"@)
    } else {
        match config.transport {
            McpTransport::Stdio { command, .. } => if trim(command@).len() == 0 {
                Some("stdio command must not be empty"@)
            } else {
                None
            },
            McpTransport::Http { url, .. } => if !("http://"@.is_prefix_of(url@)) && !("https://"@.is_prefix_of(url@)) {
                Some("HTTP MCP url must start with http:// or https://"@)
            } else {
                None
            },
        }
    }
}

/// Validates a server description before it is stored.
pub fn validate_config(config: &McpServerConfig) -> (r: Result<(), McpError>)
    ensures
        match config_problem(*config) {
            None => r is Ok,
            Some(m) => r matches Err(McpError::Config(msg)) && msg@ == m,
        },
{
    let id = crate::text::trimmed(config.id.as_str());
    let v = chars_of(id.as_str());
    let mut ok = v.len() > 0 && v.len() <= 64;
    let mut i: usize = 0;
    while ok && i < v.len()
        invariant
            v@ == trim(config.id@),
            i <= v@.len(),
            ok ==> forall|j: int| 0 <= j < i ==> id_char_ok(#[trigger] v@[j]),
            ok ==> 0 < v@.len() <= 64,
            !ok ==> (v@.len() == 0 || v@.len() > 64 || !(forall|j: int| 0 <= j < v@.len() ==> id_char_ok(#[trigger] v@[j]))),
        decreases v@.len() - i + (if ok { 1int } else { 0int }),
    {
        let c = v[i];
        if !(is_ascii_alphanumeric(c) || c == '-' || c == '_') {
            ok = false;
            assert(!id_char_ok(v@[i as int]));
        } else {
            i = i + 1;
        }
    }
    if !ok {
        let mut m = String::new();
        push_str(&mut m, "invalid MCP server id '");
        push_str(&mut m, config.id.as_str());
        push_str(&mut m, "': use letters, digits, '-' or '_'");
        return Err(McpError::Config(m));
    }
    let name = crate::text::trimmed(config.name.as_str());
    if name.as_str().is_empty() {
        return Err(McpError::Config(owned("server name must not be empty")));
    }
    match &config.transport {
        McpTransport::Stdio { command, .. } => {
            let c = crate::text::trimmed(command.as_str());
            if c.as_str().is_empty() {
                Err(McpError::Config(owned("stdio command must not be empty")))
            } else {
                Ok(())
            }
        },
        McpTransport::Http { url, .. } => {
            let u = chars_of(url.as_str());
            let p1 = chars_of("http://");
            let p2 = chars_of("https://");
            if !crate::text::starts_with_chars(u.as_slice(), p1.as_slice()) && !crate::text::starts_with_chars(u.as_slice(), p2.as_slice()) {
                Err(McpError::Config(owned("HTTP MCP url must start with http:// or https://")))
            } else {
                Ok(())
            }
        },
    }
}

/// An identifier character as the configuration format documents it: an ASCII lowercase letter
/// (code points 0x61 to 0x7A), an ASCII uppercase letter (0x41 to 0x5A), an ASCII digit (0x30 to
/// 0x39), `-` or `_`.
pub open spec fn documented_id_char(c: char) -> bool {
    let u = c as u32;
    (0x61 <= u && u <= 0x7A) || (0x41 <= u && u <= 0x5A) || (0x30 <= u && u <= 0x39) || c == '-' || c == '_'
}

/// Law: a configuration is accepted whenever its trimmed identifier has 1 to 64 characters, each
/// an ASCII letter, digit, `-` or `_`, its name is not blank, and its transport is a stdio command
/// that is not blank or an `http://` / `https://` URL.
pub proof fn law_well_formed_config_accepted(config: McpServerConfig)
    requires
        1 <= trim(config.id@).len() <= 64,
        forall|i: int| 0 <= i < trim(config.id@).len() ==> documented_id_char(#[trigger] trim(config.id@)[i]),
        trim(config.name@).len() > 0,
        match config.transport {
            McpTransport::Stdio { command, .. } => trim(command@).len() > 0,
            McpTransport::Http { url, .. } => "http://"@.is_prefix_of(url@) || "https://"@.is_prefix_of(url@),
        },
    ensures
        config_problem(config) is None,
{
    let id = trim(config.id@);
    assert forall|i: int| 0 <= i < id.len() implies id_char_ok(#[trigger] id[i]) by {
        assert(documented_id_char(id[i]));
    }
}

/// Law: a configuration whose trimmed identifier holds a character other than an ASCII letter,
/// digit, `-` or `_` is refused, naming the identifier.
pub proof fn law_bad_id_char_refused(config: McpServerConfig, i: int)
    requires
        0 <= i < trim(config.id@).len(),
        !documented_id_char(trim(config.id@)[i]),
    ensures
        config_problem(config) == Some("invalid MCP server id '"@ + config.id@ + "': use letters, digits, '-' or '_'"@),
{
    let id = trim(config.id@);
    assert(!id_char_ok(id[i]));
}

/// Host identifier of an MCP server in tool metadata.
pub open spec fn mcp_host_id(server_id: Seq<char>) -> Seq<char> {
    "mcp_"@ + server_id
}

/// Qualified tool name exposed to the model.
pub open spec fn qualified_name(server_id: Seq<char>, tool: Seq<char>) -> Seq<char> {
    "mcp__"@ + server_id + "__"@ + tool
}

/// Host identifier used for MCP servers in tool metadata (`mcp_<server>`).
pub fn host_id(server_id: &str) -> (r: String)
    ensures
        r@ == mcp_host_id(server_id@),
{
    let mut r = owned("mcp_");
    push_str(&mut r, server_id);
    r
}

/// Qualified tool name exposed to the model (`mcp__<server>__<tool>`).
pub fn qualified_tool_name(server_id: &str, tool: &str) -> (r: String)
    ensures
        r@ == qualified_name(server_id@, tool@),
{
    let mut r = owned("mcp__");
    push_str(&mut r, server_id);
    push_str(&mut r, "__");
    push_str(&mut r, tool);
    r
}

/// Recovers the MCP tool name from its qualified form, when `qualified` belongs to `server_id`.
pub fn unqualified_tool_name(server_id: &str, qualified: &str) -> (r: Option<String>)
    ensures
        ({
            let prefix = "mcp__"@ + server_id@ + "__"@;
            &&& prefix.is_prefix_of(qualified@) ==> (r matches Some(t) && t@ == qualified@.skip(prefix.len() as int))
            &&& !prefix.is_prefix_of(qualified@) ==> r is None
        }),
{
    let mut prefix = owned("mcp__");
    push_str(&mut prefix, server_id);
    push_str(&mut prefix, "__");
    let pv = chars_of(prefix.as_str());
    let qv = chars_of(qualified);
    if crate::text::starts_with_chars(qv.as_slice(), pv.as_slice()) {
        let r = crate::text::string_of_range(qv.as_slice(), pv.len(), qv.len());
        assert(r@ =~= qualified@.skip(pv@.len() as int));
        Some(r)
    } else {
        None
    }
}

/// Stripping the server prefix from a qualified name gives back the tool name.
pub proof fn law_qualified_name_round_trip(server_id: Seq<char>, tool: Seq<char>)
    ensures
        ("mcp__"@ + server_id + "__"@).is_prefix_of(qualified_name(server_id, tool)),
        qualified_name(server_id, tool).skip(("mcp__"@ + server_id + "__"@).len() as int) == tool,
{
    let prefix = "mcp__"@ + server_id + "__"@;
    assert(qualified_name(server_id, tool) =~= prefix + tool);
    assert((prefix + tool).skip(prefix.len() as int) =~= tool);
    assert(prefix.is_prefix_of(prefix + tool)) by {
        assert((prefix + tool).subrange(0, prefix.len() as int) =~= prefix);
    }
}

// ---------------------------------------------------------------------------------------------
// Health
// ---------------------------------------------------------------------------------------------

/// Runtime health of one MCP server.
pub struct McpHealth {
    /// `connected`, `connecting`, `reconnecting`, `failed` or `disconnected`.
    pub state: String,
    /// Tools currently advertised by the server.
    pub tools: usize,
    /// Consecutive failed attempts.
    pub failures: u32,
    /// Last observed error, when any.
    pub last_error: Option<String>,
}

impl Default for McpHealth {
    /// A server not yet contacted: `connecting`, no tools, no failures.
    fn default() -> (h: Self)
        ensures
            h.state@ == "connecting"@,
            h.tools == 0,
            h.failures == 0,
            h.last_error is None,
    {
        McpHealth { state: owned("connecting"), tools: 0, failures: 0, last_error: None }
    }
}

impl McpHealth {
    /// Records a live server advertising `tools` tools.
    pub fn record_success(&mut self, tools: usize)
        ensures
            final(self).state@ == "connected"@,
            final(self).failures == 0,
            final(self).last_error is None,
            final(self).tools == tools,
    {
        self.state = owned("connected");
        self.failures = 0;
        self.last_error = None;
        self.tools = tools;
    }

    /// Records a failed attempt explained by `error`; the server is parked as `failed` once
    /// `MCP_MAX_FAILURES` consecutive attempts failed, `reconnecting` before.
    pub fn record_failure(&mut self, error: &str)
        requires
            old(self).failures < u32::MAX,
        ensures
            final(self).failures == old(self).failures + 1,
            final(self).state@ == if final(self).failures >= MCP_MAX_FAILURES { "failed"@ } else { "reconnecting"@ },
            final(self).last_error matches Some(e) && e@ == error@,
            final(self).tools == 0,
    {
        self.failures = self.failures + 1;
        self.state = if self.failures >= MCP_MAX_FAILURES {
            owned("failed")
        } else {
            owned("reconnecting")
        };
        self.last_error = Some(owned(error));
        self.tools = 0;
    }

    /// Marks the connection as gone.
    pub fn disconnect(&mut self)
        ensures
            final(self).state@ == "disconnected"@,
            final(self).tools == 0,
            final(self).failures == old(self).failures,
            final(self).last_error == old(self).last_error,
    {
        self.state = owned("disconnected");
        self.tools = 0;
    }
}

// ---------------------------------------------------------------------------------------------
// Configuration store
// ---------------------------------------------------------------------------------------------

/// Configured MCP servers, keyed by identifier.
pub struct McpConfigStore {
    path: Option<String>,
    servers: StringMap<McpServerConfig>,
}

impl McpConfigStore {
    /// Every configuration is stored under its own identifier.
    #[verifier::type_invariant]
    closed spec fn keyed_by_id(self) -> bool {
        forall|k: Seq<char>| #[trigger] self.servers@.dom().contains(k) ==> self.servers@[k].id@ == k
    }

    /// Servers by identifier.
    pub closed spec fn view(&self) -> Map<Seq<char>, McpServerConfig> {
        self.servers@
    }

    /// Path of the configuration document (`None` for an in-memory store).
    pub closed spec fn path_view(&self) -> Option<Seq<char>> {
        crate::text::opt_str(self.path)
    }

    /// Server identifiers in ascending order.
    pub closed spec fn ids(&self) -> Seq<Seq<char>> {
        self.servers.key_seq()
    }

    /// A store that lives only for this process.
    pub fn in_memory() -> (r: Self)
        ensures
            r@ == Map::<Seq<char>, McpServerConfig>::empty(),
            r.path_view() is None,
    {
        McpConfigStore { path: None, servers: StringMap::new() }
    }

    /// A store backed by the document at `path`, holding `servers` (later duplicates win).
    pub fn from_servers(path: Option<String>, servers: Vec<McpServerConfig>) -> (r: Self)
        ensures
            r.path_view() == crate::text::opt_str(path),
            forall|k: Seq<char>| #[trigger] r@.dom().contains(k) <==> exists|i: int| 0 <= i < servers@.len() && servers@[i].id@ == k,
    {
        let ghost src = servers@;
        let mut map: StringMap<McpServerConfig> = StringMap::new();
        for s in it: servers
            invariant
                it.seq() == src,
                forall|k: Seq<char>| #[trigger] map@.dom().contains(k) <==> exists|i: int| 0 <= i < it.index() && src[i].id@ == k,
                forall|k: Seq<char>| #[trigger] map@.dom().contains(k) ==> map@[k].id@ == k,
        {
            let ghost idx = it.index();
            let id = s.id.clone();
            map.insert(id, s);
            proof {
                assert forall|k: Seq<char>| #[trigger] map@.dom().contains(k) <==> exists|i: int| 0 <= i < idx + 1 && src[i].id@ == k by {
                    if k == src[idx].id@ {
                        assert(0 <= idx < idx + 1 && src[idx].id@ == k);
                    }
                    if exists|i: int| 0 <= i < idx + 1 && src[i].id@ == k {
                        let i = choose|i: int| 0 <= i < idx + 1 && src[i].id@ == k;
                        if i < idx {
                            assert(exists|i: int| 0 <= i < idx && src[i].id@ == k);
                        }
                    }
                }
            }
        }
        McpConfigStore { path, servers: map }
    }

    /// The configured servers, ordered by identifier.
    pub fn list(&self) -> (r: Vec<&McpServerConfig>)
        ensures
            r@.len() == self.ids().len(),
            self.ids().to_set() == self@.dom(),
            self.ids().no_duplicates(),
            forall|i: int| 0 <= i < r@.len() ==> self@[self.ids()[i]] == *#[trigger] r@[i],
            forall|k: Seq<char>| #[trigger] self@.dom().contains(k) ==> self@[k].id@ == k,
    {
        proof {
            use_type_invariant(self);
        }
        self.servers.facts();
        let n = self.servers.len();
        let mut out: Vec<&McpServerConfig> = Vec::new();
        for i in 0..n
            invariant
                n == self.servers.key_seq().len(),
                out@.len() == i,
                forall|j: int| 0 <= j < self.servers.key_seq().len() ==> #[trigger] self.servers@[self.servers.key_seq()[j]] == self.servers.value_seq()[j],
                forall|j: int| 0 <= j < out@.len() ==> self.servers@[self.servers.key_seq()[j]] == *#[trigger] out@[j],
        {
            out.push(self.servers.value_at(i));
        }
        out
    }

    /// One server configuration.
    pub fn get(&self, id: &str) -> (r: Option<&McpServerConfig>)
        ensures
            r matches Some(c) ==> self@.dom().contains(id@) && self@[id@] == *c,
            r is None ==> !self@.dom().contains(id@),
    {
        self.servers.get(id)
    }

    /// Inserts or replaces a server configuration after validating it.
    pub fn upsert(&mut self, config: McpServerConfig) -> (r: Result<(), McpError>)
        ensures
            config_problem(config) is None ==> r is Ok && final(self)@ == old(self)@.insert(config.id@, config),
            config_problem(config) matches Some(m) ==> (r matches Err(McpError::Config(msg)) && msg@ == m) && final(self)@ == old(self)@,
            final(self).path_view() == old(self).path_view(),
    {
        match validate_config(&config) {
            Err(e) => Err(e),
            Ok(()) => {
                proof {
                    use_type_invariant(&*self);
                }
                let id = config.id.clone();
                let mut m: StringMap<McpServerConfig> = StringMap::new();
                std::mem::swap(&mut m, &mut self.servers);
                m.insert(id, config);
                self.servers = m;
                Ok(())
            },
        }
    }

    /// Removes a server configuration, reporting whether it existed.
    pub fn remove(&mut self, id: &str) -> (r: bool)
        ensures
            r == old(self)@.dom().contains(id@),
            final(self)@ == old(self)@.remove(id@),
            final(self).path_view() == old(self).path_view(),
    {
        proof {
            use_type_invariant(&*self);
        }
        let mut m: StringMap<McpServerConfig> = StringMap::new();
        std::mem::swap(&mut m, &mut self.servers);
        let found = m.remove(id).is_some();
        self.servers = m;
        found
    }

    /// Path of the configuration document, when persisted.
    pub fn path(&self) -> (r: Option<&str>)
        ensures
            match r {
                Some(p) => self.path_view() == Some(p@),
                None => self.path_view() is None,
            },
    {
        match &self.path {
            Some(p) => Some(p.as_str()),
            None => None,
        }
    }
}

/// Whether an MCP server may serve an instance: the node-wide switch and the instance's own
/// override must both allow it.
pub fn server_usable(toggles: &ToggleStore, instance: Option<&BotInstance>, server_id: &str) -> (r: bool)
    ensures
        r == ({
            let global = flag_enabled(section_flags(toggles@, MCP_SECTION@), server_id@);
            global && match instance {
                Some(i) => policy_allows(policy_of(i@.mcp, server_id@), global),
                None => true,
            }
        }),
{
    let global = toggles.is_enabled(MCP_SECTION, server_id);
    if !global {
        return false;
    }
    match instance {
        Some(i) => i.allows_mcp(server_id, global),
        None => true,
    }
}

// ---------------------------------------------------------------------------------------------
// JSON-RPC messages
// ---------------------------------------------------------------------------------------------

/// The payload of a server-sent-events `data:` line, trimmed.
pub open spec fn sse_data(line: Seq<char>) -> Option<Seq<char>> {
    if "data:"@.is_prefix_of(line) {
        Some(trim(line.skip(5)))
    } else {
        None
    }
}

/// The last non-empty `data:` payload among `ls`.
pub open spec fn last_data(ls: Seq<Seq<char>>) -> Option<Seq<char>>
    decreases ls.len(),
{
    if ls.len() == 0 {
        None
    } else {
        match sse_data(ls.last()) {
            Some(t) => if t.len() > 0 {
                Some(t)
            } else {
                last_data(ls.drop_last())
            },
            None => last_data(ls.drop_last()),
        }
    }
}

/// JSON text of an HTTP answer: the last non-empty `data:` line of an event stream, else the
/// whole trimmed body.
pub open spec fn http_json_text(body: Seq<char>) -> Seq<char> {
    match last_data(lines_of(body)) {
        Some(t) => t,
        None => trim(body),
    }
}

/// The JSON text carried by an HTTP answer body (see [`http_json_text`]).
pub fn http_payload(body: &str) -> (r: String)
    ensures
        r@ == http_json_text(body@),
{
    let lines = split_lines(body);
    let ghost ls = strs(lines@);
    let mut k = lines.len();
    assert(ls.take(k as int) =~= ls);
    while k > 0
        invariant
            k <= lines@.len(),
            ls == strs(lines@),
            ls == lines_of(body@),
            last_data(ls) == last_data(ls.take(k as int)),
        decreases k,
    {
        let lv = chars_of(lines[k - 1].as_str());
        let pv = chars_of("data:");
        proof {
            reveal_strlit("data:");
            assert(ls.take(k as int).drop_last() =~= ls.take(k - 1));
            assert(ls.take(k as int).last() == lines@[k - 1]@);
        }
        if crate::text::starts_with_chars(lv.as_slice(), pv.as_slice()) {
            let rest = crate::text::string_of_range(lv.as_slice(), 5, lv.len());
            let t = crate::text::trimmed(rest.as_str());
            assert(rest@ =~= lv@.skip(5));
            if !t.as_str().is_empty() {
                proof {
                    let line = ls.take(k as int).last();
                    assert(line == lv@);
                    assert(sse_data(line) == Some(t@));
                    assert(last_data(ls.take(k as int)) == Some(t@));
                }
                return t;
            }
        }
        k = k - 1;
    }
    assert(ls.take(0) =~= Seq::<Seq<char>>::empty());
    crate::text::trimmed(body)
}

/// MCP protocol revision announced in the handshake.
pub const MCP_PROTOCOL_VERSION: &'static str = "2024-11-05";

/// Whether `m` is the member `key` holding the string `text`.
pub open spec fn string_member(m: (String, JsonValue), key: Seq<char>, text: Seq<char>) -> bool {
    m.0@ == key && (m.1 matches JsonValue::String(t) && t@ == text)
}

fn string_member_of(key: &str, text: &str) -> (r: (String, JsonValue))
    ensures
        string_member(r, key@, text@),
{
    (owned(key), JsonValue::String(owned(text)))
}

/// The JSON-RPC request `id` calling `method` with `params`.
pub fn rpc_request(id: u64, method: &str, params: JsonValue) -> (r: JsonValue)
    ensures
        r matches JsonValue::Object(m) && m@.len() == 4
            && string_member(m@[0], "jsonrpc"@, "2.0"@)
            && m@[1].0@ == "id"@ && m@[1].1 == JsonValue::Number(crate::json::JsonNumber::PosInt(id))
            && string_member(m@[2], "method"@, method@)
            && m@[3].0@ == "params"@ && m@[3].1 == params,
{
    JsonValue::Object(vec![
        string_member_of("jsonrpc", "2.0"),
        (owned("id"), JsonValue::Number(crate::json::JsonNumber::PosInt(id))),
        string_member_of("method", method),
        (owned("params"), params),
    ])
}

/// The JSON-RPC notification `method` with `params` (no identifier, no answer).
pub fn rpc_notification(method: &str, params: JsonValue) -> (r: JsonValue)
    ensures
        r matches JsonValue::Object(m) && m@.len() == 3
            && string_member(m@[0], "jsonrpc"@, "2.0"@)
            && string_member(m@[1], "method"@, method@)
            && m@[2].0@ == "params"@ && m@[2].1 == params,
{
    JsonValue::Object(vec![string_member_of("jsonrpc", "2.0"), string_member_of("method", method), (owned("params"), params)])
}

/// Parameters of the `initialize` request: the protocol revision, no capabilities, and this
/// client's name and `version`.
pub fn initialize_params(version: &str) -> (r: JsonValue)
    ensures
        r matches JsonValue::Object(m) && m@.len() == 3
            && string_member(m@[0], "protocolVersion"@, MCP_PROTOCOL_VERSION@)
            && m@[1].0@ == "capabilities"@ && (m@[1].1 matches JsonValue::Object(c) && c@.len() == 0)
            && m@[2].0@ == "clientInfo"@ && (m@[2].1 matches JsonValue::Object(info) && info@.len() == 2
                && string_member(info@[0], "name"@, "kanon"@) && string_member(info@[1], "version"@, version@)),
{
    let info = JsonValue::Object(vec![string_member_of("name", "kanon"), string_member_of("version", version)]);
    JsonValue::Object(vec![
        string_member_of("protocolVersion", MCP_PROTOCOL_VERSION),
        (owned("capabilities"), JsonValue::Object(Vec::new())),
        (owned("clientInfo"), info),
    ])
}

/// Parameters of a `tools/call` request for `tool` with `arguments`.
pub fn tool_call_params(tool: &str, arguments: JsonValue) -> (r: JsonValue)
    ensures
        r matches JsonValue::Object(m) && m@.len() == 2
            && string_member(m@[0], "name"@, tool@)
            && m@[1].0@ == "arguments"@ && m@[1].1 == arguments,
{
    JsonValue::Object(vec![string_member_of("name", tool), (owned("arguments"), arguments)])
}

/// Ways a request to an MCP server can fail below JSON-RPC.
pub enum TransportFailure {
    /// There is no live connection.
    NotConnected,
    /// No answer came within `MCP_REQUEST_TIMEOUT_SECS`.
    TimedOut,
    /// The server's output ended before the answer.
    OutputClosed,
    /// The HTTP endpoint answered with a non-success status (its text).
    HttpStatus(String),
}

/// Message of a transport failure of `method` on server `server`.
pub open spec fn transport_failure_text(server: Seq<char>, method: Seq<char>, f: TransportFailure) -> Seq<char> {
    match f {
        TransportFailure::NotConnected => "MCP server '"@ + server + "' is not connected"@,
        TransportFailure::TimedOut => "MCP server '"@ + server + "' did not answer '"@ + method + "' in time"@,
        TransportFailure::OutputClosed => "MCP server '"@ + server + "' closed its output while answering '"@ + method + "'"@,
        TransportFailure::HttpStatus(st) => "MCP server '"@ + server + "' answered HTTP "@ + st@,
    }
}

/// The error reported for a transport failure of `method` on server `server`.
pub fn transport_error(server: &str, method: &str, failure: TransportFailure) -> (r: McpError)
    ensures
        r matches McpError::Transport(m) && m@ == transport_failure_text(server@, method@, failure),
{
    let mut m = owned("MCP server '");
    push_str(&mut m, server);
    match failure {
        TransportFailure::NotConnected => push_str(&mut m, "' is not connected"),
        TransportFailure::TimedOut => {
            push_str(&mut m, "' did not answer '");
            push_str(&mut m, method);
            push_str(&mut m, "' in time");
        },
        TransportFailure::OutputClosed => {
            push_str(&mut m, "' closed its output while answering '");
            push_str(&mut m, method);
            push_str(&mut m, "'");
        },
        TransportFailure::HttpStatus(st) => {
            push_str(&mut m, "' answered HTTP ");
            push_str(&mut m, st.as_str());
        },
    }
    McpError::Transport(m)
}

/// Whether `message` is the answer to request `id`.
pub fn answers_request(message: &JsonValue, id: u64) -> (r: bool)
    ensures
        r == (json_get(*message, "id"@) matches Some(JsonValue::Number(crate::json::JsonNumber::PosInt(n))) && n == id),
{
    proof {
        reveal_strlit("id");
    }
    match message.get("id") {
        Some(v) => match v.as_u64() {
            Some(n) => n == id,
            None => false,
        },
        None => false,
    }
}

/// Outcome of a JSON-RPC response: its `result` (`null` when absent), or the server's error.
pub open spec fn rpc_outcome_ok(response: JsonValue) -> JsonValue {
    match json_get(response, "result"@) {
        Some(v) => v,
        None => JsonValue::Null,
    }
}

/// Error message reported in a JSON-RPC `error` member.
pub open spec fn rpc_error_message(error: JsonValue) -> Seq<char> {
    match json_str(json_get(error, "message"@)) {
        Some(m) => m,
        None => "unknown error"@,
    }
}

/// Removes the first member named `key`, returning its value.
fn take_member(members: &mut Vec<(String, JsonValue)>, key: &str) -> (r: Option<JsonValue>)
    ensures
        r == json_get(JsonValue::Object(*old(members)), key@),
{
    let n = members.len();
    for i in 0..n
        invariant
            n == members@.len(),
            *members == *old(members),
            forall|j: int| 0 <= j < i ==> members@[j].0@ != key@,
    {
        if str_equal(members[i].0.as_str(), key) {
            proof {
                crate::json::lemma_first_member(members@, key@, i as int);
            }
            let (_, v) = members.remove(i);
            return Some(v);
        }
    }
    proof {
        assert(!exists|i: int| 0 <= i < members@.len() && members@[i].0@ == key@);
    }
    None
}

/// Interprets a JSON-RPC response to `method` sent to `server`.
pub fn rpc_result(response: JsonValue, server: &str, method: &str) -> (r: Result<JsonValue, McpError>)
    ensures
        json_get(response, "error"@) matches Some(e) ==> (r matches Err(McpError::Rpc { server: s, method: m, message })
            && s@ == server@ && m@ == method@ && message@ == rpc_error_message(e)),
        json_get(response, "error"@) is None ==> r == Ok::<JsonValue, McpError>(rpc_outcome_ok(response)),
{
    proof {
        reveal_strlit("error");
        reveal_strlit("message");
        reveal_strlit("result");
    }
    if let Some(error) = response.get("error") {
        let message = match error.get("message") {
            Some(m) => match m.as_str() {
                Some(t) => owned(t),
                None => owned("unknown error"),
            },
            None => owned("unknown error"),
        };
        return Err(McpError::Rpc { server: owned(server), method: owned(method), message });
    }
    match response {
        JsonValue::Object(members) => {
            let mut members = members;
            match take_member(&mut members, "result") {
                Some(v) => Ok(v),
                None => Ok(JsonValue::Null),
            }
        },
        _ => Ok(JsonValue::Null),
    }
}

/// Tools listed in a `tools/list` result.
pub open spec fn listed_tools(result: JsonValue) -> Seq<JsonValue> {
    match json_get(result, "tools"@) {
        Some(JsonValue::Array(v)) => v@,
        _ => Seq::empty(),
    }
}

/// Whether a listed tool carries a name.
pub open spec fn named(tool: JsonValue) -> bool {
    json_str(json_get(tool, "name"@)) is Some
}

/// The listed tools that carry a name, in order.
pub open spec fn named_tools(ts: Seq<JsonValue>) -> Seq<JsonValue>
    decreases ts.len(),
{
    if ts.len() == 0 {
        Seq::empty()
    } else {
        let r = named_tools(ts.drop_last());
        if named(ts.last()) {
            r.push(ts.last())
        } else {
            r
        }
    }
}

/// Whether `meta` advertises the listed `tool` of server `server_id`: qualified name,
/// description (empty when absent), and the input schema as an object (an empty object when
/// the schema is not one).
pub open spec fn advertises(server_id: Seq<char>, tool: JsonValue, meta: ToolMeta) -> bool {
    &&& json_str(json_get(tool, "name"@)) matches Some(n) && meta.name@ == qualified_name(server_id, n)
    &&& meta.description@ == match json_str(json_get(tool, "description"@)) {
        Some(d) => d,
        None => Seq::empty(),
    }
    &&& match json_get(tool, "inputSchema"@) {
        None => meta.parameters is None,
        Some(schema) => if schema is Object {
            meta.parameters == Some(schema)
        } else {
            meta.parameters matches Some(JsonValue::Object(m)) && m@.len() == 0
        },
    }
}

/// Tool metadata advertised for the tools of a `tools/list` result; unnamed tools are skipped.
pub fn tool_metas(server_id: &str, list_result: JsonValue) -> (r: Vec<ToolMeta>)
    ensures
        r@.len() == named_tools(listed_tools(list_result)).len(),
        forall|i: int| 0 <= i < r@.len() ==> advertises(server_id@, named_tools(listed_tools(list_result))[i], #[trigger] r@[i]),
{
    proof {
        reveal_strlit("tools");
        reveal_strlit("name");
        reveal_strlit("description");
        reveal_strlit("inputSchema");
    }
    let ghost listed = listed_tools(list_result);
    let tools: Vec<JsonValue> = match list_result {
        JsonValue::Object(members) => {
            let mut members = members;
            match take_member(&mut members, "tools") {
                Some(JsonValue::Array(v)) => v,
                _ => Vec::new(),
            }
        },
        _ => Vec::new(),
    };
    assert(tools@ == listed);
    let mut out: Vec<ToolMeta> = Vec::new();
    for tool in it: tools
        invariant
            it.seq() == listed,
            out@.len() == named_tools(listed.take(it.index() as int)).len(),
            forall|i: int| 0 <= i < out@.len() ==> advertises(server_id@, named_tools(listed.take(it.index() as int))[i], #[trigger] out@[i]),
    {
        let ghost idx = it.index();
        let ghost t = tool;
        proof {
            assert(listed.take(idx + 1).drop_last() =~= listed.take(idx as int));
            assert(listed.take(idx + 1).last() == t);
        }
        let name = match tool.get("name") {
            Some(v) => match v.as_str() {
                Some(n) => Some(owned(n)),
                None => None,
            },
            None => None,
        };
        match name {
            None => {
                assert(named_tools(listed.take(idx + 1)) == named_tools(listed.take(idx as int)));
            },
            Some(n) => {
                let description = match tool.get("description") {
                    Some(v) => match v.as_str() {
                        Some(d) => owned(d),
                        None => String::new(),
                    },
                    None => String::new(),
                };
                let schema = match tool {
                    JsonValue::Object(members) => {
                        let mut members = members;
                        take_member(&mut members, "inputSchema")
                    },
                    _ => None,
                };
                let parameters = match schema {
                    Some(sv) => if sv.is_object() {
                        Some(sv)
                    } else {
                        Some(JsonValue::Object(Vec::new()))
                    },
                    None => None,
                };
                let meta = ToolMeta { name: qualified_tool_name(server_id, n.as_str()), description, parameters };
                proof {
                    assert(advertises(server_id@, t, meta));
                }
                let ghost before = out@;
                out.push(meta);
                proof {
                    let nt = named_tools(listed.take(idx + 1));
                    assert(nt == named_tools(listed.take(idx as int)).push(t));
                    assert forall|i: int| 0 <= i < out@.len() implies advertises(server_id@, nt[i], #[trigger] out@[i]) by {
                        if i < before.len() {
                            assert(out@[i] == before[i]);
                        }
                    }
                }
            },
        }
    }
    proof {
        assert(listed.take(listed.len() as int) =~= listed);
    }
    out
}

/// Texts of the content items of a `tools/call` result that carry one, in order.
pub open spec fn item_texts(items: Seq<JsonValue>) -> Seq<Seq<char>>
    decreases items.len(),
{
    if items.len() == 0 {
        Seq::empty()
    } else {
        let r = item_texts(items.drop_last());
        match json_str(json_get(items.last(), "text"@)) {
            Some(t) => r.push(t),
            None => r,
        }
    }
}

/// `ts` joined with newlines.
pub open spec fn join_lines(ts: Seq<Seq<char>>) -> Seq<char>
    decreases ts.len(),
{
    if ts.len() == 0 {
        Seq::empty()
    } else if ts.len() == 1 {
        ts[0]
    } else {
        join_lines(ts.drop_last()) + "\n"@ + ts.last()
    }
}

/// The text answer of a `tools/call` result: its content texts joined with newlines, when the
/// result has a content array holding at least one text.
pub open spec fn call_answer(result: JsonValue) -> Option<Seq<char>> {
    match json_get(result, "content"@) {
        Some(JsonValue::Array(items)) => if item_texts(items@).len() > 0 {
            Some(join_lines(item_texts(items@)))
        } else {
            None
        },
        _ => None,
    }
}

/// The text answer of a `tools/call` result (see [`call_answer`]); `None` means the result is
/// passed on as JSON.
pub fn call_text(result: &JsonValue) -> (r: Option<String>)
    ensures
        crate::text::opt_str(r) == call_answer(*result),
{
    proof {
        reveal_strlit("content");
        reveal_strlit("text");
        reveal_strlit("\n");
    }
    let items = match result.get("content") {
        Some(JsonValue::Array(items)) => items,
        _ => return None,
    };
    let mut joined = String::new();
    let mut count: usize = 0;
    let n = items.len();
    for i in 0..n
        invariant
            n == items@.len(),
            count == item_texts(items@.take(i as int)).len(),
            count <= i,
            joined@ == join_lines(item_texts(items@.take(i as int))),
    {
        proof {
            assert(items@.take(i + 1).drop_last() =~= items@.take(i as int));
            assert(items@.take(i + 1).last() == items@[i as int]);
        }
        match items[i].get("text") {
            Some(v) => match v.as_str() {
                Some(t) => {
                    let ghost j0 = joined@;
                    if count > 0 {
                        crate::text::push_char(&mut joined, '\n');
                    }
                    push_str(&mut joined, t);
                    proof {
                        let ts = item_texts(items@.take(i + 1));
                        assert(ts == item_texts(items@.take(i as int)).push(t@));
                        assert(ts.drop_last() =~= item_texts(items@.take(i as int)));
                        assert(ts.last() == t@);
                        assert(ts.len() == count + 1);
                        if count > 0 {
                            assert(join_lines(ts) == join_lines(ts.drop_last()) + "\n"@ + ts.last());
                            assert(join_lines(ts.drop_last()) == j0);
                            reveal_strlit("\n");
                            assert("\n"@ =~= seq!['\n']);
                            assert(joined@ =~= j0.push('\n') + t@);
                            assert(joined@ =~= join_lines(ts));
                        } else {
                            assert(joined@ =~= join_lines(ts));
                        }
                    }
                    count = count + 1;
                },
                None => {},
            },
            None => {},
        }
    }
    proof {
        assert(items@.take(n as int) =~= items@);
    }
    if count > 0 {
        Some(joined)
    } else {
        None
    }
}

/// Error returned for a tool call addressed to another server.
pub open spec fn foreign_tool_text(tool_name: Seq<char>, server_id: Seq<char>) -> Seq<char> {
    "Tool '"@ + tool_name + "' does not belong to MCP server '"@ + server_id + "'"@
}

/// Message refusing a tool call that does not belong to server `server_id`.
pub fn foreign_tool_message(tool_name: &str, server_id: &str) -> (r: String)
    ensures
        r@ == foreign_tool_text(tool_name@, server_id@),
{
    let mut r = owned("Tool '");
    push_str(&mut r, tool_name);
    push_str(&mut r, "' does not belong to MCP server '");
    push_str(&mut r, server_id);
    push_str(&mut r, "'");
    r
}

/// A tool call addressed to an MCP server.
pub struct ToolCallRequest {
    /// Identifier that the reply carries back.
    pub call_id: String,
    /// Qualified tool name (`mcp__<server>__<tool>`).
    pub tool_name: String,
    /// Structured arguments, when the request carries them.
    pub arguments: Option<JsonValue>,
}

/// Reply to a tool call.
pub struct ToolCallResponse {
    /// Identifier of the call answered.
    pub call_id: String,
    /// Whether the tool ran.
    pub success: bool,
    /// Why the call failed; empty on success.
    pub error_message: String,
    /// Structured result, present on success.
    pub payload: Option<JsonValue>,
}

/// Whether `v` is the object `{"content": text}`.
pub open spec fn is_content_result(v: JsonValue, text: Seq<char>) -> bool {
    v matches JsonValue::Object(m) && m@.len() == 1 && string_member(m@[0], "content"@, text)
}

/// Reply to a tool call once the server has answered: the answer text as `{"content": text}` on
/// success, the error's message otherwise.
pub fn tool_call_response(call_id: String, outcome: Result<String, McpError>) -> (r: ToolCallResponse)
    ensures
        r.call_id == call_id,
        match outcome {
            Ok(text) => r.success && r.error_message@.len() == 0
                && (r.payload matches Some(p) && is_content_result(p, text@)),
            Err(e) => !r.success && r.error_message@ == mcp_error_text(e) && r.payload is None,
        },
{
    match outcome {
        Ok(text) => {
            let result = JsonValue::Object(vec![(owned("content"), JsonValue::String(text))]);
            ToolCallResponse { call_id, success: true, error_message: String::new(), payload: Some(result) }
        },
        Err(e) => {
            let error_message = e.message();
            ToolCallResponse { call_id, success: false, error_message, payload: None }
        },
    }
}

/// State the core keeps about one MCP server: its configuration, advertised tools, health and
/// request numbering. The live connection is held by the I/O layer.
pub struct McpServer {
    config: McpServerConfig,
    host_id: String,
    meta: Vec<PluginMeta>,
    health: McpHealth,
    next_request_id: u64,
}

impl McpServer {
    /// The configuration.
    pub closed spec fn config_view(&self) -> McpServerConfig {
        self.config
    }

    /// The advertised metadata.
    pub closed spec fn meta_view(&self) -> Seq<PluginMeta> {
        self.meta@
    }

    /// The health snapshot.
    pub closed spec fn health_view(&self) -> McpHealth {
        self.health
    }

    /// The next JSON-RPC request identifier.
    pub closed spec fn next_id_view(&self) -> u64 {
        self.next_request_id
    }

    /// The host identifier used in tool metadata.
    pub closed spec fn host_id_view(&self) -> Seq<char> {
        self.host_id@
    }

    /// A server not yet contacted: no tools, health `connecting`, request numbering from 1.
    pub fn new(config: McpServerConfig) -> (r: Self)
        ensures
            r.config_view() == config,
            r.host_id_view() == mcp_host_id(config.id@),
            r.meta_view().len() == 0,
            r.health_view().state@ == "connecting"@,
            r.health_view().failures == 0,
            r.next_id_view() == 1,
    {
        let host_id = host_id(config.id.as_str());
        McpServer { config, host_id, meta: Vec::new(), health: McpHealth::default(), next_request_id: 1 }
    }

    /// Configuration of this server.
    pub fn config(&self) -> (r: &McpServerConfig)
        ensures
            *r == self.config_view(),
    {
        &self.config
    }

    /// Host identifier (`mcp_<server>`).
    pub fn host_id(&self) -> (r: &str)
        ensures
            r@ == self.host_id_view(),
    {
        self.host_id.as_str()
    }

    /// Current health snapshot.
    pub fn health(&self) -> (r: &McpHealth)
        ensures
            *r == self.health_view(),
    {
        &self.health
    }

    /// First step of a tool call: the MCP tool name and the `tools/call` parameters to send
    /// (the request's arguments, or `{}` when it carries none), or the refusing reply when the
    /// qualified name does not belong to this server.
    pub fn call_tool(&self, req: ToolCallRequest) -> (r: Result<(String, JsonValue), ToolCallResponse>)
        ensures
            ({
                let prefix = "mcp__"@ + self.config_view().id@ + "__"@;
                &&& prefix.is_prefix_of(req.tool_name@) ==> (r matches Ok((tool, params))
                    && tool@ == req.tool_name@.skip(prefix.len() as int)
                    && (params matches JsonValue::Object(m) && m@.len() == 2
                        && string_member(m@[0], "name"@, tool@) && m@[1].0@ == "arguments"@
                        && (req.arguments matches Some(a) ==> m@[1].1 == a)
                        && (req.arguments is None ==> (m@[1].1 matches JsonValue::Object(e) && e@.len() == 0))))
                &&& !prefix.is_prefix_of(req.tool_name@) ==> (r matches Err(resp)
                    && resp.call_id == req.call_id && !resp.success
                    && resp.error_message@ == foreign_tool_text(req.tool_name@, self.config_view().id@)
                    && resp.payload is None)
            }),
    {
        let ToolCallRequest { call_id, tool_name, arguments } = req;
        match unqualified_tool_name(self.config.id.as_str(), tool_name.as_str()) {
            Some(tool) => {
                let arguments = match arguments {
                    Some(a) => a,
                    None => JsonValue::Object(Vec::new()),
                };
                let params = tool_call_params(tool.as_str(), arguments);
                Ok((tool, params))
            },
            None => {
                let error_message = foreign_tool_message(tool_name.as_str(), self.config.id.as_str());
                Err(ToolCallResponse { call_id, success: false, error_message, payload: None })
            },
        }
    }

    /// Synthetic plugin metadata describing this server's tools.
    pub fn plugin_meta(&self) -> (r: &Vec<PluginMeta>)
        ensures
            r@ == self.meta_view(),
    {
        &self.meta
    }

    /// Number of tools currently advertised.
    pub fn tool_count(&self) -> (r: usize)
        ensures
            r == if self.meta_view().len() > 0 { self.meta_view()[0].tools@.len() } else { 0 },
    {
        if self.meta.len() > 0 {
            self.meta[0].tools.len()
        } else {
            0
        }
    }

    /// Takes the identifier of the next JSON-RPC request (identifiers wrap around).
    pub fn take_request_id(&mut self) -> (r: u64)
        ensures
            r == old(self).next_id_view(),
            final(self).next_id_view() == (if r == u64::MAX { 0 } else { (r + 1) as u64 }),
            final(self).config_view() == old(self).config_view(),
            final(self).meta_view() == old(self).meta_view(),
            final(self).health_view() == old(self).health_view(),
            final(self).host_id_view() == old(self).host_id_view(),
    {
        let id = self.next_request_id;
        self.next_request_id = self.next_request_id.wrapping_add(1);
        id
    }

    /// Replaces the advertised tools with `tools` (from a `tools/list` answer).
    pub fn set_tools(&mut self, tools: Vec<ToolMeta>)
        ensures
            final(self).meta_view().len() == 1,
            final(self).meta_view()[0].id@ == mcp_host_id(old(self).config_view().id@),
            final(self).meta_view()[0].name == old(self).config_view().name,
            final(self).meta_view()[0].version@ == "mcp"@,
            final(self).meta_view()[0].author@ == "MCP"@,
            final(self).meta_view()[0].description@ == "Model Context Protocol server '"@ + old(self).config_view().name@ + "'"@,
            final(self).meta_view()[0].commands@.len() == 0,
            final(self).meta_view()[0].tools == tools,
            final(self).config_view() == old(self).config_view(),
            final(self).health_view() == old(self).health_view(),
            final(self).next_id_view() == old(self).next_id_view(),
            final(self).host_id_view() == old(self).host_id_view(),
    {
        let mut description = owned("Model Context Protocol server '");
        push_str(&mut description, self.config.name.as_str());
        push_str(&mut description, "'");
        let commands: Vec<CommandMeta> = Vec::new();
        let meta = PluginMeta {
            id: host_id(self.config.id.as_str()),
            name: self.config.name.clone(),
            version: owned("mcp"),
            author: owned("MCP"),
            description,
            commands,
            tools,
        };
        let mut v: Vec<PluginMeta> = Vec::new();
        v.push(meta);
        self.meta = v;
    }

    /// Records a live server in the health snapshot (tool count from the advertised tools).
    pub fn record_success(&mut self)
        ensures
            final(self).health_view().state@ == "connected"@,
            final(self).health_view().failures == 0,
            final(self).health_view().last_error is None,
            final(self).health_view().tools == if old(self).meta_view().len() > 0 { old(self).meta_view()[0].tools@.len() } else { 0 },
            final(self).meta_view() == old(self).meta_view(),
            final(self).config_view() == old(self).config_view(),
            final(self).next_id_view() == old(self).next_id_view(),
    {
        let tools = self.tool_count();
        self.health.record_success(tools);
    }

    /// Records a failed attempt explained by `error`.
    pub fn record_failure(&mut self, error: &str)
        requires
            old(self).health_view().failures < u32::MAX,
        ensures
            final(self).health_view().failures == old(self).health_view().failures + 1,
            final(self).health_view().state@ == if final(self).health_view().failures >= MCP_MAX_FAILURES { "failed"@ } else { "reconnecting"@ },
            final(self).health_view().last_error matches Some(e) && e@ == error@,
            final(self).health_view().tools == 0,
            final(self).meta_view() == old(self).meta_view(),
            final(self).config_view() == old(self).config_view(),
            final(self).next_id_view() == old(self).next_id_view(),
    {
        self.health.record_failure(error);
    }

    /// Marks the connection as gone.
    pub fn disconnect(&mut self)
        ensures
            final(self).health_view().state@ == "disconnected"@,
            final(self).health_view().tools == 0,
            final(self).health_view().failures == old(self).health_view().failures,
            final(self).meta_view() == old(self).meta_view(),
            final(self).config_view() == old(self).config_view(),
    {
        self.health.disconnect();
    }
}

// ---------------------------------------------------------------------------------------------
// Pool
// ---------------------------------------------------------------------------------------------

/// Contents of a string-to-string map, by value text.
pub open spec fn text_map(m: Map<Seq<char>, String>) -> Map<Seq<char>, Seq<char>> {
    Map::new(|k: Seq<char>| m.dom().contains(k), |k: Seq<char>| m[k]@)
}

/// Mathematical form of a transport.
pub enum TransportModel {
    Stdio { command: Seq<char>, args: Seq<Seq<char>>, env: Map<Seq<char>, Seq<char>> },
    Http { url: Seq<char>, headers: Map<Seq<char>, Seq<char>> },
}

/// Mathematical form of a server configuration: two configurations describe the same server
/// exactly when their models are equal.
pub struct ServerModel {
    pub id: Seq<char>,
    pub name: Seq<char>,
    pub transport: TransportModel,
}

/// The model of a server configuration.
pub open spec fn server_model(c: McpServerConfig) -> ServerModel {
    ServerModel {
        id: c.id@,
        name: c.name@,
        transport: match c.transport {
            McpTransport::Stdio { command, args, env } => TransportModel::Stdio { command: command@, args: strs(args@), env: text_map(env@) },
            McpTransport::Http { url, headers } => TransportModel::Http { url: url@, headers: text_map(headers@) },
        },
    }
}

/// Whether two string maps hold the same texts under the same keys.
fn same_text_map(a: &StringMap<String>, b: &StringMap<String>) -> (r: bool)
    ensures
        r == (text_map(a@) == text_map(b@)),
{
    a.facts();
    b.facts();
    if a.len() != b.len() {
        proof {
            if text_map(a@) == text_map(b@) {
                assert(a@.dom() =~= text_map(a@).dom());
                assert(b@.dom() =~= text_map(b@).dom());
            }
        }
        return false;
    }
    let n = a.len();
    let ghost ks = a.key_seq();
    for i in 0..n
        invariant
            n == ks.len(),
            ks == a.key_seq(),
            a@.dom() == ks.to_set(),
            forall|j: int| 0 <= j < ks.len() ==> #[trigger] a@[ks[j]] == a.value_seq()[j],
            forall|j: int| 0 <= j < i ==> b@.dom().contains(#[trigger] ks[j]) && b@[ks[j]]@ == a@[ks[j]]@,
    {
        let k = a.key_at(i);
        let v = a.value_at(i);
        match b.get(k.as_str()) {
            Some(w) => {
                if !str_equal(w.as_str(), v.as_str()) {
                    proof {
                        assert(ks.to_set().contains(ks[i as int]));
                        assert(text_map(a@)[k@] != text_map(b@)[k@]);
                    }
                    return false;
                }
            },
            None => {
                proof {
                    assert(ks.to_set().contains(ks[i as int]));
                    assert(text_map(a@).dom().contains(k@));
                    assert(!text_map(b@).dom().contains(k@));
                }
                return false;
            },
        }
    }
    proof {
        assert(a@.dom().subset_of(b@.dom())) by {
            assert forall|k: Seq<char>| a@.dom().contains(k) implies b@.dom().contains(k) by {
                assert(ks.to_set().contains(k));
                let j = ks.index_of(k);
                assert(ks[j] == k);
            }
        }
        vstd::set_lib::lemma_subset_equality(a@.dom(), b@.dom());
        assert forall|k: Seq<char>| #[trigger] a@.dom().contains(k) implies b@[k]@ == a@[k]@ by {
            assert(ks.to_set().contains(k));
            let j = ks.index_of(k);
            assert(ks[j] == k);
        }
        assert(text_map(a@) =~= text_map(b@));
    }
    true
}

/// Whether two string vectors hold the same texts.
fn same_strings(a: &Vec<String>, b: &Vec<String>) -> (r: bool)
    ensures
        r == (strs(a@) == strs(b@)),
{
    if a.len() != b.len() {
        proof {
            if strs(a@) == strs(b@) {
                assert(strs(a@).len() == a@.len());
            }
        }
        return false;
    }
    for i in 0..a.len()
        invariant
            a@.len() == b@.len(),
            forall|j: int| 0 <= j < i ==> a@[j]@ == b@[j]@,
    {
        if !str_equal(a[i].as_str(), b[i].as_str()) {
            proof {
                assert(strs(a@)[i as int] != strs(b@)[i as int]);
            }
            return false;
        }
    }
    assert(strs(a@) =~= strs(b@));
    true
}

/// Whether two configurations describe the same server.
pub fn same_config(a: &McpServerConfig, b: &McpServerConfig) -> (r: bool)
    ensures
        r == (server_model(*a) == server_model(*b)),
{
    if !str_equal(a.id.as_str(), b.id.as_str()) || !str_equal(a.name.as_str(), b.name.as_str()) {
        return false;
    }
    match (&a.transport, &b.transport) {
        (McpTransport::Stdio { command: c1, args: a1, env: e1 }, McpTransport::Stdio { command: c2, args: a2, env: e2 }) => {
            str_equal(c1.as_str(), c2.as_str()) && same_strings(a1, a2) && same_text_map(e1, e2)
        },
        (McpTransport::Http { url: u1, headers: h1 }, McpTransport::Http { url: u2, headers: h2 }) => {
            str_equal(u1.as_str(), u2.as_str()) && same_text_map(h1, h2)
        },
        _ => false,
    }
}

/// A copy of a string-to-string map.
fn clone_text_map(m: &StringMap<String>) -> (r: StringMap<String>)
    ensures
        text_map(r@) == text_map(m@),
{
    let r = m.clone();
    m.facts();
    r.facts();
    proof {
        assert forall|i: int| 0 <= i < m.key_seq().len() implies r.value_seq()[i] == m.value_seq()[i] by {
            assert(cloned::<String>(m.value_seq()[i], r.value_seq()[i]));
        }
        assert(r@.dom() =~= m@.dom());
        assert forall|k: Seq<char>| #[trigger] m@.dom().contains(k) implies r@[k] == m@[k] by {
            assert(m.key_seq().to_set().contains(k));
            let j = m.key_seq().index_of(k);
            assert(m.key_seq()[j] == k);
        }
        assert(text_map(r@) =~= text_map(m@));
    }
    r
}

/// A copy of a server configuration.
pub fn clone_config(c: &McpServerConfig) -> (r: McpServerConfig)
    ensures
        server_model(r) == server_model(*c),
{
    let transport = match &c.transport {
        McpTransport::Stdio { command, args, env } => McpTransport::Stdio {
            command: command.clone(),
            args: crate::text::clone_strings(args),
            env: clone_text_map(env),
        },
        McpTransport::Http { url, headers } => McpTransport::Http { url: url.clone(), headers: clone_text_map(headers) },
    };
    McpServerConfig { id: c.id.clone(), name: c.name.clone(), transport }
}

/// Whether `s` is a server just created for configuration `c`.
pub open spec fn fresh_server(s: McpServer, c: McpServerConfig) -> bool {
    &&& server_model(s.config_view()) == server_model(c)
    &&& s.host_id_view() == mcp_host_id(c.id@)
    &&& s.meta_view().len() == 0
    &&& s.health_view().state@ == "connecting"@
    &&& s.health_view().failures == 0
    &&& s.next_id_view() == 1
}

/// Whether an MCP server may serve an instance (see [`server_usable`]).
pub open spec fn usable(toggles: Map<Seq<char>, Map<Seq<char>, bool>>, instance: Option<BotInstance>, server_id: Seq<char>) -> bool {
    let global = flag_enabled(section_flags(toggles, MCP_SECTION@), server_id);
    global && match instance {
        Some(i) => policy_allows(policy_of(i@.mcp, server_id), global),
        None => true,
    }
}

/// The identifiers among `ids` of the servers an instance may use, in order.
pub open spec fn usable_ids(toggles: Map<Seq<char>, Map<Seq<char>, bool>>, instance: Option<BotInstance>, ids: Seq<Seq<char>>) -> Seq<Seq<char>>
    decreases ids.len(),
{
    if ids.len() == 0 {
        Seq::empty()
    } else {
        let r = usable_ids(toggles, instance, ids.drop_last());
        if usable(toggles, instance, ids.last()) {
            r.push(ids.last())
        } else {
            r
        }
    }
}

/// Whether `after` is the pool `before` synchronized with configuration `config`: exactly the
/// configured servers, each kept when its configuration is unchanged and fresh otherwise.
pub open spec fn synced(before: Map<Seq<char>, McpServer>, config: Map<Seq<char>, McpServerConfig>, after: Map<Seq<char>, McpServer>) -> bool {
    &&& after.dom() == config.dom()
    &&& forall|k: Seq<char>| #[trigger] config.dom().contains(k) ==> if before.dom().contains(k)
        && server_model(before[k].config_view()) == server_model(config[k]) {
        after[k] == before[k]
    } else {
        fresh_server(after[k], config[k])
    }
}

/// Synchronizing twice with the same configuration changes nothing the second time: every
/// server left by the first sync matches its configuration and is kept.
pub proof fn law_sync_is_idempotent(
    a: Map<Seq<char>, McpServer>,
    b: Map<Seq<char>, McpServer>,
    c: Map<Seq<char>, McpServer>,
    config: Map<Seq<char>, McpServerConfig>,
)
    requires
        synced(a, config, b),
        synced(b, config, c),
    ensures
        c == b,
{
    assert forall|k: Seq<char>| #[trigger] c.dom().contains(k) implies c[k] == b[k] by {
        assert(config.dom().contains(k));
    }
    assert(c =~= b);
}

/// The MCP servers the core knows, by identifier, as last synchronized with the configuration.
/// Live connections are held by the I/O layer under the same identifiers.
pub struct McpPool {
    servers: StringMap<McpServer>,
}

impl McpPool {
    /// Servers by identifier.
    pub closed spec fn view(&self) -> Map<Seq<char>, McpServer> {
        self.servers@
    }

    /// Server identifiers in ascending order.
    pub closed spec fn ids(&self) -> Seq<Seq<char>> {
        self.servers.key_seq()
    }

    /// A pool without servers.
    pub fn new() -> (r: Self)
        ensures
            r@ == Map::<Seq<char>, McpServer>::empty(),
    {
        McpPool { servers: StringMap::new() }
    }

    /// Makes the pool follow the configuration: servers no longer configured are dropped, a
    /// server whose configuration is unchanged is kept with its state, and every other
    /// configured server starts afresh.
    pub fn sync_from_config(&mut self, config: &McpConfigStore)
        ensures
            synced(old(self)@, config@, final(self)@),
    {
        let configured = config.list();
        let ghost ids = config.ids();
        let ghost before = self.servers@;
        let mut old_map: StringMap<McpServer> = StringMap::new();
        std::mem::swap(&mut old_map, &mut self.servers);
        let mut fresh: StringMap<McpServer> = StringMap::new();
        let n = configured.len();
        for i in 0..n
            invariant
                n == ids.len(),
                configured@.len() == ids.len(),
                ids == config.ids(),
                ids.to_set() == config@.dom(),
                ids.no_duplicates(),
                forall|j: int| 0 <= j < configured@.len() ==> config@[ids[j]] == *#[trigger] configured@[j],
                forall|kk: Seq<char>| #[trigger] config@.dom().contains(kk) ==> config@[kk].id@ == kk,
                fresh@.dom() == ids.take(i as int).to_set(),
                forall|k: Seq<char>| #[trigger] old_map@.dom().contains(k) <==> before.dom().contains(k) && !ids.take(i as int).contains(k),
                forall|k: Seq<char>| #[trigger] old_map@.dom().contains(k) ==> old_map@[k] == before[k],
                forall|j: int| 0 <= j < i ==> {
                    let k = #[trigger] ids[j];
                    if before.dom().contains(k) && server_model(before[k].config_view()) == server_model(config@[k]) {
                        fresh@[k] == before[k]
                    } else {
                        fresh_server(fresh@[k], config@[k])
                    }
                },
        {
            let c = configured[i];
            let ghost k = ids[i as int];
            proof {
                assert(ids.to_set().contains(k));
                assert(c.id@ == config@[k].id@);
                assert(c.id@ == k);
                assert(!ids.take(i as int).contains(k)) by {
                    if ids.take(i as int).contains(k) {
                        let j = ids.take(i as int).index_of(k);
                        assert(ids[j] == ids[i as int]);
                    }
                }
            }
            let server = match old_map.remove(c.id.as_str()) {
                Some(existing) => if same_config(existing.config(), c) {
                    existing
                } else {
                    McpServer::new(clone_config(c))
                },
                None => McpServer::new(clone_config(c)),
            };
            let ghost fresh_before = fresh@;
            fresh.insert(c.id.clone(), server);
            proof {
                assert(ids.take(i + 1) =~= ids.take(i as int).push(k));
                assert forall|x: Seq<char>| ids.take(i + 1).to_set().contains(x) <==> ids.take(i as int).to_set().contains(x) || x == k by {
                    if ids.take(i + 1).contains(x) {
                        let j = ids.take(i + 1).index_of(x);
                        if j < i {
                            assert(ids.take(i as int)[j] == x);
                        }
                    }
                    if ids.take(i as int).contains(x) {
                        let j = ids.take(i as int).index_of(x);
                        assert(ids.take(i + 1)[j] == x);
                    }
                    if x == k {
                        assert(ids.take(i + 1)[i as int] == k);
                    }
                }
                assert(fresh@.dom() =~= ids.take(i + 1).to_set());
                assert forall|j: int| 0 <= j < i + 1 implies {
                    let kk = #[trigger] ids[j];
                    if before.dom().contains(kk) && server_model(before[kk].config_view()) == server_model(config@[kk]) {
                        fresh@[kk] == before[kk]
                    } else {
                        fresh_server(fresh@[kk], config@[kk])
                    }
                } by {
                    if j < i {
                        assert(ids[j] != k);
                        assert(fresh@[ids[j]] == fresh_before[ids[j]]);
                    }
                }
                assert forall|kk: Seq<char>| #[trigger] old_map@.dom().contains(kk) <==> before.dom().contains(kk) && !ids.take(i + 1).contains(kk) by {
                    if kk == k {
                        assert(ids.take(i + 1)[i as int] == k);
                    } else {
                        if ids.take(i + 1).contains(kk) {
                            let j = ids.take(i + 1).index_of(kk);
                            if j < i {
                                assert(ids.take(i as int)[j] == kk);
                            }
                        }
                        if ids.take(i as int).contains(kk) {
                            let j = ids.take(i as int).index_of(kk);
                            assert(ids.take(i + 1)[j] == kk);
                        }
                    }
                }
            }
        }
        proof {
            assert(ids.take(n as int) =~= ids);
            assert forall|k: Seq<char>| #[trigger] config@.dom().contains(k) implies if before.dom().contains(k)
                && server_model(before[k].config_view()) == server_model(config@[k]) {
                fresh@[k] == before[k]
            } else {
                fresh_server(fresh@[k], config@[k])
            } by {
                let j = ids.index_of(k);
                assert(ids[j] == k);
            }
        }
        self.servers = fresh;
    }

    /// One server.
    pub fn get(&self, id: &str) -> (r: Option<&McpServer>)
        ensures
            r matches Some(s) ==> self@.dom().contains(id@) && self@[id@] == *s,
            r is None ==> !self@.dom().contains(id@),
    {
        self.servers.get(id)
    }

    /// Takes a server out of the pool, so that its state can be updated.
    pub fn take(&mut self, id: &str) -> (r: Option<McpServer>)
        ensures
            r matches Some(s) ==> old(self)@.dom().contains(id@) && old(self)@[id@] == s,
            r is None ==> !old(self)@.dom().contains(id@),
            final(self)@ == old(self)@.remove(id@),
    {
        self.servers.remove(id)
    }

    /// Puts a server (back) into the pool, under its configuration's identifier.
    pub fn put(&mut self, server: McpServer)
        ensures
            final(self)@ == old(self)@.insert(server.config_view().id@, server),
    {
        let id = server.config().id.clone();
        self.servers.insert(id, server);
    }

    /// Every server's configuration and health, ordered by identifier.
    pub fn describe(&self) -> (r: Vec<(&McpServerConfig, &McpHealth)>)
        ensures
            r@.len() == self.ids().len(),
            self.ids().to_set() == self@.dom(),
            forall|i: int| 0 <= i < r@.len() ==> {
                &&& *(#[trigger] r@[i]).0 == self@[self.ids()[i]].config_view()
                &&& *r@[i].1 == self@[self.ids()[i]].health_view()
            },
    {
        self.servers.facts();
        let n = self.servers.len();
        let mut out: Vec<(&McpServerConfig, &McpHealth)> = Vec::new();
        for i in 0..n
            invariant
                n == self.servers.key_seq().len(),
                out@.len() == i,
                forall|j: int| 0 <= j < i ==> {
                    &&& *(#[trigger] out@[j]).0 == self@[self.ids()[j]].config_view()
                    &&& *out@[j].1 == self@[self.ids()[j]].health_view()
                },
        {
            let s = self.servers.value_at(i);
            out.push((s.config(), s.health()));
        }
        out
    }

    /// Identifiers of the servers an instance (or, without one, the node) may use, in
    /// ascending order: the node-wide switch and the instance's override must both allow them.
    pub fn usable_server_ids(&self, toggles: &ToggleStore, instance: Option<&BotInstance>) -> (r: Vec<String>)
        ensures
            strs(r@) == usable_ids(toggles@, match instance { Some(i) => Some(*i), None => None }, self.ids()),
    {
        let ghost inst = match instance { Some(i) => Some(*i), None => None::<BotInstance> };
        let ghost ks = self.ids();
        let n = self.servers.len();
        self.servers.facts();
        let mut out: Vec<String> = Vec::new();
        for i in 0..n
            invariant
                n == ks.len(),
                ks == self.ids(),
                inst == match instance { Some(i) => Some(*i), None => None::<BotInstance> },
                strs(out@) == usable_ids(toggles@, inst, ks.take(i as int)),
        {
            let id = self.servers.key_at(i);
            proof {
                assert(ks.take(i + 1).drop_last() =~= ks.take(i as int));
            }
            if server_usable(toggles, instance, id.as_str()) {
                out.push(id.clone());
                proof {
                    assert(strs(out@) =~= usable_ids(toggles@, inst, ks.take(i as int)).push(ks[i as int]));
                }
            }
        }
        assert(ks.take(n as int) =~= ks);
        out
    }
}

/// Schema version of the persisted document.
pub fn default_version() -> (r: u32)
    ensures
        r == 1,
{
    1
}

} // verus!
