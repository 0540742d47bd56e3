# kanon

The verified core of Kanon, a microkernel chat-bot node whose plugins run as separate host
processes, and of its plugin developer toolchain (`kanon-dev`).

`src/` is a Verus library whose functions carry `requires`/`ensures` contracts that Verus
proves, over mathematical models (`Seq`, `Map`, views) of the data; the few functions that only
read a clock promise nothing about the reading, and the logic that consumes a reading is stated
for every value of it. The library holds the logic of the node:

- `supervisor`: the registry of plugin hosts, launch plans and restart recipes,
  compare-and-swap configuration versions, adapter routing and the adapter catalog, host
  readiness and shutdown decisions, and each host's adaptive circuit breaker
  (`supervisor::circuit_breaker`);
- `pipeline`: slash-command parsing and routing, the pre-filter chain's scheduling and
  decisions, lifecycle stages, and dead-letter records and file naming;
- `instance`: bot instances, their adapter ownership (no platform is claimed by two enabled
  instances), session rotation and generated personas;
- `toggle`, `plugin_state`: node-wide enable switches;
- `mcp`: MCP server configuration, validation, naming, health, the server pool and the
  JSON-RPC messages;
- `skill`: skill identifiers, `SKILL.md` summaries, the catalog and the `read_skill` tool;
- `ipc`, `adapter`, `manifest`, `message`, `json`: the core's service answers, built-in adapter
  registry, manifests and plugin discovery order, wire messages and JSON values;
- `dev`: the toolchain's rules (manifest lint, packaging selection and checksum, scaffolding
  names, sandbox input);
- `text`, `order`, `string_map`, `clock`: strings, stable ordering, an ordered string-keyed
  map, and clock readings.

Calls into other crates (`ring` for SHA-256, the clocks, Unicode case mapping and character
classes) go through a few trusted wrappers whose contracts are documented where they stand.

`app/` is the `kanon-dev` command line and the file and process I/O around the library:
reading manifests, writing bundles and projects, persisting documents, stopping host processes
and the stdio transport of MCP servers.

`tests/` exercises the library on concrete values.
