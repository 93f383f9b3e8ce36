# ecp_demo

The tool surface of a public, read-only web front for `ecp`: which of the
tools that `ecp admin mcp tools --format json` lists a visitor may call, the
schema a visitor sees of each, the argv a tool call becomes, and the guard
that refuses an argv carrying a server-owned flag.

- `src/` is the library, verified with Verus:
  - `json.rs`: the JSON values that tool lists and tool calls carry, their
    model, lookup, and their `{:?}` rendering;
  - `text.rs`: character-level helpers, kebab-case flag names, flag names
    as clap reads them;
  - `tools.rs`: the allowlist, the reserved args, `Tool`, `DemoTool`, the
    public schema and the selection of the demo's tools;
  - `argv.rs`: JSON arguments to argv, the router's discriminator, and the
    reserved-flag guard;
  - `spawn.rs`: which environment variables an `ecp` child inherits;
  - `laws.rs`: properties of the library as a whole, proved.
- `app/` holds what Verus does not see: spawning `ecp` (tokio), reading the
  environment, and the serde forms of the library's types.
- `tests/` runs the library on concrete values.
