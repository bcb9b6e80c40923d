# tool-first

A local runtime core for tool-first agents: before writing incidental code, an
agent asks which installed tool already does the job. The decisions are a
library verified with Verus; the command-line program and the MCP server around
it do the file, process and environment work.

## Layout

- `src/` — the verified library (`tool_first`)
  - `routing.rs` — which tasks are in scope and which category they need
  - `registry.rs` — the tool registry, task matching and the ordered query;
    where the registry file is looked for
  - `detect.rs` — which tools to detect, where to look, version output,
    availability records and the `PATH` fingerprint
  - `advice.rs` — the three advice steps (route and pick candidates; recommend
    a detected tool; recommend after recall)
  - `file_store.rs` — record tokens, scoring and ranked recall, record file
    names, which files hold records
  - `memory.rs` — memory records and their enrichment
  - `resolver.rs` — the memory home: priorities, `~` expansion, markers,
    redirects and conflicting candidates
  - `config.rs` — configuration and where its file is looked for
  - `mcp.rs` — routing of MCP requests
  - `order.rs`, `text.rs` — stable insertion sort and character-level text
    helpers with their lemmas
- `tests/` — tests of the library
- `app/` — the `tool-first` program: CLI, MCP stdio server, and the I/O the
  library leaves to its caller (reading YAML/JSON, the file store, running
  `which` and version commands)
