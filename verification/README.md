# cleanroom

The verified core of an agent system that analyses source repositories into
S.DEF specifications and regenerates code from them. The functions under
`src/` carry Verus contracts and are proved against them, except the small
trusted wrappers (marked `#[verifier::external_body]`) through which the
library calls sha2, uuid, chrono, serde_json, regex-lite and parts of std;
their contracts are believed, not proved, and some state nothing of a
result that depends on the clock, chance or the file system. `src/` probes
the file system in one place, to tell which manifest files a directory
holds; `app/` is the command-line program around the library (argument
parsing, terminal and file I/O, processes, clocks and floating-point
formatting).

## Layout

- `src/text.rs` — string helpers with specifications (joining, trimming,
  lines, replacing, decimal rendering, lexicographic order).
- `src/prompt/` — system and task prompts, the token budget and context
  fitting, few-shot example management, the prompt builder, tool
  orchestration hints and LLM response clean-up.
- `src/codegen/` — Python, TypeScript and Rust stubs for data models,
  interfaces, classes and functions; `src/migration_gen.rs` for data
  migrations; `src/naming.rs` for naming conventions.
- `src/collaboration/` — agent messages, conflict detection and resolution,
  health monitoring.
- `src/consistency.rs`, `src/incremental_analysis.rs` — three-way hash
  consistency and incremental re-analysis.
- `src/dependency_graph.rs`, `src/module_partitioner.rs`,
  `src/degradation.rs` — module graphs, partitioning and degraded modes.
- `src/lsp.rs`, `src/lsp_pool.rs` — JSON-RPC framing and the language
  server pool's decisions.
- `src/i18n.rs`, `src/retry.rs`, `src/interaction.rs`, `src/cli.rs`,
  `src/mcp.rs`, `src/workflow_signal.rs`, `src/progress.rs`,
  `src/completeness.rs`, the
  validation-agent decisions and the configuration records.

Laws that span several functions are public proof functions next to the
code they speak of (names starting with `lemma_`).
