# graphify

A code-knowledge-graph toolkit: it parses source files into nodes
(modules, classes, functions) and edges (contains, calls, imports), stores
the graph in a compact `.toon` text format or JSON, answers neighbourhood
and shortest-path queries, composes several workspaces into one graph, and
serves the graph to assistants over MCP.

## Layout

- `src/` — the library, verified with Verus. Every public function states
  its result in `ensures` over spec functions and views; the laws of the
  library are public proof functions next to the code they speak of
  (for instance `toon_laws::lemma_toon_roundtrip`,
  `toon::lemma_split_csv_fields`, `framing::lemma_read_encoded_frame`,
  `breaker::lemma_quarantine_follows_calls`, and
  `extract_laws::lemma_extraction_of_file`). Calls into outside crates
  (tree-sitter, petgraph, sha2, dirs, std text functions, the system clock) sit behind small
  trusted wrappers whose doc comments say what they claim.
- `tests/` — tests of the library from the outside.
- `app/` — the `graphify` program: the command line, file and terminal
  I/O, the MCP stdio server and its plugin subprocesses, and the terminal
  inspector. It reads, converts values between JSON/YAML/TOML and the
  library's types, calls the library for the decisions (which configuration
  file, which plugin tools are listed, how a legacy graph migrates, what a
  key press does), and writes.
