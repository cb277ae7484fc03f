# cortex

A local code context engine: it parses source files with tree-sitter, keeps
their symbols and imports in a per-project SQLite index, and answers queries
about them over MCP.

Layout:

- `src/` — the library, verified with Verus: the language parsers (over a flat
  preorder view of the tree-sitter tree), the indexing decisions, the queries
  (lookup, references, content search, imports), the MCP tools' request checks
  and answers, report storage and synthesis, the file cache, staleness checks,
  the watcher's debounce, the project registry and the self-update rules.
- `app/` — the `cortex` program: the command line, the SQLite queries, the
  directory walk, the MCP transport, the file watcher loop and the download.
- `tests/` — tests of the library on concrete inputs.
