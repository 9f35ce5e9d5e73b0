# sephera

Line counting, LLM context packs and import graphs for source trees, with the
logic verified by Verus.

- `src/` is the verified library. `code_loc` counts code, comment and empty
  lines per language and sums them into a report; `context` classifies, ranks
  and excerpts files into a context pack within a token budget and renders it
  as Markdown; `graph` extracts imports (through tree-sitter), resolves them to
  files, selects the part of the graph asked for and computes its metrics and
  renderings; `runtime` plans sources (local paths, repository and tree URLs),
  reads token budgets, layers `.sephera.toml` options and turns Git output into
  the changed files of a pack; `output` renders tables, timings and profile
  lists.
- Calls into outside crates (tree-sitter, url, regex, globset, comfy-table)
  stand behind small trusted wrappers whose contracts say what those crates
  document.
- `app/` is the `sephera` command: argument parsing with clap, file-system
  walks, Git processes, TOML and JSON through serde, and terminal progress.
- `tests/` exercises the library on concrete values.
