# codeai

A code index for agents: it parses source files into blocks (functions,
classes, methods and the like), gives each block a stable symbol id, and
answers `index`, `search`, `outline`, `open`, `graph` and `project`
requests in a compact JSON form.

The library in `src/` is written in Verus. Its functions carry `requires`
and `ensures` contracts over spec functions, and Verus proves them:

- `lang`, `models`, `store`: language configurations, ranges, block kinds,
  symbol ids (with their round-trip laws) and the rows the index keeps.
- `syntax`, `parser`: a tree-sitter parse copied into a tree of plain
  values, block and import extraction over it, and import resolution.
- `scanner`, `autoreindex`: which files a scan takes and when an indexed
  file is stale.
- `commands/`: the decisions of each command: which files to (re)index,
  git change plans, outline selection, byte-budgeted batches, range
  arguments, stale symbol ids, the import graph and project analysis.
- `text`, `num`, `order`: character-sequence, number and ordering
  operations with their lemmas.

Calls into tree-sitter, xxhash and serde_json, and the few std functions
that vstd does not specify, go through small trusted wrappers whose
contracts state what those functions document.

`app/` is the command-line program around the library: argument parsing,
file and git I/O, the SQLite store and the tantivy full-text index. `tests/`
holds the tests, run against the compiled library.
