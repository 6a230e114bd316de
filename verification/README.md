# smart_diff

A structural code-diffing toolkit whose decision logic is verified with Verus.

- `src/` — the verified library: string distances, greedy and optimal
  matching, change classification and impact, class hierarchies, AST
  metrics, refactoring grouping, file relocation, symbol migration, the
  order of strings and context hashes of the dependency graph, the
  command line's filters and escaping, and the Binary Ninja MCP client's
  handling of replies.  Every public function carries a `requires`/`ensures`
  contract; the public proof functions state the library's laws.
- `tests/` — executable tests of the library.
- `app/` — the `smart-diff` command line: argument parsing, files, HTTP,
  terminal output, and the similarity scores (function matching, refactoring
  patterns, file and cross-file moves, splits and merges), which are computed
  in floating point.
