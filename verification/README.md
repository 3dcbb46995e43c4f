# skan_uj_kod

Static analysis of Go code, verified with Verus.

The library (`src/`) reads Go source into syntax trees and builds control
flow graphs from them. It computes cyclomatic and cognitive complexity,
inserts branch-coverage recording into Go source and counts the branches a
test run recorded. It also exports graphs as DOT text and orders analysis
functions by their dependencies. Each public function states its behaviour
in `requires`/`ensures` clauses, and laws that relate several functions
are proof functions (`lemma_*`).

- `token`, `scanner`, `parser`, `ast`, `span`, `span_end`, `position`,
  `errors`, `scope`, `visitor`: the Go front end.
- `cfg` (with `builder`, `optimization`, `validation`) and `cfg_plugin`: the
  two graph builders, and their DOT export (`export`, `cfg_plugin::export`).
- `complexity`: complexity figures per function and summed up per project.
- `branch_cov`: branch discovery, source instrumentation, coverage counting.
- `project`: which files are parsed, parsing several sources into one file set.
- `kernel`: the dependency graph of analysis functions and their order.

`app/` holds what Verus does not check: the command-line program, file and
process I/O (walking directories, running `go test`) and the floating-point
percentages and averages.

`tests/` holds the tests, run with the real crates linked.
