# houndlens

A code verification engine for Rust, TypeScript/JavaScript and Python
projects. It parses source files into a language-neutral semantic graph of
functions, types, modules and the calls between them. It links calls across
files and uses the graph to answer questions about a change: what it affects,
which conventions it may break, which functions lack tests, and how risky it
is. The engine is written and proved in Verus.

## Layout

- `src/` is the verified library.
  - `syntax`, `extract`, `pyparse`, `rsparse`, `tsparse`: read the trees that
    tree-sitter gives and turn them into graph nodes and edges.
  - `graph`, `store`, `linker`, `impact`: the semantic graph, cross-file
    linking, and impact analysis.
  - `discovery`, `rules`, `contract`: invariant discovery.
  - `diff`, `pipeline`, `verify`, `report`, `tool_runner`: the semantic diff
    and the verification of a change.
  - `snapshot`, `snapshot_build`, `summary`, `status`: what the analysis
    writes for AI agents and shows on the dashboard.
  - `fixgen`, `fixflow`, `ai`: test generation and the fix loop.
  - `engine`, `index`, `storage`, `config`: indexing a project.
- `app/` is the command line around the library. It walks files, runs git
  and the project's tools, reads and writes files, and prints.
- `tests/` holds the tests.

Each public function states its result in its contract. The properties that
span several calls are public proof functions whose names begin with `law_`.
