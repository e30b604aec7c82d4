# wm_core

The core of a wiki/memory server for coding agents, written in Verus.

- `src/` is the verified library. Each public function states in its
  contract what it returns or changes; the laws of the library (status
  transitions, vector-file round trips, shortest paths and distances in the
  page graph, coalescing of debounced rebuilds, ...) are public proof
  functions or `ensures` clauses.
- The page graph is petgraph's `StableGraph`, held privately in
  `PageGraph`, whose well-formedness is a type invariant; its contents are
  named by `stable_graph_slots`, and each petgraph method the library calls
  has a trusted wrapper stating what it does to them.
- Other calls into outside crates (`regex`, `sha2`, `chrono`, `tree-sitter`
  and its grammars, and a few `std` items that vstd does not specify) sit
  behind trusted wrappers whose doc comments say what is assumed of them:
  the call and a one-for-one conversion of its arguments and result.
- YAML front matter is edited in verified code over the library's own
  `YamlValue`; turning text into a `YamlValue` and back is done by a reader
  and a writer that the caller hands in (`app/` passes `serde_yaml`), and
  the edits are exact in terms of what they return, for any reader and
  writer that give equal results for equal arguments.
- `app/` is the thin layer around the library: file and terminal I/O, the
  clock, the stdio JSON-RPC loop, the tool handlers that read and write the
  wiki and hand the library plain values, JSON and YAML conversion with
  `serde`, and the floating-point search scoring.
- `tests/` exercises the library from outside.
