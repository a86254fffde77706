# haven_core

The rules of Haven, a local-first backlog store for humans and AI agents, as a
Verus-verified library: every function in `src/` carries a `requires`/`ensures`
contract that Verus proves, and the laws that span functions are public proof
functions.

## Layout

- `src/` — the verified library.
  - `model`, `error`, `text`, `words`, `json`, `time`, `util`: the value types,
    the error taxonomy, string and JSON text building, the civil calendar and
    UTC stamps, hashing.
  - `item`, `edge`, `evolve`, `import`, `project`: the rules that hold before a
    row is written (title normalization, the ready-requires-acceptance guard,
    edge cycle and container rules, evolve forwarding, batch imports, the
    project lifecycle).
  - `query`, `views`, `prime`, `lookup`: the dispatch queue and its
    explanation, container rollups, graph pages, list queries, the agent
    primer, and the hints of a failed lookup.
  - `artifact`, `content`, `xref_report`: artifact requests and selection,
    context packs, integrity findings and cross-reference reports.
  - `backup`: snapshot naming and rotation, self-validating manifests, the
    content-addressed objects (hashing, compression, the intact check), the
    snapshot report, the restore order and the store lock's decisions.
  - `telemetry`: the one-line telemetry record.
- `tests/` — tests of the library on concrete values.
- `app/` — plain Rust around the library: the files of the backup store
  (objects, manifests, snapshots, restore, the lock), artifact files, SQLite
  drivers for the graph, items and projects, wire forms with serde, and
  telemetry output.
