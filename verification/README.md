# ts_doc

Documentation extraction for TypeScript modules and the decisions of a
Storybook CSF transform, verified with Verus.

## Layout

- `src/` — the verified library.
  - `text.rs`, `indexed.rs`: character-level text helpers; the `indexmap`
    maps and sets the library uses, behind trusted wrappers.
  - `jsdoc.rs`: JSDoc comment parsing.
  - `ty.rs`, `parse.rs`: the per-module type model (an arena of types) and
    the state kept while reading a module.
  - `ast.rs`, `reader.rs`, `values.rs`, `decls.rs`: the syntax a module is
    read from, held as plain values, and the reader of types, expressions,
    declarations and module items (`decls::parse_module`).
  - `packager/`: links and merges the module APIs of a bundle into one
    `{ exports, links }` artifact (`package`).
  - `paths.rs`, `mock.rs`, `fs_graph.rs`: path handling, an in-memory bundle
    graph, and the breadth-first builder of a graph of files.
  - `storybook.rs`, `csf.rs`: the Storybook CSF transform's decisions —
    stories, their sources and annotations, the meta object, the documented
    component, content hashes, and the React Refresh wrapper's plan.
- `tests/` — tests of the library.
- `app/` — the `ts-doc` program: parsing with swc, file access and module
  resolution, JSON output, and the CSF transform's syntax-tree rewriting.
