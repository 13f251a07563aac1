# protobuf-mdbook

Turns protobuf descriptors and their comments into mdBook documentation (or a
Markdown-only tree). The generator is a Verus library: every module under `src/`
is verified against its `requires` / `ensures` contracts.

## Layout

- `src/options.rs`, `src/paths.rs` — plugin options (`--mdbook_opt` / `--opt`),
  their CLI form, and output paths.
- `src/descriptor.rs` — the descriptor fields that documentation is rendered from.
- `src/comments.rs`, `src/markdown.rs`, `src/fence.rs`, `src/proto_syntax.rs` —
  source comments, Markdown formatting, and protobuf source-style fences (with
  Protovalidate CEL rules split into `cel` fences).
- `src/links.rs`, `src/render.rs`, `src/summary.rs` — page paths, heading anchors,
  package / entity pages, and `SUMMARY.md`.
- `src/proto_markdown.rs` — companion `.md` files beside the protos.
- `src/init.rs`, `src/kvmap.rs` — the mdBook scaffold of `init`, syntax
  highlighting wiring, and the path-sorted file map.
- `src/generate.rs` — one generation, from descriptors to output files.
- `src/input.rs`, `src/include_paths.rs`, `src/cli.rs`, `src/runner.rs`,
  `src/proto_deps.rs` — resolving inputs, compiler command lines, the standalone
  command line, and the dependency export.
- `src/link_check.rs` — link and anchor checking of a generated tree.
- `src/link_targets.rs`, `src/output_paths.rs`, `src/anchors.rs` — where generated
  files land, that the pages links point to are among them, and that package pages
  carry the headings their anchors name.
- `src/xtask/` — repository tasks: check registry, toolchain pin, image builds,
  guided book runs, vendored grammar hashes.
- `app/` — the programs (`protoc-gen-mdbook`, `protobuf-mdbook`, tasks): standard
  input and output, files, processes, and descriptor decoding with buffa.
- `tests/` — scenarios run against the compiled library.

Laws the library proves are public proof functions named `law_*`.
