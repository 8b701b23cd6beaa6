# mcdp_language

The MCDPL language front end and the logic of its language server, written
in Verus: every function in `src/` is proved against its contract.

- `src/` — the verified library: lexing and document-shape recovery
  (`syntax`), expressions and units (`expression`, `units`, `agreement`),
  lowering and duplicate detection (`semantic`, `declaration`, `graph`,
  `poset`), positions (`line_index`), completion, semantic tokens, the
  symbols of a document (`symbols`, `lookup`) and of a project (`project`),
  and editor diagnostics (`editor`).
- `tests/` — the test suite, run against the compiled library.
- `app/` — the stdio language server: protocol plumbing, file reading and
  conversion to LSP types, around the library.
