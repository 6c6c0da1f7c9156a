# monty_compat

A verified library for release-aware Python lowering for the Monty
interpreter, with a thin command-line application around it.

- `src/` is the library, written in Verus and verified: checked source edits
  and the fixpoint over lowering passes, manifest capability indexes, the
  bounded least-recently-used transpilation cache, release selection and
  manifest checks, static capability extraction from Monty's sources (from a
  source tree or a ZIP archive), the wire JSON of the discovery workers, and
  the decisions and reports of behavioral discovery.
- `tests/` exercises the library on concrete values.
- `app/` is ordinary Rust: argument handling, file and network I/O, the
  JSON-lines worker processes, and serde forms of the library's values.

The Python rewrite engine that walks ruff's syntax tree, and the Monty
runtime that runs probes, are not part of this build; the library takes a
lowering as a function argument, and the application reports when a command
needs the runtime or the engine.
