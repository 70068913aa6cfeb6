# dippin_parser

A parser for the Dippin workflow language, an exporter of its workflows to
Graphviz DOT, and the text-mode pieces of a DOT viewer (reading Graphviz
`plain` output and drawing boxes and edges on a character grid). The library
is written in Verus: each public function states what it returns in its
`ensures`, and Verus proves it.

## Layout

- `src/` — the verified library.
  - `lexer.rs`: indentation-aware tokens, with the whole token stream stated
    as a function of the source.
  - `parser.rs`, `reading.rs`, `diagnosing.rs`: the parser; `reading.rs`
    states what a source reads as, `diagnosing.rs` which diagnostics it gets.
  - `validate.rs`: reference checks on a workflow.
  - `export_dot.rs`: DOT output.
  - `duration.rs`: Go-style durations (`1h30m`, `500ms`) held as whole
    nanoseconds.
  - `dot_core.rs`: the conversion entry point and the layout engines.
  - `plain.rs`, `render.rs`: Graphviz `plain` records and the character grid.
  - `ir.rs`, `error.rs`, `text.rs`: the workflow types, diagnostics, and text
    helpers.
- `tests/` — tests run against the compiled library.
- `app/` — the command-line viewer: argument handling, file I/O, calls into
  the Graphviz C library, and the floating-point layout arithmetic.
