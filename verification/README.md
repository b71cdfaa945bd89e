# tenda

Tenda is a small programming language with Portuguese keywords. This crate holds the parts
of its implementation that can be stated and proved with Verus:

- `src/source.rs`, `src/span.rs`, `src/token.rs`, `src/text.rs`: source identities, regions
  of source text, tokens and character classes.
- `src/lexer_spec.rs`, `src/scanner.rs`, `src/source_iter.rs`, `src/scanner_error.rs`,
  `src/lexer_laws.rs`: the scanner, specified by a spec-level lexer, and the laws of its
  output.
- `src/token_iter.rs`, `src/scope_tracker.rs`, `src/ast.rs`, `src/shape.rs`,
  `src/parser.rs`: the recursive-descent parser and the shape of the trees it builds
  (operator precedence, distinct parameters, where `retorna`, `para` and `continua` may
  stand, and identifiers that are never handed out twice), how every part of the tree is
  read from the tokens (`expr_read`, `stmt_in`, `program_cover`), success on every program of
  a grammar of statements over operator expressions (`program_ok`), the statements it owes for
  programs of simple lines, and the end-of-input error it owes for a block left open.
- `src/closures.rs`, `src/captures.rs`, `src/annotate.rs`: the analysis of the variables
  that functions capture, and the marking of the syntax tree with it.
- `src/environment.rs`, `src/store.rs`, `src/runtime.rs`, `src/interpreter.rs`,
  `src/value.rs`: environments, frames, stacks and modules of the runtime.
- `src/text_builtins.rs`, `src/date.rs`: the computations behind the `Texto`, `Lista` and
  `Data` modules that programs call; dates lean on `chrono` and `chrono-tz`.
- `src/reporting.rs`, `src/loader.rs`, `src/repl.rs`: diagnostics data, the order in which
  modules are loaded along their imports and the import cycles that stop it, and the
  completeness test of interactive input.

`app/main.rs` is the command-line program around the library: it reads a file, standard
input or interactive lines, scans and parses them, and prints the errors or the tree.
