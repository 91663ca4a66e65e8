# hulk

A front end for the HULK language — lexer, parser, semantic checker — and the
parts of its interpreter that do not compute with floating point, written in
Verus and proved against their contracts.

## Layout

- `src/lexer` — the scanner. `tokenize` gives the tokens that successive
  scanning steps read from the start of the source (whitespace and `//`
  comments skipped, longest identifiers, numbers and two-character operators),
  or the first lexical error. `laws.rs` proves that a source is scanned one
  way only: each step reads the same token or fails with the same error, a
  source that scans has no lexical error, and each token is the slice of the
  source's UTF-8 bytes that its span gives.
- `src/parse` — the recursive-descent parser. `grammar.rs` and
  `program_grammar.rs` state the grammar as spec functions from a token
  sequence and a position to a syntax tree (seen through views whose lists are
  sequences) and the position after it, or the error; every parsing method is
  proved to compute exactly that. `laws.rs` states operator precedence and
  associativity and how a program's entry is formed from its top-level
  expressions.
- `src/sema` — the semantic checker: declarations, class tables, inheritance
  cycles, subtyping and the type rules of expressions, with the list of errors
  each pass reports stated in full. `laws.rs` holds the properties of the
  type order (reflexivity, the join's bounds, class chains, cycle detection).
- `src/interp` — what the interpreter needs that is not arithmetic on numbers:
  class lookup, macro expansion by substitution, the call-depth and index
  checks, the random-number generator's integer state.
- `src/env.rs` — scoped environments, with their lookup laws.
- `src/cli.rs` — the analysis the command line runs (exit code and
  diagnostics) and base64 encoding.
- `src/mini` — a small typed expression language with its own lexer, parser
  and checker.
- `app/` — the command-line program and the evaluator, whose values are
  floating-point numbers.
- `tests/` — the test suite.
