# anpai

A FEEL (Friendly Enough Expression Language) toolchain, verified with Verus.

- `src/script/`: the script interpreter: a lexer (`token`), a syntax tree
  (`ast`), the grammar as spec functions (`grammar`) and the parser proved
  against it (`parse`), values (`value`), the meaning of evaluation as spec
  functions (`semantics`), the interpreter proved against it (`eval`), and
  laws of evaluation (`laws`).
- `src/scan.rs`, `src/lexing.rs`, `src/position.rs`: the tokenizer of the
  FEEL language crate, with text positions in characters, lines and columns.
- `src/ast.rs`, `src/parse.rs`, `src/eval.rs`, `src/values.rs`: syntax
  trees, and parse and evaluation errors of the FEEL language crate.
- `src/prelude.rs`: the built-in list and string functions, over lists of
  any item type, and their index arithmetic.
- `src/temporal.rs`: dates, times and durations, read with `iso8601`, and
  date arithmetic; `src/range.rs`: ranges, their positions, and the
  built-in range functions.
- `src/xml.rs`: XML documents as plain trees, read with `sxd_document`;
  `src/dmn_read.rs`: reading a DMN diagram out of such a tree, with the
  reading stated as spec functions and the reader proved against them.
- `src/engine.rs`: the variable scopes of the FEEL evaluation engine,
  with what a lookup gives back after a binding proved.
- `src/dmn.rs`: the DMN diagram model and its errors; `src/decision.rs`:
  the hit policies of a decision table (`FIRST`, `UNIQUE`, `ANY`,
  `COLLECT`, `PRIORITY`) over what each rule gave.
- `src/helpers.rs`, `src/text.rs`: escaping, formatting and text helpers.
- `src/commands.rs`: what the command line tool prints for a script.
- `app/main.rs`: the command line tool: arguments, reading files or standard
  input, printing.
