# txt-to-json

A compiler for a strict, line-oriented contract language, verified with Verus.

```text
section: meta
contract: calibration
version: v1

section: formula
confidence = confidence * (1 - prediction_error)

section: invariant
confidence in [0,1]

section: pipeline
op confidence_update
```

## Commands

- `txt-to-json compile <path>` writes the compiled contract to `./вывод.json`
  in the current working directory.
- `txt-to-json validate <path>` parses and validates the input and writes nothing.
- `txt-to-json print-ast <path>` prints the parsed document, with each formula's
  right-hand side as an expression tree, as JSON.

Errors go to stderr as JSON objects with `kind`, `message` and `line`.

## Layout

- `src/` is the verified library.
  - `chars.rs`: character classes, scanning, trimming, decimal text, the
    order of strings.
  - `lexer.rs`, `number.rs`: classification of single lines and number syntax.
  - `expr.rs`: the expression grammar, its tokens and syntax trees.
  - `parser.rs`: documents into `DocumentAst`.
  - `validator.rs`: the rules a document must meet; `builder.rs`: the contract.
  - `ast.rs`, `error.rs`: the syntax tree, the contract, errors and reports.
  - `laws.rs`: properties of the compiler as a whole.
- `app/` is the command line: file I/O, JSON output with serde, and the
  reading of numeric bounds as floating-point values.
- `tests/` exercises the library on concrete inputs.
