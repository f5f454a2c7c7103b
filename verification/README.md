# dubious

The front end of a compiler for the Dubious programming language (DPL),
written in Verus: each stage states what it does in `requires` / `ensures`
contracts, and Verus proves them.

- `src/preprocessor.rs`: `#include`, `#define`, `#ifdef`, namespaces and
  comments, over a description of the files (`Sources`) that the caller
  fills in; the directives are recognised with the `regex` crate. What a
  successful run writes is specified step by step for the whole file
  (`preprocessed`, `scan`).
- `src/lexer.rs`: the text to tokens, specified exactly by `spec_lex`; text
  before any `// <file>` line belongs to the file with no name, from line 1.
- `src/ast_build.rs`: tokens to the syntax tree; the grammar of types,
  constants, structs and enums is specified exactly; the level at which each
  operator binds (a type cast just above the assignments) is proved, and the
  declarations of each namespace are tied to the tokens that declare them.
- `src/logic_checker.rs`: declarations, scopes and the typing rules; the
  program is merged into one namespace.
- `src/shared.rs`, `src/names.rs`, `src/text.rs`, `src/pattern.rs`,
  `src/immutable_map.rs`: types, name tables, text helpers, regular
  expressions and a map that never overwrites.
- `app/`: the command line program (reading files, printing tokens and the
  tree, reporting errors).
- `tests/`: tests of each stage.
