# llang

A compiler front end for a small C-like language (`i32`, `i16`, `i8`, `bool`,
pointers, structs, functions, `if`/`while`/`for`, inline assembly), written in
Verus. Every stage is stated as a function on values and the executable code is
proved to compute it.

## Layout

- `src/lexer` — characters to tokens. `spec_tokenize` is the meaning of the
  lexer; `Lexer::tokenize` returns exactly its tokens or its error.
- `src/parser` — tokens to statements. `grammar.rs` states the grammar as
  functions from a token list and a parsing state to what is parsed;
  `Parser::parse` returns a program exactly when the grammar accepts the
  tokens. `labels.rs` proves that generated labels never repeat and are
  numbered consecutively from the parser's starting count.
- `src/semantic` — scopes, symbols and warnings. `model.rs` states what the
  analysis does to its state (scope table, current scope, next symbol
  number, warnings) for each expression, statement and program;
  `Analyzer::analyze` returns exactly the model's result or error.
- `src/ir` — translation to intermediate code. `translate.rs` states the
  instructions produced for each expression, statement and function;
  `IrGenerator::generate` produces exactly those.
- `src/codegen/allocator.rs` — stack slot allocation; every item owns a
  region of the frame that overlaps no other item's.
- `src/compiler.rs` — the stages together: `Compiler::new` relates its result
  to the sources through lexing, parsing, analysis and translation.
- `app/` — the command-line program: argument handling, file I/O, timing and
  printing around the library.
- `tests/` — tests of each stage on concrete programs.
