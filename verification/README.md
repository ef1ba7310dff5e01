# giulia

A lexer, parser and tree-walking interpreter for GCRL, the agent language of
the Giulia cognitive runtime, written in Verus and verified against
mathematical models of each stage.

Layout of `src/`:

- `ast` — the syntax tree and its model (`Spec*` types, views).
- `token`, `lexer` — tokens, lexing errors, and `lex`, proved to compute
  `lex_text`, a specification of tokenisation over the source characters.
- `parser` — `parse` and `Parser`, proved to compute `parse_tokens`, a
  recursive-descent specification of the grammar with error recovery;
  f-strings are split into text and expressions, each expression lexed and
  parsed on tokens of its own.
- `value`, `ops`, `env` — runtime values, operators and the scope stack.
- `semantics` — a big-step, fuel-indexed semantics of programs.
- `interp` — the interpreter, proved to follow `semantics`; `run` returns the
  printed lines and the outcome.
- `laws` — properties of the library stated and proved as proof functions.
- `positions` — where tokens stand: for ASCII text, the line and column the
  lexer gives a token are those `line_col` computes for its offset.
- `text` — building strings: numerals, joins.

Floating-point arithmetic is not done inside the library: the interpreter
hands each float operation, as a `FloatRequest` on IEEE-754 bit patterns, to
a function supplied by its caller, and its contracts speak of that function's
answers.  `app/main.rs` is the command-line front end (`repl`, `check`, `run`),
which supplies that function on `f64`.
