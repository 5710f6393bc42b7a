# lib

A lexer and a Pratt expression parser for a small scripting language, verified with Verus.

- `src/token.rs` — tokens, keywords and symbols, and the value of a token.
- `src/grammar.rs` — the lexical grammar as specifications over the input
  characters (blanks and comments, runs, numbers, symbols, lines and columns),
  with the lemmas about it.
- `src/lexer.rs` — the lexer, whose `next_token` is proved to read exactly what
  `next_token_spec` says, and the stream of tokens (`next`, `collect_results`).
- `src/ast.rs` — the syntax tree.
- `src/parser.rs` — the parser, whose expressions are proved to be those of
  `parse_expr`.
- `app/main.rs` — reads a file, prints its tokens and parses one expression.
