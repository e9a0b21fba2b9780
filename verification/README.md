# parsiphae

A lexer, parser and typechecker for Daedalus, the scripting language of the Gothic games,
written in Verus. Every function of the library carries a contract that Verus proves, except
eight small wrappers around standard library and codespan-reporting calls, whose contracts are
trusted: `printable` (`String::from_utf8_lossy`), `to_upper` (`str::to_uppercase`),
`escape_line_breaks` (`str::replace`), `quoted` (`Debug` of `str`), `concat` (`format!` of two
texts), `lines_of` (`str::lines`), `trim` (`str::trim`) and `line_starts_of`
(`codespan_reporting::files::line_starts`).

## Layout

- `src/lexer.rs` — bytes to tokens, specified by `spec_lex`; a successful run ends with one
  `EOF` token and its spans lie in order.
- `src/parser/` — tokens to declarations. Each method states the grammar it follows
  (`g_*` spec functions) and what it returns for every input.
- `src/parsers/` — the byte-level combinators of the earlier parser (whitespace, string
  literals, identifiers, unary expressions).
- `src/types.rs` — the syntax tree and its mathematical view.
- `src/ppa/` — symbol collection, symbol lookup and the typechecker; the typing rules are the
  spec functions of `rules.rs`, and each check reports exactly the errors they give.
- `src/src_parser.rs`, `src/file/db.rs`, `src/dat.rs` — `.src` file lists, line arithmetic
  for diagnostics, and the compiled `.DAT` format.
- `app/` — the command line program: arguments, file and directory access, and the output
  on the terminal or as JSON.
