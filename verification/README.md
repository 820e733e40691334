# fup

FUP is a preprocessor for Scheme: it reads Scheme mixed with a few lighter
forms (infix operators, calls written `f(x, y)`, indexing `xs[1..3]`, list
literals `[1, 2]`, `define`, `let` and `cond` without nested parentheses) and
prints plain Scheme. The library is written in Verus; every parsing and
printing function carries a contract that states its result exactly, and the
proofs are checked by Verus.

## Layout

- `src/lexer.rs`: the tokens of the source text (parentheses, brackets,
  braces, commas, words, strings, quoted data; comments run from `;` to the
  end of the line), specified by `spec_lex` and computed by `lex`.
- `src/fup/syntax.rs`: the grammar as spec functions over the tokens.
  `spec_parse_input` is the meaning of a whole program: its tree, or the kind
  and position of the first error.
- `src/fup/*.rs`: the parser, one executable function per grammar rule, each
  proved equal to its rule; `parse_input_str` is the entry point.
- `src/grammar.rs`: the tree of Scheme code and its pretty printer
  (`fmt_scheme`, `fmt_scheme_top_level`, `scheme_text`); top-level trees
  are kept apart by a space unless the next one begins on a new line.
- `src/passthrough.rs`: the proof that printed Scheme parses back to the tree
  it was printed from.
- `src/layout.rs`: the proofs that the printer adds only line breaks and
  indentation, and one more indentation per line one level deeper.
- `src/fup/location.rs`: the line and column of an error position, and the
  error message shown to the user.
- `src/repl.rs`: the decisions of the interactive session (meta commands
  `,exit`, `,help`, `,mline`; buffering in multiline mode).
- `app/main.rs`: the command line program. With a file argument it prints
  the Scheme for that file; without one it runs the interactive session.

## Operators

From the loosest to the tightest: `++` (append), `:` (cons, groups to the
right), `||`, `&&`, the equalities `is` (eq?), `eqv` (eqv?), `==` (equal?)
and `=`, then `<=` `>=`, `<` `>`, `+` `-`, `*` `/` `%`, so that
`1 + 2 == 3` is `(equal? (+ 1 2) 3)`. All but `:` group to the left. Inside a
Scheme expression operator words are plain atoms; braces `{ ... }` open a FUP
expression there.
