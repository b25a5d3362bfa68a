# risc_v_compiler

The front end of a toy compiler for a small imperative language (functions over `int`, `let`,
assignment, `if` / `elif` / `else`, `while`, calls, `+ - == >`), written in Verus and proved
correct against a mathematical model.

## Layout

- `src/token.rs`: tokens, syntax tokens with their source spans, locations and their printed
  forms.
- `src/text.rs`: decimal printing of numbers.
- `src/scanner.rs`: the scanner. `lex_from` states, as a function of the source characters,
  which tokens a text holds or at which character scanning fails; `Scanner::scan` is proved to
  return exactly those tokens, with keywords told apart and each token located by byte offset,
  line and column.
- `src/ast.rs`: the syntax tree, its model (`*M` types) and its printed form (`*_text`), with
  `to_string` methods proved to print exactly that form.
- `src/parser.rs`: the recursive-descent parser. The `sp_*` functions state the grammar over
  the token sequence; each `parse_*` method is proved to return the construct the grammar
  gives, or the first token that does not fit.
- `src/laws.rs`: properties across the modules: a scan's tokens are fit for the parser, each is
  written as the source text it was read from and spans the bytes that spell it, the end of
  input is located by the source's bytes, newlines and last line, and printing a parsed
  program gives its tokens with one space between each two.
- `tests/`: the scanner and parser tests, and tests of the properties above on concrete inputs.
