# lustc

A compiler from a subset of Lean 4 to Rust source code, written in Verus.
The front end and back end are a verified library; a thin command-line
program drives it.

```
Lean 4 source → Lexer → Tokens → Parser → AST → Resolver → TypeChecker → CodeGen → Rust source
```

## Layout

- `src/` — the verified library.
  - `text.rs`, `token.rs`, `error.rs`: characters and strings, tokens and
    their `Debug` forms, errors and their rendering with source lines.
  - `lexer.rs`: source text to tokens. `lex_step` is the lexer's step as a
    spec function (layout tokens from indentation included); `tokenize`
    returns exactly the tokens those steps give, or the error they stop at.
  - `grammar.rs`: the grammar as spec functions over lexemes, from types and
    patterns up to whole programs with error recovery.
  - `parser.rs`: recursive descent; every parsing function returns what the
    grammar gives, tree and position or error and position.
  - `ast.rs`: the syntax tree and its models (names as character sequences).
  - `resolver.rs`: name resolution; the errors reported are exactly the
    unresolved names, in order.
  - `typechecker.rs`: type inference and checking; the errors reported are
    exactly the mismatches found.
  - `codegen.rs`: Rust code generation, with dead-code elimination; the
    output is exactly `program_code` of the program.
  - `driver.rs`: the whole pipeline.
  - `loader.rs`: multi-file programs as a state machine that asks its caller
    for files; imports become namespaces, circular imports are refused.
- `app/` — the command-line program: files, `rustfmt`, printing.
- `tests/` — tests of the library.

## Trusted items

`String::push` and the Unicode predicates `char::is_alphabetic`,
`char::is_alphanumeric` and `char::is_uppercase` are called through wrappers
in `text.rs` whose contracts are assumed.
