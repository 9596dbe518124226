# ferro

A compiler for Ferro, a small statically typed language, with every phase
specified and verified in Verus.

- `src/lexer/`: source text to tokens; the token stream is a function of the
  text (`lex_from`).
- `src/parser/`: tokens to a syntax tree; `grammar.rs` states the grammar as
  spec functions that give, for each position, the tree or the error.
- `src/ast/`: the syntax tree and its printer.
- `src/sema/`: the type checker; `rules.rs` states the typing rules and
  `check_program` succeeds exactly on programs that follow them; `faults.rs`
  states which error (message and span) it reports for a program that does
  not: the first rule broken, in the order the checker visits the program.
- `src/codegen/`: x86-64 assembly (AT&T syntax, Windows calling convention);
  `model.rs` states when generation succeeds, the frames it lays out, the
  code of arithmetic expressions and of the runtime helpers, and the shape
  of each statement's code (`stmt_text_ok`): control flow, loops with their
  `break` and `continue` targets, `match` arms, returns that run deferred
  expressions last-first, calls and `print`.
- `src/diagnostics.rs`: the JSON diagnostics of `ferro check` and the
  decisions of the language server (`lsp_handle`), with the small JSON reader
  they use.
- `src/modules.rs`: the import resolver, which decides which file to read
  next and how the files' items are merged.
- `app/main.rs`: the `ferro` command (`compile`, `check`, `lsp`): files,
  standard streams and `gcc`.
- `tests/`: tests of each phase.
