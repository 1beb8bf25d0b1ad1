# quizfold-parser

QuizFold Markdown — quizzes written as Markdown — parsed, printed, and
converted to a source-free document model, with every step specified and
proved in Verus.

```txt
? Capital of Japan?      a Q/A quiz: question, `---`, answer
---
${Tokyo}

! Japan's capital is ${Tokyo}.   a fold quiz: text with hidden answers

@memo                    a memo block: notes kept beside the content
Shown to the learner later.
@end
```

## Layout

- `src/lexer.rs` — line-oriented lexer over the UTF-8 bytes of a source;
  `src/lex_laws.rs` proves that line feeds are exactly the `Newline` tokens,
  that the tokens tile the source, that lines are cut at line breaks (one
  line per line feed, plus an unterminated last line), and that every token
  of well-formed text holds well-formed UTF-8, so parsed text is the decoded
  source.
- `src/parse/` — the parser: lines (`cursor.rs`), inlines (`inline.rs`),
  blocks and quizzes (`block.rs`), and the document (`mod.rs`). Parsing never
  fails; structural problems come back as diagnostics (`errors.rs`,
  `diagnostics.rs`) next to a best-effort tree (`ast.rs`). What a parse
  without diagnostics has built (`clean.rs`), how the reported image
  references follow the tree (`refs.rs`), and that every diagnostic points
  into the source (`ranges.rs`) are proved there too.
- `src/printer/` and `src/formatter.rs` — canonical QuizFold text of a tree.
- `src/model/` — the source-free model, its conversions to and from the tree
  (`convert.rs`), the numbering of blanks (`blanks.rs`), the round-trip laws between them (`laws.rs`), the
  conversion of every cleanly parsed source (`parsed.rs`), and the printing
  of restored trees (`printing.rs`).
- `src/tooling.rs`, `src/typings.rs` — decisions of the build tooling: target
  selection and tool checks, and the repair of generated TypeScript
  declarations.
- `src/text.rs` — byte-level text helpers and the one call into std that
  decodes UTF-8.
- `app/main.rs` — the `quizfold` command-line program (`validate`, `preview`);
  run under the name `xtask` it does the repository automation of
  `app/xtask.rs` (building the command-line program and the wasm package,
  checking the build tools), acting on the decisions of `src/tooling.rs` and
  `src/typings.rs`.

Each executable function states its result exactly in terms of a
specification function over views (`@`); the parser's specification is a
grammar written as recursive spec functions from lines and tokens to
syntax-tree views.
