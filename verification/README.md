# hvm_lang_term

The term layer of the HVM language, verified with Verus: every function in
`src/` carries a contract that Verus proves.

- `src/term/mod.rs` — names, definition ids and their table, terms,
  patterns, rules, definitions and the program book.
- `src/term/view.rs` — the mathematical model of terms that the contracts
  speak of.
- `src/term/subst.rs`, `free_vars.rs`, `construct.rs`, `display.rs` —
  substitution, free variables, building calls and number matches, and the
  textual form of terms and programs.
- `src/term/check.rs` — the checks of a program (entry point, definitions
  that only refer to another).
- `src/term/parser/` — the lexer and the grammar of programs and terms.
- `src/net.rs`, `src/term/readback.rs`, `let_insertion.rs`, `resugar.rs`,
  `fix_names.rs`, `net_to_term.rs` — the readback of an interaction net into
  a term: reading ports, placing the lets of tuple nodes, resugaring
  datatype encodings and renaming binders.
- `src/term/renaming.rs`, `alpha.rs` — that renaming binders keeps the
  free variables of a term, and keeps the term the same up to the names of
  its bound variables.
- `src/collections.rs` — the contracts of the `indexmap` collections used.
- `app/` — `Display` forms and `anyhow` results around the library.
- `tests/` — tests of the library on concrete values.
