# calcu

An engineering calculator whose expression reader and front-end state are
verified with Verus.

- `src/` — the verified library:
  - `text.rs`: character classes and the std text operations used;
  - `token.rs`: tokens and the tokenizer, with its grammar as spec functions;
  - `error.rs`: reading errors and their messages;
  - `expr.rs`: expression trees, constant and function names;
  - `grammar.rs`: the recursive-descent grammar (precedence, grouping);
  - `written.rs`: writing an expression back as text, and reading it again;
  - `eval.rs`: the reader (`Eval::parse_expr`);
  - `calculator.rs`: the calculator state and its keys.
- `app/` — the egui front end and the floating-point evaluation of trees.
- `tests/` — tests of the library.
