# Zircon

Language tooling for [Crystal](https://crystal-lang.org): the logic of a language server (go to
definition, hover, completion, outline, workspace search, diagnostics) and of its editor extension
(slash commands, getting the server's binary).

- `src/` is the library. It is written in Verus; every function states in its contract what it
  gives, and the laws that relate several of them are proof functions beside them. It does no
  input or output: where a file has to be read, a directory listed or the compiler run, a function
  tells what is needed and another one takes the outcome.
- `app/` is the server and the extension around it.
- `tests/` runs the library.

Source text is parsed by tree-sitter. `src/syntax.rs` reads the tree into plain values, and the rest
of the library works on those. The node kinds and fields that it looks for (`class_def`,
`method_def`, `assign` with `lhs` and `rhs`, and so on) and the query in `app/tags.rs` belong to one
grammar of Crystal; a `tree-sitter-crystal` that names its nodes otherwise parses, but nothing is
found in its trees.

Paths are those of Linux and macOS, on which the server runs.
