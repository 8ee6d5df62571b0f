# lispbm_lsp

A language server for lispBM: goto-definition and hover for symbols, with
doc comments taken from the comments above a definition and on its line.

- `src/` is the verified library (Verus):
  - `text.rs`: Unicode whitespace, doc-comment cleaning, string helpers.
  - `builtin.rs`: the builtin extension libraries and their file names.
  - `map.rs`: string-keyed association lists standing for the hash maps.
  - `definitions.rs`: definitions, and reading one from the captures of a
    syntax-query match (`from_def_match`), with its doc comment.
  - `paths.rs`: path arithmetic and resolution (std, pathdiff).
  - `entry.rs`: entry files, definition collections and what they import.
  - `state.rs`: the server state: files, entries and the symbol index, and
    the answers to goto-definition, hover and diagnostics.
- `app/` is the server around it: LSP transport (tower-lsp-server), the
  request loop, file reading, TOML parsing (serde, toml) and the syntax
  queries (tree-sitter with the lispBM grammar).
- `tests/` runs the library on concrete values.
