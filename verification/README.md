# crow_config

Lossless, schema-driven editing of line-oriented Linux configuration files
(`/etc/hosts`, `sshd_config`, `pg_hba.conf`, UFW rules), verified with Verus.

A plugin parses a file into a concrete syntax tree that keeps every byte,
binds it to a generic view-binding IR (rows of typed, validated fields that a
UI can render), and applies semantic edits (update a field, insert, delete or
move a row) that rewrite only the tokens they target. Settings that live in a
host application's store rather than in a file go through the same IR.

## Layout

- `src/` — the verified library. Every executable function carries a
  contract over a mathematical model of its data (`CstV` for trees, `JsonV`
  for JSON values, `RowIrV` and friends for the IR), and Verus proves it.
  - `cst`, `text`, `json`: the syntax tree, character-level helpers, JSON values.
  - `grammar`, `columns`, `hosts`, `sshd`, `pg_hba`, `ufw`: the grammars and
    the four shipped plugins.
  - `rows`, `bind`, `edit`, `ir`: row addressing, binding to the IR, the edit
    engine and the `ConfigPlugin` trait.
  - `schema`, `manifests`, `plugin`, `secret`, `store`: manifests and field
    validation, the shipped manifests, plugin requirements, secret values and
    the settings store.
  - `laws`: what holds of the library as a whole (lossless parsing, surgical
    edits that read back in the IR, refused edits, row ids, settings and
    requirement laws), as proof functions.
- `tests/` — tests run against the compiled library.
- `app/` — serde, TOML and error-message glue: copies of the library's types
  that carry `Serialize`/`Deserialize`/`Display`, with `From` both ways.
