# worksnap

Incremental tar snapshots of a work directory, with the rules verified by
Verus.

- `src/` — the library, verified: timestamps and their order (`timestamp`),
  naming and lookup of archives and snar listings (`storage`), exclusion
  patterns and the decisions of the source-tree walk (`excludes`, `paths`),
  the tar runs and command line and the size report (`snapshot`), command-line
  values (`cli`), and character-level string facts (`text`).
- `app/` — the `worksnap` program: argument parsing, listing the storage
  directory, walking the source tree, copying listings, running tar, logging.
- `tests/` — tests of the library on concrete values.
