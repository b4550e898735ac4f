# memoria_core

A local-first memory layer for agents. Messages become memories in the scope of
a user, an agent or a run; memories are searched by meaning, by keywords and by
the entities that a query names, filtered, listed, updated, deleted, and keep a
history.

- `src/` is the library. Every rule is stated as a contract and proved by Verus.
  Numbers with a fraction appear in it by their bits and by integers that order
  them; the arithmetic on them is handed in as closures.
- `app/` is the program around it: the command line, the tool server, the
  network, the files, the databases, and the arithmetic on such numbers.
- `tests/` runs the library.

Where a module calls `serde_json`, `uuid` or a part of the standard library that
Verus has no specification for, the call stands in a small trusted function
whose comment says what is taken on trust: see `src/json.rs`, `src/wire.rs`,
`src/text.rs` and `src/stores/qdrant.rs`.
