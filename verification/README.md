# driftwood

Verified conflict-free replicated data types and the decisions of a
peer-to-peer sync node, written in Verus.

- `src/` is the library, every function with a contract proved by Verus:
  vector clocks (`vclock`), the last-write-wins map (`lww_map`), the
  observed-remove set (`or_set`), the stored form of document versions and
  the store digest (`storage`), message framing (`wire`) and the session
  decisions of anti-entropy sync (`gossip`). The laws of each type (merges
  commute, associate and are idempotent; an added element is present; a
  removal propagates; a node pulls exactly the newer documents) stand in the
  `*_laws` modules and in `gossip`, `storage` and `wire`.
- The trusted part is small: `src/tables.rs` holds the `fxhash` hash tables,
  reached through wrappers whose contracts state std's map and set
  behaviour, and `src/storage.rs` holds one wrapper of `String::from_utf8`.
- `app/` is the command-line program. The original's two programs are its
  two subcommands: `driftwood sync-node --node node-a --db ./data-node-a put
  test-sync title "Hello"` (also `run [--peer ADDR]` and `get`) for the sync
  node over TCP with a sled store, and `driftwood drift new|put|show` for the
  notes tool.
- `tests/` runs the library on concrete values.
