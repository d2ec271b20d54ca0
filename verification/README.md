# placement_center

The storage layer of a message-queue placement center, verified with Verus.

- `src/` is the verified library: the error type and its messages, the JSON
  record format in which values are stored (`storage::codec`), the engine's
  column families, options and the meaning of the database's replies
  (`storage::rocksdb`), the decisions of a prefix scan and the proof that a
  scan from the sought key keeps exactly the keys with the prefix
  (`storage::prefix`), the engine operations on the cluster's family
  (`storage::engine`), the raft machine state (`storage::raft`), and the
  logging configuration's path substitution (`log_config`).
- `app/` is the program around it: it opens RocksDB, makes the database
  calls, parses stored records with serde, decodes raft messages, reads files and starts logging, and hands
  the library plain values.
- `tests/` runs the library on concrete values.
