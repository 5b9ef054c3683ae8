# easy_wal

A write-ahead log kept in segment files, written in Verus.

`src/` is the verified library. It holds the decisions of the log: the
record format and its checksums, segment bookkeeping and rotation, reads and
writes of the log's state, pruning, checkpoints and crash-recovery scans,
group commit, sync policies, read-ahead parsing, and an in-memory byte
store. Each public function states its behaviour in `requires`/`ensures`,
and the laws that span several functions are public proof functions
(`lemma_*`).

`app/` performs the file operations those decisions call for: a WAL over a
directory (`FileWal`), a tokio adapter (`AsyncWal`), a file-backed byte
store, the segment directory, recovery over segment files, a
group-commit task, and drivers of the write and read coordinators.

`tests/` exercises the library on concrete values.
