# simple_files_backup

A file backup tool whose decisions are verified with Verus.

`src/` is the verified library. Each part of a backup run is a state machine
that asks for one piece of file-system work at a time and is told the outcome:

- `traverse` walks the sources: it checks each source, stages every directory
  source into `<target>/<name>.backup`, mirrors the directory tree there and
  emits one copy command per file. Its laws show that only staging
  directories are ever removed, that ignored paths are never touched, that
  copies mirror the source tree, and that entries are taken in order.
- `files` is the per-command copy job run by the workers (copy a file or
  recreate a symbolic link, replacing what is at the target).
- `backup` counts the copy results and then swaps each staged directory over
  the previous backup, only once every copy is done.
- `config`, `logs`, `errors`, `pattern` and `paths` hold the configuration
  rules, the log entry format, the error messages, the ignore pattern (the
  `regex` crate) and the path operations (`std::path`).

`app/main.rs` is the program: command line, configuration file, worker
threads and the file-system calls that answer the state machines.

`tests/` drives the state machines, including whole runs against an
in-memory file system.
