# fim

A file integrity monitor. It keeps a baseline of SHA-256 hashes of the files
it watches, raises an alert when a file's hash changes or the file system
reports an event on it, and keeps everything as JSON under `./data`.

- `src/` is the verified library: the JSON document model (`json`), hashing
  (`digest`), the baseline (`baseline`), the alert log (`alerts`), the list of
  monitored paths and the scan plan (`dirs`), monitor mode (`monitor`), the
  menu (`menu`), the hash store (`hash_storage`) and the clock (`clock`).
- `app/` is the program: file and terminal I/O, the file-system watcher, and
  the conversion between `serde_json::Value` and the library's documents.
- `tests/` exercises the library on concrete values.
