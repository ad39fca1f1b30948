# AuditFS

Photographs a directory tree (SHA-256 and BLAKE3 of every file, with its
metadata), stores the baseline as a signed and compressed image, and reports
what was added, removed or modified since.

- `src/` is the verified library: the path map, the comparison of two
  snapshots and its laws, the text and HTML reports, the image format
  (framing, HMAC-SHA256 signature with a PBKDF2 key, gzip), the hex
  rendering of digests, the decisions of the directory walk, and the alert
  lines of the daemon.
- `app/` is the command line (`scan`, `diff`, `daemon`): file-system access,
  serialization with serde/bincode/serde_json, the clock, and the log file.
- `tests/` exercises the library.
