# task_manager

Two task-list programs, verified with Verus.

* `src/domain.rs`, `src/storage.rs`, `src/cli.rs` — a small file-backed task
  manager: positive task ids, trimmed non-empty titles, one-way completion, an
  in-memory store whose ids never collide, and the text the command prints.
* `src/rest/` — the rules of a task REST service: the task domain and its
  validation, the strict HTTP request boundary and the JSON responses, the
  Markdown checklist file format and its document operations, the SQLite row
  format, what the HTTP client accepts from a server, and the command-line
  exit-code policy.
* `src/text.rs` — character classes, trimming, splitting, decimal rendering
  and UTF-8 encoding shared by both.

`app/` holds what Verus does not check: argument parsing, file, database and
network I/O, the Tokio runtime, the Axum and Actix adapters and the Reqwest
client. The validation, formats, mappings and state changes those adapters
apply are the library's; the adapters make the outside calls and sequence the
library's steps around them.
