# codex_toolkit

The logic behind the tools of a coding agent, verified with Verus: talking to
language servers, editing files, planning and reporting project checks,
watching directories, and deciding which tools may be used in which
collaboration mode.

The library computes; it opens no file, starts no process and asks no clock.
Times are nanoseconds that the caller hands in, paths are those of Unix-like
systems, as far as they are texts, and whatever was read from disk or heard from
a server comes in as a value.

## Layout

- `src/text.rs`, `src/text_map.rs`, `src/text_order.rs`, `src/paths.rs`: texts,
  maps from texts, their order, and paths as texts.
- `src/moments.rs`: moments and spans of time.
- `src/json.rs`, `src/json_text.rs`: JSON values, and reading and writing them.
- `src/edit.rs`, `src/file_change.rs`, `src/apply_patch.rs`: finding the
  passages that an edit is about, replacing them, and turning the result into a
  patch.
- `src/lsp/`: requests to language servers from the first question to the last
  answer, the documents that are open, the edits that servers send, the
  sessions that are kept, and the framing of messages.
- `src/project_checks/`: detecting a project, planning its steps, following
  their run, and the report.
- `src/file_watcher/`: which directories are watched, and when subscribers are
  told what changed.
- `src/modes.rs`, `src/tool_policy.rs`, `src/instructions.rs`,
  `src/runtime_context.rs`: what a session may do and what it was told.
- `src/debug_config/`, `src/debug_runtime.rs`: showing all that.

`app/` runs the library: it owns the processes, files, channels and the
terminal. `tests/` holds the tests.

## What is believed

Calls into `serde_json`, `url`, `shlex` and `toml` stand behind small functions
whose contracts Verus does not check; each says what it claims of the call. The
specification of `String::push` is believed too.
