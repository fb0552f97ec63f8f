# sesh

A minimal SSH connection manager for VPS hosts: store, tag, list and connect to
servers from the command line. Hosts live in `~/.config/sesh/hosts.toml`.

## Layout

- `src/` is the library, verified with Verus. Each command is a function from
  plain values (the command's flags, the loaded host store, text read from a
  file, the outcome of a probe) to a result, with a contract:
  - `text.rs`: characters and strings (trimming, ASCII lower case, words,
    lines, decimal numbers, `u16` parsing, padding, string order).
  - `tags.rs`: tag normalization and its laws (sorted, no repeats, idempotent).
  - `storage.rs`: host entries, the store (stable sort by name, lookup by
    name), home-directory and path handling.
  - `error.rs`: errors and their one-line texts.
  - `commands/`: `add`, `edit`, `remove`, `list`, `connect`, `import` (the SSH
    config parser and the merge into the store), `doctor`.
- `app/` is the program: argument parsing, the TOML store file, running `ssh`,
  TCP probes and printing.
- `tests/` exercises the library on concrete values.
