# devports

A local development port manager: it tracks configured services and their
expected ports, inspects live TCP listeners, starts and stops services, and
opens or lists their URLs.

The library under `src/` is written in Verus and carries its contracts:

- `text` — character-level text operations (`split_whitespace`, `lines`,
  `trim`, integer parsing, decimal formatting, substring search) with their
  meanings as spec functions.
- `path` — Unix paths read as component sequences (`Path::components`,
  `Path::starts_with`).
- `scan` — parsing `lsof` and `ss` listener tables and assembling scan records
  in port order.
- `proc` — parsing `ps` output, process trees, repository-root search and the
  termination plan.
- `config` — the service registry (ordered by name) and the doctor report.
- `render` — the lines of the `list` table, the doctor report and conflicts.
- `tui` — the browser's state, key bindings, the action step and the text it
  shows.

`app/` is the command-line program around it: argument parsing (clap), the
config file (serde_yaml), JSON output (serde_json), the system tools it runs,
and the terminal loop (crossterm, ratatui). The `--json` output is written
there with serde_json: the library has no JSON renderer, and serde_json is the
one dependency that serves only that output.
