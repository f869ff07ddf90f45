# pesto

Fast, lean Usenet poster, with the file browser of `upapasta`. This crate
holds the logic of both as a Verus-verified library; `app/` is the program
around it (command line, terminal, files, logging).

Library modules (`src/`):

- `file_tree` — the browser: listing order and hidden-file filter, cursor,
  marks, parent directory, panel title and rows.
- `path` — absolute paths as component lists, with the order, equality and
  parent of `std::path`.
- `order` — sorting by a total order, proved to give the one sorted
  arrangement of its input.
- `upload` — the shared root folder of an upload and its subfolder count.
- `wizard` — the setup questions as a state machine, answers, and the TOML
  configuration they make.
- `cli` — flag overrides, log levels, exit codes, `.nzb` destination, the
  orientation screen.
- `ui` — sizes (`format_bytes`), layout choices and labels of the terminal
  interface.
- `tools` — what a missing or failing `rar` / `mediainfo` turns into.
- `text` — characters, decimal numerals, white space, UTF-8.
