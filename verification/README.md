# snaglord

The library behind a terminal browser for the commands in a tmux pane's
scrollback: pick a command, read its output, search with fuzzy matching, and
copy what you need.

Layout:

- `src/` — the library, with its contracts and proofs:
  - `app.rs`: the application state (selection, scrolling, fuzzy search and the
    copy and debug views) and the laws that its operations keep;
  - `json_highlight.rs`, `json_highlight/style.rs`, `styled.rs`: JSON laid out
    as indented, coloured lines;
  - `matcher.rs`, `utils.rs`: fuzzy scoring and ANSI stripping, as the
    `fuzzy-matcher` and `strip-ansi-escapes` crates compute them, and the
    positions of the matched characters;
  - `tmux.rs`, `ui.rs`: what to ask tmux and how to read its answers, and the
    rows (matched characters highlighted) and titles the interface shows, and
    the clipboard commands to try;
  - `text.rs`: character-level string helpers.
- `tests/` — tests of the library on concrete values.
- `app/` — the terminal side: running tmux and the clipboard, and drawing with
  ratatui.
