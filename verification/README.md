# herdr_tab_title

Numbers Herdr tab titles by their position inside their workspace, e.g.
`1. Codex`, `2. Terminal`, with a configurable format such as
`[{index}] {title}`. Only a leading `N. ` is taken for an existing number
when a title is renumbered, so under a format that numbers otherwise each
refresh puts another number in front of the title (see `expected_title` in
`src/rename.rs`).

- `src/` is the verified library: the format parser and renderer, the title
  matcher, the rename planner, the event list, the debouncer and the
  decisions of the cross-process refresh lock, with their contracts and laws.
- `app/` is the plugin binary: Herdr's plugin runtime, the command-line
  client, JSON and configuration parsing, and the file and clock work of the
  refresh lock.
- `tests/` exercise the library on concrete values.
