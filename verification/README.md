# qust

The logic of a keyboard-driven WebKitGTK browser, written in Verus with its
behaviour stated in contracts and proved.

- `src/` is the verified library. Each module holds the rules of one part of
  the browser as functions over strings, vectors and small structs:
  `keys` (modes and key bindings), `command_bar` and `commands` (the `:`
  command line), `tabs` (tab order, groups, visibility, labels and widths),
  `firefox` (importing a Firefox session), `hints` (link hints), `navigation`
  (typed URLs and search templates), `session`, `passwords` (Bitwarden CLI
  output and credential matching), `modes` and `text` (character-level
  string functions with their mathematical meaning).
- `app/` is the GTK program around it: windows, widgets, WebKit views, files,
  child processes and the serialized forms of the library's data.
- `tests/` runs the library on concrete values.
