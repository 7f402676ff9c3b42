# Strand

A modal (Helix-style) text editor whose editing logic is a library verified
with Verus, and a thin GTK front end around it.

## Layout

- `src/` — the verified library (`strand`):
  - `text/` — the text buffer with its selection and undo history, character
    classes, motions, bracket matching, text objects, surround operations,
    Unicode helpers and fuzzy matching (through `nucleo`) with Pango markup.
  - `keymap/` — key events (parsing and printing), editor actions, the key
    trie with pending chords, and the default keymap.
  - `commands/` — what each action does to the editor and its buffer
    (`dispatch`), and command lines (`:w`, `:q`, `:e`, `:b`, `:theme`, ...).
  - `components/` — the key controller (`handle_key`), the which-key
    overlay, the status line's texts, the command palette's items and
    list, and the application's message model.
  - `editor/` — the editor state (mode, registers, open documents and their
    history), documents' line endings and indentation, workspaces and
    version control files, themes.
  - `config/` — the editor configuration and its defaults, and the layering
    of configuration files (TOML values merged to a depth).
- `tests/` — tests run against the compiled library.
- `app/` — the GTK 4 / libadwaita / relm4 window, file and clipboard I/O,
  configuration files read with serde and `toml`, and the project file
  walk with `ignore`.
