# rope_editor

A small modal text editor (in the style of vim) built on a persistent
rope, with its core written in Verus and proved against its contracts.

- `src/` is the verified library: the rope (`rope`), the undo history
  (`undo`), the buffer (`buffer`), the editor's modes, key map and command
  handling (`input`, `editor`), the window onto the text (`viewport`), what
  each screen row shows (`renderer`), styles and settings (`style`,
  `config`), the clipboard (`clipboard`), the state behind the graphical
  editor (`session`) and text helpers (`text`).
- `app/` is the terminal program: it reads keys and draws through
  crossterm, reads and writes files, and runs the editor's loop, carrying
  out the file reads and writes that the editor asks for. Beside it,
  `session_io` holds the file work of the graphical editor's session:
  opening, saving, listing a folder for the file picker, and reading what
  tells WSL apart at start-up.
- `tests/` exercise the library on concrete values.

Offsets into the text are byte offsets into its UTF-8 encoding, as in the
std string types. Backspace and `x` remove a whole character, however many
bytes it takes; left and right step over whole characters, and up and down
go to the line above or below, keeping the column as far as that line
allows. The editor offers `can_handle` to ask before handing it a key; the
terminal program stops with a panic on a key it cannot carry out (an edit
with the cursor left inside a character by a redo), as the editor it
follows does.
