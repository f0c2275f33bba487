# subtake

The editing, formatting and layout rules of the SubTake screen-recording
editor, written in Verus with their contracts proved.

- `src/` is the verified library, one module per concern: `commands` (the
  names the controls fire), `inspector` (field keys and their text),
  `export` (export settings, encoder arguments, file names), `settings`
  (a project's editor settings), `lanes` (the timeline's lane packing),
  `nested` (values read and written at dotted keys inside
  objects), `presets` (the saved presets' list), `replace` (replacing a take's
  files together, undoing on failure), `selection`, `themes`, `clock`,
  `words`, `library`, `annotations`, `values` and `walkthrough`; `text`
  holds the string helpers and the few calls into `std` that the rest
  trusts.
- `tests/` runs the library on concrete values.
- `app/` is a small command-line program around the library: it reads
  files and arguments, does the file work that `replace` orders, and
  does the floating-point rounding that the library leaves to its
  caller.
