# sheetview

The core of a terminal spreadsheet viewer and editor for CSV and Excel
files, verified with Verus, and the terminal program around it.

- `src/` is the verified library: the sheet data (`data`), text
  operations (`text`), regular expressions through the `regex` crate
  (`pattern`), matching and replacing (`matching`), stable sorting
  (`sorting`), and the viewer state with its key handling, search, replace,
  sort, filter, duplicate detection, undo and redo (`app`), and where the
  parts of the screen go (`layout`). Work outside the
  process (writing files, reading workbook sheets, the clipboard) is handed
  back as an `Effect`, and its outcome handed in again.
- `app/` is the program: command-line arguments, reading and writing
  files, drawing with `ratatui`, keys from `crossterm`, the clipboard and
  the column statistics.
- `tests/` drives the library through keys and commands.
