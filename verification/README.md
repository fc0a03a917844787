# modav_core

Tabular data read from delimited text, and the charts drawn from it, written
in Verus: each function states what it does in its contract, and the verifier
proves the code meets it.

## Layout

- `src/repr/sheet` — a sheet held row by row: cells of typed data, column
  headers, building from records, validation, sorting, transposing, and the
  conversion of a sheet into bar charts and line graphs.
- `src/repr/col_sheet` — a sheet held column by column: typed columns,
  reading columns from text by a type strategy, inserting, removing, swapping,
  sorting and converting rows and columns; `laws.rs` states what the
  operations undo and keep.
- `src/repr/arrow` — columns laid out after Apache Arrow's buffers: a text
  array with offsets and a validity bitmap, and a dense union of mixed types.
- `src/repr/floats.rs` — floats held by their IEEE 754 bit patterns: their
  orders, widening, casts to integers, and integers written as floats.
- `src/repr/parse.rs`, `src/repr/text.rs` — reading integers and booleans
  from text, and writing them.
- `src/repr/messages.rs` — the messages the errors are shown with, and the
  names the strategies and column types are shown by.
- `src/models` — points, scales, bars, lines and the charts made of them.
- `app/` — what the library leaves to a program: reading files, the floating
  point arithmetic and formatting it takes as arguments, `Display` for the
  errors (by their messages), and stacked bar charts, whose fractions are
  floats.

Floats never appear in the library itself: a float is held as its bit
pattern, and where a result depends on float arithmetic or formatting, the
library takes the function that computes it as an argument.
