# xleak

Reads spreadsheets (`.xlsx`, `.xls`, `.xlsb`, `.ods`) and CSV files into plain tables of cells,
formats their values for display and for export, and keeps the formulas behind them.

- `src/` is the verified library. It parses CSV text, turns ranges of cells into sheets and
  tables, and formats cells. Nothing in it reads a file. The modules whose names end in `laws`,
  `csv_lines` and `csv_writing` state what holds of the library as a whole.
- `tests/` runs the library on concrete values.
- `app/` opens files, calls the spreadsheet reader, and converts floating-point numbers.

What the library takes on trust is marked `external_body` or `assume_specification`: a range of
cells (`src/grid.rs`), calendar arithmetic (`src/calendar.rs`) and `String::push` (`src/text.rs`).
