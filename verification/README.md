# qaid

Data quality checks for tables read from CSV files and Excel workbooks.

- `src/` is the verified library: header validation (`domain/headers.rs`), schema
  definitions (`domain/schema.rs`), typing of cell text (`domain/data.rs`), the issue log
  (`domain/report.rs`), the reader state machines for CSV and spreadsheet tables
  (`services/`), the comparison of cell kinds with a schema (`qa/`), and text helpers
  (`text.rs`, `utils.rs`, `datetime.rs`).
- `app/` is the program around it: reading files, opening workbooks through the `calamine`
  crate, the conversion of spreadsheet values and of numbers in cell text (which involve
  floating point), printing, and the `DBReader` interface. CSV text is parsed in `src/`
  (`services/csv_reader.rs`) through the `csv` crate.
