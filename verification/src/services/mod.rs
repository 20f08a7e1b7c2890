//! Readers that turn the contents of CSV files and spreadsheets into checked, typed tables.

pub mod csv_reader;
pub mod excel_reader;
