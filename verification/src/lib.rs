//! Data quality checks for tabular data: header and schema validation,
//! typed cell parsing, and issue reports.

pub mod text;
pub mod utils;
pub mod datetime;
pub mod domain;
pub mod qa;
pub mod services;
