//! The data model: headers, schemas, typed cells, parsed data and issue reports.

pub mod cell;
pub mod data;
pub mod error;
pub mod headers;
pub mod primitive_types;
pub mod report;
pub mod schema;
pub mod table;
