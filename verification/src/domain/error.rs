//! Errors that reading and checking a table can produce.

use vstd::prelude::*;

use crate::domain::schema::FieldSchema;

verus! {

/// Why a table could not be read or checked.
#[derive(Debug, Clone, PartialEq)]
pub enum APIError {
    FailedToOpen,
    FailedToRead,
    FailedToReadCsv,
    FailedToParseDate,
    BadSchema(BadSchemaInfo),
    SchemaParseErr(Vec<String>),
    DataSchemaCheckErr(String),
    BadHeaders(BadHeaderInfo),
    NoData,
    EmptyFile,
    UnexpectedError,
}

/// The headers that are blank (by position) and those that occur twice (lower-cased).
#[derive(Debug, Clone, PartialEq, Default)]
pub struct BadHeaderInfo {
    pub empty: Vec<usize>,
    pub duplicate: Vec<String>,
}

/// What is wrong with a schema definition.
#[derive(Debug, Clone, PartialEq, Default)]
pub struct BadSchemaInfo {
    pub incorrect_type: Vec<FieldSchema>,
    pub duplicate_names: Vec<String>,
    pub missing_fields: Vec<String>,
}

} // verus!
