//! The types a cell can hold, and typed cell values.

use vstd::prelude::*;

use crate::datetime::{display_naive_datetime, naive_datetime_display, DateTime};
use crate::text::{i64_text, int_text, lower_text, text_eq, to_lowercase};

verus! {

/// A column's declared type name together with the column's header.
#[derive(Debug, Clone, PartialEq)]
pub struct SchemaInfo {
    pub header_name: String,
    pub data_type: PrimType,
}

impl SchemaInfo {
    pub fn new(header_name: String, data_type: PrimType) -> (r: Self)
        ensures
            r.header_name == header_name,
            r.data_type == data_type,
    {
        Self { header_name, data_type }
    }
}

/// The kind of value a cell holds.
#[derive(Debug, Clone, Copy, PartialEq, Eq, Structural)]
pub enum PrimType {
    String,
    Int,
    Float,
    Bool,
    DateTime,
    Empty,
    UnexpectedError,
}

/// The kind a lower-cased schema type name stands for.
pub open spec fn prim_type_of(lowered: Seq<char>) -> PrimType {
    if lowered == "string"@ {
        PrimType::String
    } else if lowered == "int"@ {
        PrimType::Int
    } else if lowered == "float"@ {
        PrimType::Float
    } else if lowered == "bool"@ {
        PrimType::Bool
    } else if lowered == "datetime"@ {
        PrimType::DateTime
    } else {
        PrimType::UnexpectedError
    }
}

/// The kind a schema type name (case ignored) stands for.
pub fn prim_type_for(declared: &str) -> (r: PrimType)
    ensures
        r == prim_type_of(lower_text(declared@)),
{
    let t = to_lowercase(declared);
    if text_eq(t.as_str(), "string") {
        PrimType::String
    } else if text_eq(t.as_str(), "int") {
        PrimType::Int
    } else if text_eq(t.as_str(), "float") {
        PrimType::Float
    } else if text_eq(t.as_str(), "bool") {
        PrimType::Bool
    } else if text_eq(t.as_str(), "datetime") {
        PrimType::DateTime
    } else {
        PrimType::UnexpectedError
    }
}

/// A typed cell value. A float is held as the text that `f64`'s `Display` writes for it, which
/// reads back as the same number.
#[derive(Debug, Clone, PartialEq)]
pub enum PrimTypeData {
    String(String),
    Int(i64),
    Float(String),
    Bool(bool),
    DateTime(DateTime),
    Empty,
    UnexpectedError(String),
}

/// The mathematical value of a `PrimTypeData`.
pub enum PrimValue {
    String(Seq<char>),
    Int(i64),
    Float(Seq<char>),
    Bool(bool),
    DateTime(DateTime),
    Empty,
    UnexpectedError(Seq<char>),
}

impl View for PrimTypeData {
    type V = PrimValue;

    open spec fn view(&self) -> PrimValue {
        match self {
            PrimTypeData::String(s) => PrimValue::String(s@),
            PrimTypeData::Int(v) => PrimValue::Int(*v),
            PrimTypeData::Float(t) => PrimValue::Float(t@),
            PrimTypeData::Bool(b) => PrimValue::Bool(*b),
            PrimTypeData::DateTime(d) => PrimValue::DateTime(*d),
            PrimTypeData::Empty => PrimValue::Empty,
            PrimTypeData::UnexpectedError(s) => PrimValue::UnexpectedError(s@),
        }
    }
}

/// The kind of a value.
pub open spec fn kind_of(v: PrimValue) -> PrimType {
    match v {
        PrimValue::String(_) => PrimType::String,
        PrimValue::Int(_) => PrimType::Int,
        PrimValue::Float(_) => PrimType::Float,
        PrimValue::Bool(_) => PrimType::Bool,
        PrimValue::DateTime(_) => PrimType::DateTime,
        PrimValue::Empty => PrimType::Empty,
        PrimValue::UnexpectedError(_) => PrimType::UnexpectedError,
    }
}

/// The text a value is shown as: strings and error messages as they are, integers in decimal,
/// floats as held, booleans as `true`/`false`, date-times as chrono shows them (nothing if
/// chrono has no such date-time), and nothing for an empty cell.
pub open spec fn value_text(v: PrimValue) -> Seq<char> {
    match v {
        PrimValue::String(s) => s,
        PrimValue::Int(i) => int_text(i as int),
        PrimValue::Float(t) => t,
        PrimValue::Bool(b) => if b {
            "true"@
        } else {
            "false"@
        },
        PrimValue::DateTime(d) => match naive_datetime_display(d) {
            Some(t) => t,
            None => Seq::empty(),
        },
        PrimValue::Empty => Seq::empty(),
        PrimValue::UnexpectedError(s) => s,
    }
}

impl PrimTypeData {
    /// The kind of this value.
    pub fn kind(&self) -> (r: PrimType)
        ensures
            r == kind_of(self@),
    {
        match self {
            PrimTypeData::String(_) => PrimType::String,
            PrimTypeData::Int(_) => PrimType::Int,
            PrimTypeData::Float(_) => PrimType::Float,
            PrimTypeData::Bool(_) => PrimType::Bool,
            PrimTypeData::DateTime(_) => PrimType::DateTime,
            PrimTypeData::Empty => PrimType::Empty,
            PrimTypeData::UnexpectedError(_) => PrimType::UnexpectedError,
        }
    }

    /// The text this value is shown as.
    pub fn to_string(&self) -> (r: String)
        ensures
            r@ == value_text(self@),
    {
        match self {
            PrimTypeData::String(s) => s.clone(),
            PrimTypeData::Int(v) => i64_text(*v),
            PrimTypeData::Float(t) => t.clone(),
            PrimTypeData::Bool(b) => {
                if *b {
                    "true".to_owned()
                } else {
                    "false".to_owned()
                }
            },
            PrimTypeData::DateTime(d) => match display_naive_datetime(d) {
                Some(t) => t,
                None => String::new(),
            },
            PrimTypeData::Empty => String::new(),
            PrimTypeData::UnexpectedError(s) => s.clone(),
        }
    }

    /// A copy of this value.
    pub fn copy(&self) -> (r: Self)
        ensures
            r@ == self@,
    {
        match self {
            PrimTypeData::String(s) => PrimTypeData::String(s.clone()),
            PrimTypeData::Int(v) => PrimTypeData::Int(*v),
            PrimTypeData::Float(t) => PrimTypeData::Float(t.clone()),
            PrimTypeData::Bool(b) => PrimTypeData::Bool(*b),
            PrimTypeData::DateTime(d) => PrimTypeData::DateTime(*d),
            PrimTypeData::Empty => PrimTypeData::Empty,
            PrimTypeData::UnexpectedError(s) => PrimTypeData::UnexpectedError(s.clone()),
        }
    }
}

} // verus!
