use qaid::datetime::DateTime;
use qaid::domain::data::{cell_typeable, parse_cell, parse_if_typeable, typeable, typed_cell, Data, NumberReading};
use qaid::domain::table::Table;
use qaid::domain::error::APIError;
use qaid::domain::headers::Headers;
use qaid::domain::primitive_types::{PrimType, PrimTypeData};
use qaid::domain::report::{ReportError, ReportInfo};
use qaid::domain::schema::{FieldSchema, Schema};

fn no_number() -> NumberReading {
    NumberReading::new(None, None)
}

fn s(x: &str) -> String {
    x.to_owned()
}

#[test]
fn empty_cell_is_reported_at_its_position() {
    let (value, report) = parse_cell("   ", "Int", &no_number(), 2, 3);
    assert_eq!(value, PrimTypeData::Empty);
    let (kind, info) = report.unwrap();
    assert_eq!(kind, ReportError::EmptyCell);
    assert_eq!(info, ReportInfo::new((2, 3), (2, 3), s(""), s("Empty cell at (2,3)")));
}

#[test]
fn cells_are_typed_by_their_declared_type() {
    assert_eq!(parse_cell("  hello ", "STRING", &no_number(), 0, 0).0, PrimTypeData::String(s("hello")));
    assert_eq!(parse_cell(" -42 ", "Int", &no_number(), 0, 0).0, PrimTypeData::Int(-42));
    let two = NumberReading::new(Some(s("2")), None);
    assert_eq!(parse_cell("2.0", "Float", &two, 0, 0).0, PrimTypeData::Float(s("2")));
    assert_eq!(parse_cell("decimal", "Decimal", &no_number(), 0, 0), (PrimTypeData::UnexpectedError(s("decimal")), None));
}

#[test]
fn booleans_read_words_and_numbers() {
    assert_eq!(parse_cell("TRUE", "bool", &no_number(), 0, 0).0, PrimTypeData::Bool(true));
    assert_eq!(parse_cell(" False ", "Bool", &no_number(), 0, 0).0, PrimTypeData::Bool(false));
    let one = NumberReading::new(Some(s("1")), Some(true));
    assert_eq!(parse_cell("1.0", "bool", &one, 0, 0).0, PrimTypeData::Bool(true));
    let zero = NumberReading::new(Some(s("0")), Some(false));
    assert_eq!(parse_cell("0", "bool", &zero, 0, 0).0, PrimTypeData::Bool(false));
    assert_eq!(
        parse_cell("maybe", "bool", &no_number(), 0, 0),
        (PrimTypeData::UnexpectedError(s("Failed to parse boolean")), None)
    );
}

#[test]
fn datetimes_read_the_iso_format_or_are_reported() {
    let (value, report) = parse_cell("2026-01-02T01:12:00", "DateTime", &no_number(), 0, 3);
    assert_eq!(value, PrimTypeData::DateTime(DateTime::new(2026, 1, 2, 1, 12, 0, 0)));
    assert_eq!(report, None);

    let (value, report) = parse_cell(" 45661.2916666667 ", "datetime", &no_number(), 1, 3);
    assert_eq!(value, PrimTypeData::UnexpectedError(s("Failed to parse datetime")));
    let (kind, info) = report.unwrap();
    assert_eq!(kind, ReportError::FailedToParse);
    assert_eq!(info.start, (1, 3));
    assert_eq!(info.end, (1, 3));
    assert_eq!(info.val, s("45661.2916666667"));
    assert_eq!(info.context, s("Failed to parse DateTime at (1,3)"));
}

#[test]
fn typed_cell_uses_the_given_readings() {
    let dt = DateTime::new(2020, 9, 8, 3, 6, 27, 0);
    assert_eq!(typed_cell("x", "datetime", "x", &no_number(), Some(dt), 0, 0).0, PrimTypeData::DateTime(dt));
    assert_eq!(typed_cell("17", "int", "17", &no_number(), None, 0, 0).0, PrimTypeData::Int(17));
}

fn schema_for(headers: &Headers, fields: &[(&str, &str)]) -> Schema {
    let def = fields.iter().map(|(n, t)| FieldSchema::new(s(n), s(t))).collect();
    Schema::parse(def, headers).unwrap()
}

#[test]
fn data_parse_types_rows_and_skips_unnamed_columns() {
    let raw_headers = vec![s("Name"), s("Age"), s("Note")];
    let headers = Headers::parse(raw_headers.clone()).unwrap();
    // "note" is named only case-insensitively, so its cells are left out.
    let schema = schema_for(&headers, &[("Name", "String"), ("Age", "Int"), ("note", "String")]);
    let data = vec![vec![s("Ann"), s("31"), s("x")], vec![s(""), s("7"), s("y")]];
    let numbers = vec![vec![no_number(), no_number(), no_number()], vec![no_number(), no_number(), no_number()]];
    let (parsed, report) = Data::parse(data, &raw_headers, &schema, &numbers).unwrap();
    let rows = parsed.as_ref();
    assert_eq!(rows.len(), 2);
    assert_eq!(rows[0].len(), 2);
    assert_eq!(rows[0][0].data, PrimTypeData::String(s("Ann")));
    assert_eq!(rows[0][1].data, PrimTypeData::Int(31));
    assert_eq!(rows[1][0].data, PrimTypeData::Empty);
    assert_eq!(rows[1][1].cell_address, (1, 1));
    assert_eq!(report.len(), 1);
    assert_eq!(report[0].0, ReportError::EmptyCell);
    assert_eq!(report[0].1.start, (1, 0));
}

#[test]
fn data_parse_without_rows_is_refused() {
    let raw_headers = vec![s("A")];
    let headers = Headers::parse(raw_headers.clone()).unwrap();
    let schema = schema_for(&headers, &[("A", "String")]);
    let result = Data::parse(vec![], &raw_headers, &schema, &vec![]);
    assert_eq!(result, Err(APIError::NoData));
}

#[test]
fn values_show_as_text() {
    assert_eq!(PrimTypeData::Int(-9223372036854775808).to_string(), s("-9223372036854775808"));
    assert_eq!(PrimTypeData::Int(34).to_string(), s("34"));
    assert_eq!(PrimTypeData::Bool(false).to_string(), s("false"));
    assert_eq!(PrimTypeData::Empty.to_string(), s(""));
    assert_eq!(PrimTypeData::Float(s("2.5")).to_string(), s("2.5"));
    assert_eq!(
        PrimTypeData::DateTime(DateTime::new(2026, 1, 2, 1, 12, 0, 0)).to_string(),
        s("2026-01-02 01:12:00")
    );
    assert_eq!(PrimTypeData::DateTime(DateTime::new(2026, 2, 30, 0, 0, 0, 0)).to_string(), s(""));
    assert_eq!(PrimTypeData::UnexpectedError(s("oops")).kind(), PrimType::UnexpectedError);
    assert_eq!(PrimTypeData::Float(s("1")).kind(), PrimType::Float);
}

#[test]
fn typeable_tables_are_parsed_and_others_are_not() {
    let raw_headers = vec![s("Name"), s("Age"), s("Score")];
    let headers = Headers::parse(raw_headers.clone()).unwrap();
    let schema = schema_for(&headers, &[("Name", "String"), ("Age", "INT"), ("Score", "Float")]);
    let data = vec![vec![s("Ann"), s("31"), s("2.5")]];
    let numbers = vec![vec![no_number(), no_number(), NumberReading::new(Some(s("2.5")), None)]];
    assert!(typeable(&data, &raw_headers, &schema, &numbers));
    let parsed = parse_if_typeable(data, &raw_headers, &schema, &numbers).unwrap().unwrap();
    assert_eq!(parsed.0.as_ref()[0][2].data, PrimTypeData::Float(s("2.5")));

    let not_int = vec![vec![s("Ann"), s("3l"), s("2.5")]];
    assert!(!typeable(&not_int, &raw_headers, &schema, &numbers));
    assert!(parse_if_typeable(not_int, &raw_headers, &schema, &numbers).is_none());
    let not_float = vec![vec![s("Ann"), s("31"), s("high")]];
    let no_numbers = vec![vec![no_number(), no_number(), no_number()]];
    assert!(!typeable(&not_float, &raw_headers, &schema, &no_numbers));
    assert!(cell_typeable("  ", "int", &no_number()));
    assert!(cell_typeable("99999", "Int", &no_number()));
    assert!(!cell_typeable("99999999999999999999", "Int", &no_number()));
    assert!(cell_typeable("anything", "String", &no_number()));
}

#[test]
fn cells_show_as_text_rows() {
    let raw_headers = vec![s("Name"), s("Age")];
    let headers = Headers::parse(raw_headers.clone()).unwrap();
    let schema = schema_for(&headers, &[("Name", "String"), ("Age", "Int")]);
    let data = vec![vec![s("Ann"), s("31")], vec![s("Bo"), s("")]];
    let numbers = vec![vec![no_number(), no_number()], vec![no_number(), no_number()]];
    let (parsed, _) = Data::parse(data, &raw_headers, &schema, &numbers).unwrap();
    assert_eq!(parsed.text(), s("  Ann  |  31  |\n  Bo  |    |\n"));
    let copy = parsed.clone();
    assert_eq!(copy, parsed);
    let table = Table::new(copy.as_ref().clone());
    assert_eq!(table.text(), parsed.text());
    assert_eq!(table.clone().text(), parsed.text());
}

#[test]
fn any_schema_map_types_the_cells_it_names() {
    let headers = vec![s("a"), s("b"), s("c")];
    let schema = Schema::from_fields(vec![FieldSchema::new(s("a"), s("Text")), FieldSchema::new(s("c"), s("Int"))]).unwrap();
    let data = vec![vec![s("x"), s("y"), s(" 3")]];
    let numbers = vec![vec![no_number(), no_number(), no_number()]];
    let (parsed, report) = Data::parse(data, &headers, &schema, &numbers).unwrap();
    assert_eq!(parsed.as_ref()[0].len(), 2);
    assert_eq!(parsed.as_ref()[0][0].data, PrimTypeData::UnexpectedError(s("text")));
    assert_eq!(parsed.as_ref()[0][0].cell_address, (0, 0));
    assert_eq!(parsed.as_ref()[0][1].data, PrimTypeData::Int(3));
    assert_eq!(parsed.as_ref()[0][1].cell_address, (0, 2));
    assert!(report.is_empty());
    let twice = vec![FieldSchema::new(s("a"), s("Int")), FieldSchema::new(s("a"), s("String"))];
    assert!(Schema::from_fields(twice).is_none());
}
