use qaid::datetime::DateTime;
use qaid::domain::cell::Cell;
use qaid::domain::data::NumberReading;
use qaid::domain::error::{APIError, BadHeaderInfo};
use qaid::domain::primitive_types::{PrimType, PrimTypeData, SchemaInfo};
use qaid::domain::report::ReportError;
use qaid::domain::schema::FieldSchema;
use qaid::qa::db_comparison::kind_mismatches;
use qaid::services::csv_reader::{CsvReader, CsvReaderBuilder};
use qaid::services::excel_reader::{shift_positions, ExcelReader, ExcelReaderBuilder, SheetCell};

fn s(x: &str) -> String {
    x.to_owned()
}

fn strings(xs: &[&str]) -> Vec<String> {
    xs.iter().map(|x| s(x)).collect()
}

fn readings(rows: &[Vec<String>]) -> Vec<Vec<NumberReading>> {
    rows.iter()
        .map(|r| {
            r.iter()
                .map(|c| {
                    let v = c.trim();
                    let f = v.parse::<f64>().ok();
                    let b = f.and_then(|x| if x == 1.0 { Some(true) } else if x == 0.0 { Some(false) } else { None });
                    NumberReading::new(f.map(|x| x.to_string()), b)
                })
                .collect()
        })
        .collect()
}

fn col_schema() -> Vec<FieldSchema> {
    vec![
        FieldSchema::new(s("col1"), s("String")),
        FieldSchema::new(s("col2"), s("String")),
        FieldSchema::new(s("col3"), s("Int")),
    ]
}

#[test]
fn csv_records_are_trimmed_and_typed() {
    let mut csv_file = CsvReaderBuilder::parse(s("in-memory.csv"), col_schema());
    let (headers, schema) = csv_file.prepare(&strings(&[" col1", "col2 ", "col3"])).unwrap();
    let records = vec![
        strings(&["a", " String1 ", "1"]),
        strings(&["b", "String2", " 2"]),
        strings(&["c", "String3", "3"]),
        strings(&["d", "", "4"]),
    ];
    let trimmed: Vec<Vec<String>> = records.iter().map(|r| r.iter().map(|x| s(x.trim())).collect()).collect();
    let numbers = readings(&trimmed);
    csv_file.load(headers, schema, records, &numbers).unwrap();

    assert_eq!(csv_file.get_headers(), &["col1", "col2", "col3"]);
    assert_eq!(csv_file.data_size(), (4, 3));
    assert_eq!(csv_file.get_data_at(0, 1).unwrap().data, PrimTypeData::String(s("String1")));
    assert_eq!(csv_file.get_data_at(0, 1).unwrap().cell_address, (0, 1));
    assert_eq!(csv_file.get_data_at(1, 2).unwrap().data, PrimTypeData::Int(2));
    assert!(csv_file.get_data_at(4, 0).is_none());
    let empty = csv_file.get_issues().get(&ReportError::EmptyCell).unwrap();
    assert_eq!(empty.len(), 1);
    assert_eq!(empty[0].start, (3, 1));
}

#[test]
fn csv_without_records_is_refused() {
    let mut csv_file = CsvReaderBuilder::parse(s("empty.csv"), col_schema());
    let (headers, schema) = csv_file.prepare(&strings(&["col1", "col2", "col3"])).unwrap();
    assert_eq!(csv_file.load(headers, schema, vec![], &vec![]), Err(APIError::NoData));
    assert_eq!(csv_file.data_size(), (0, 0));
    assert!(csv_file.get_headers().is_empty());
}

#[test]
fn csv_bad_headers_are_refused_before_the_schema() {
    let csv_file = CsvReaderBuilder::parse(s("bad.csv"), vec![FieldSchema::default()]);
    let result = csv_file.prepare(&strings(&["a", "A", " "]));
    let expected = BadHeaderInfo { empty: vec![2], duplicate: vec![s("a")] };
    assert_eq!(result.map(|_| ()), Err(APIError::BadHeaders(expected)));
}

fn sheet_row(cells: &[&str]) -> Vec<SheetCell> {
    cells.iter().map(|c| SheetCell::Text(s(c))).collect()
}

fn texts(rows: &[Vec<SheetCell>]) -> Vec<Vec<String>> {
    rows.iter()
        .map(|r| r.iter().map(|c| match c { SheetCell::Text(t) => t.clone(), SheetCell::Error => String::new() }).collect())
        .collect()
}

fn excel_schema() -> Vec<FieldSchema> {
    vec![
        FieldSchema::new(s("PID"), s("String")),
        FieldSchema::new(s("Impressions"), s("Int")),
        FieldSchema::new(s("DateTime"), s("DateTime")),
        FieldSchema::new(s("Boolean"), s("Bool")),
    ]
}

#[test]
fn sheet_is_typed_and_merged_regions_reported() {
    let mut excel_file = ExcelReaderBuilder::parse(s("book.xlsx"), s("Sheet1"), excel_schema());
    let rows = vec![
        sheet_row(&["p1", "34", "2026-01-02T01:12:00", "true"]),
        sheet_row(&["p2", "", "45661.2916666667", "false"]),
        sheet_row(&["p3", "5", "2025-12-09T14:09:00", "0"]),
    ];
    let numbers = readings(&texts(&rows));
    let headers = Some(strings(&["PID", "Impressions", "DateTime", "Boolean"]));
    excel_file.load_sheet(4, headers, rows, &numbers, (3, 4)).unwrap();

    assert_eq!(excel_file.data_size(), (3, 4));
    assert_eq!(excel_file.get_data_at(0, 1).unwrap().data, PrimTypeData::Int(34));
    assert_eq!(excel_file.get_data_at(0, 2).unwrap().data, PrimTypeData::DateTime(DateTime::new(2026, 1, 2, 1, 12, 0, 0)));
    assert_eq!(excel_file.get_data_at(2, 3).unwrap().data, PrimTypeData::Bool(false));
    let issues = excel_file.get_issues();
    assert_eq!(issues.len(), 2);
    assert_eq!(issues.get(&ReportError::EmptyCell).unwrap()[0].start, (1, 1));
    let parse = issues.get(&ReportError::FailedToParse).unwrap();
    assert_eq!(parse[0].val, s("45661.2916666667"));

    excel_file.add_merged_regions(&vec![((1, 0), (2, 0)), ((3, 1), (3, 2))]);
    let merged = excel_file.get_issues().get(&ReportError::MergedCells).unwrap();
    assert_eq!(merged.len(), 2);
    assert_eq!(merged[0].start, (0, 0));
    assert_eq!(merged[0].end, (1, 0));
    assert_eq!(merged[0].val, s("p1"));
    assert_eq!(merged[0].context, s("Merged cell at (0,0) to (1,0)"));
    assert_eq!(merged[1].val, s("5"));
}

#[test]
fn sheet_refusals_come_in_order() {
    let mut excel_file = ExcelReaderBuilder::parse(s("book.xlsx"), s("Sheet1"), excel_schema());
    assert_eq!(excel_file.load_sheet(0, None, vec![], &vec![], (0, 0)), Err(APIError::EmptyFile));
    assert_eq!(excel_file.load_sheet(1, None, vec![], &vec![], (0, 0)), Err(APIError::UnexpectedError));

    let bad = Some(strings(&["ID", "", "City", "city", "Zip Code", "zipcode", "ZipCode", " "]));
    let expected = BadHeaderInfo { empty: vec![1, 7], duplicate: vec![s("city"), s("zipcode")] };
    assert_eq!(excel_file.load_sheet(1, bad, vec![], &vec![], (0, 0)), Err(APIError::BadHeaders(expected)));

    let headers = Some(strings(&["PID", "Impressions", "DateTime", "Boolean"]));
    assert_eq!(excel_file.load_sheet(1, headers.clone(), vec![], &vec![], (0, 0)), Err(APIError::NoData));
    assert_eq!(excel_file.get_issues().len(), 0);

    let rows = vec![vec![SheetCell::Text(s("p1")), SheetCell::Error]];
    let numbers = readings(&texts(&rows));
    assert_eq!(excel_file.load_sheet(2, headers, rows, &numbers, (1, 2)), Err(APIError::UnexpectedError));
    let unexpected = excel_file.get_issues().get(&ReportError::UnexpectedError).unwrap();
    assert_eq!(unexpected[0].start, (0, 1));
    assert_eq!(unexpected[0].context, s("Unexpected error at (0,1). Could not determine data type."));
}

#[test]
fn kinds_are_compared_with_the_schema() {
    let data = vec![
        vec![Cell::new(PrimTypeData::String(s("a")), (0, 0)), Cell::new(PrimTypeData::Int(1), (0, 1))],
        vec![Cell::new(PrimTypeData::Int(3), (1, 0)), Cell::new(PrimTypeData::Empty, (1, 1))],
    ];
    let schema = vec![SchemaInfo::new(s("a"), PrimType::String), SchemaInfo::new(s("b"), PrimType::Int)];
    assert_eq!(kind_mismatches(&data, &schema), Ok(vec![(1, 0), (1, 1)]));
    let short = vec![SchemaInfo::new(s("a"), PrimType::String)];
    assert_eq!(
        kind_mismatches(&data, &short),
        Err(APIError::DataSchemaCheckErr(s("Schema length and data lenth are not equal")))
    );
}

#[test]
fn csv_records_typeable_checks_ints_floats_and_widths() {
    let csv_file = CsvReaderBuilder::parse(s("in-memory.csv"), col_schema());
    let (headers, schema) = csv_file.prepare(&strings(&["col1", "col2", "col3"])).unwrap();
    let good = vec![strings(&["a", "b", " 7 "]), strings(&["c", "d", ""])];
    assert!(csv_file.records_typeable(&headers, &schema, &good, &readings(&good)));
    let bad_int = vec![strings(&["a", "b", "7.5"])];
    assert!(!csv_file.records_typeable(&headers, &schema, &bad_int, &readings(&bad_int)));
    let too_wide = vec![strings(&["a", "b", "1", "x"])];
    assert!(!csv_file.records_typeable(&headers, &schema, &too_wide, &readings(&too_wide)));
    assert!(!csv_file.records_typeable(&headers, &schema, &good, &vec![]));
}

#[test]
fn sheet_typeable_looks_only_past_accepted_headers_and_error_cells() {
    let excel_file = ExcelReaderBuilder::parse(s("book.xlsx"), s("Sheet1"), excel_schema());
    let headers = Some(strings(&["PID", "Impressions", "DateTime", "Boolean"]));
    let bad = vec![sheet_row(&["p1", "many", "2026-01-02T01:12:00", "true"])];
    assert!(!excel_file.sheet_typeable(&headers, &bad, &readings(&texts(&bad))));
    let good = vec![sheet_row(&["p1", "3", "x", "true"])];
    assert!(excel_file.sheet_typeable(&headers, &good, &readings(&texts(&good))));
    let with_error = vec![vec![SheetCell::Error, SheetCell::Text(s("many"))]];
    assert!(excel_file.sheet_typeable(&headers, &with_error, &readings(&texts(&with_error))));
    let bad_headers = Some(strings(&["PID", "pid"]));
    assert!(excel_file.sheet_typeable(&bad_headers, &bad, &vec![]));
    assert!(excel_file.sheet_typeable(&None, &bad, &vec![]));
}

#[test]
fn removing_a_row_shifts_the_rows_below_it() {
    let cells = vec![(0, 0), (0, 3), (1, 2), (2, 0)];
    let shifted = shift_positions((4, 1), &cells, 0);
    assert_eq!(shifted, vec![None, None, Some((4, 3)), Some((5, 1))]);
    let shifted = shift_positions((0, 0), &cells, 1);
    assert_eq!(shifted, vec![Some((0, 0)), Some((0, 3)), None, Some((1, 0))]);
}

#[test]
fn readers_default_to_nothing_read() {
    let csv_file = CsvReader::default();
    assert!(csv_file.file().is_empty());
    assert_eq!(csv_file.data_size(), (0, 0));
    let excel_file = ExcelReader::default();
    assert!(excel_file.db().is_empty());
    assert!(excel_file.sheet().is_empty());
    assert!(excel_file.get_data().is_empty());
}

#[test]
fn csv_read_records_checks_then_types() {
    let mut csv_file = CsvReaderBuilder::parse(s("in-memory.csv"), col_schema());
    let records = vec![strings(&["a", " b ", "1"]), strings(&["c", "", "2"])];
    let numbers = readings(&records);
    csv_file.read_records(&strings(&["col1 ", "col2", "col3"]), records, &numbers).unwrap();
    assert_eq!(csv_file.get_headers(), &["col1", "col2", "col3"]);
    assert_eq!(csv_file.data_size(), (2, 3));
    assert_eq!(csv_file.get_data_at(0, 1).unwrap().data, PrimTypeData::String(s("b")));
    assert_eq!(csv_file.get_issues().get(&ReportError::EmptyCell).unwrap()[0].start, (1, 1));

    let mut refused = CsvReaderBuilder::parse(s("in-memory.csv"), col_schema());
    let result = refused.read_records(&strings(&["col1", "col2", "other"]), vec![], &vec![]);
    assert!(matches!(result, Err(APIError::BadSchema(_))));
    assert!(refused.get_headers().is_empty());
    let result = refused.read_records(&strings(&["col1", "col2", "col3"]), vec![], &vec![]);
    assert_eq!(result, Err(APIError::NoData));
    assert_eq!(refused.data_size(), (0, 0));
}

#[test]
fn csv_bytes_are_read_and_refused_in_order() {
    let csv_file = CsvReaderBuilder::parse(s("in-memory.csv"), col_schema());
    let (headers, records) = csv_file.read_csv_bytes(b"col1, col2 ,col3\na,b,1\nc,,2\n").unwrap();
    assert_eq!(headers, strings(&["col1", " col2 ", "col3"]));
    assert_eq!(records, vec![strings(&["a", "b", "1"]), strings(&["c", "", "2"])]);

    assert_eq!(csv_file.read_csv_bytes(b"col1,\xff\n").map(|_| ()), Err(APIError::FailedToRead));
    let expected = BadHeaderInfo { empty: vec![], duplicate: vec![s("col1")] };
    assert_eq!(csv_file.read_csv_bytes(b"col1,COL1\n1,\n\xff").map(|_| ()), Err(APIError::BadHeaders(expected)));
    assert!(matches!(csv_file.read_csv_bytes(b"col1,other\n"), Err(APIError::BadSchema(_))));
    assert_eq!(csv_file.read_csv_bytes(b"col1,col2,col3\na,b\n").map(|_| ()), Err(APIError::FailedToReadCsv));
    let (headers, records) = csv_file.read_csv_bytes(b"").unwrap();
    assert!(headers.is_empty());
    assert!(records.is_empty());
}
