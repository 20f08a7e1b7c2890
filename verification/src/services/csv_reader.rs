//! A table read from a CSV file: headers, schema, typed data and the issues found.

use vstd::prelude::*;

use crate::domain::cell::Cell;
use crate::domain::data::{
    numbers_view, rows_view, table_defined, table_outcome, typeable, Data, NumberReading,
};
use crate::domain::error::APIError;
use crate::domain::headers::{header_report, headers_valid, Headers};
use crate::domain::primitive_types::PrimValue;
use crate::domain::report::{
    reports_view, with_issues, issues_of, ErrorKind, InfoView, IssueLog, ReportError, ReportInfo,
};
use crate::domain::schema::{copy_definition, schema_report, schema_valid, FieldSchema, Schema};
use crate::text::{trim, trim_spec};
use crate::utils::views;

verus! {

/// Each field trimmed.
pub open spec fn trimmed(fields: Seq<Seq<char>>) -> Seq<Seq<char>> {
    fields.map_values(|f: Seq<char>| trim_spec(f))
}

/// Each field of each record trimmed.
pub open spec fn trimmed_rows(rows: Seq<Vec<String>>) -> Seq<Seq<Seq<char>>> {
    rows.map_values(|r: Vec<String>| trimmed(views(r@)))
}

/// The fields of a record, trimmed.
fn record_to_vec(record: &Vec<String>) -> (r: Vec<String>)
    ensures
        views(r@) == trimmed(views(record@)),
{
    let mut out: Vec<String> = Vec::new();
    let n = record.len();
    for i in 0..n
        invariant
            n == record@.len(),
            views(out@) == trimmed(views(record@)).take(i as int),
    {
        let ghost before = views(out@);
        out.push(trim(record[i].as_str()));
        proof {
            assert(views(out@) =~= before.push(trim_spec(record@[i as int]@)));
            assert(trimmed(views(record@)).take(i + 1) =~= trimmed(views(record@)).take(
                i as int,
            ).push(trim_spec(record@[i as int]@)));
        }
    }
    proof {
        assert(trimmed(views(record@)).take(n as int) =~= trimmed(views(record@)));
    }
    out
}

/// Each field of each record, trimmed.
fn trim_records(records: &Vec<Vec<String>>) -> (r: Vec<Vec<String>>)
    ensures
        rows_view(r@) == trimmed_rows(records@),
{
    let n = records.len();
    let mut data: Vec<Vec<String>> = Vec::new();
    for i in 0..n
        invariant
            n == records@.len(),
            data@.len() == i,
            forall|k: int| 0 <= k < i ==> views(#[trigger] data@[k]@) == trimmed(
                views(records@[k]@),
            ),
    {
        data.push(record_to_vec(&records[i]));
    }
    proof {
        assert(rows_view(data@) =~= trimmed_rows(records@));
    }
    data
}

/// The header record that the `csv` crate's default `Reader` reads from `bytes` (its
/// `headers()`), field by field; `None` when it reports an error.
pub uninterp spec fn csv_header_record(bytes: Seq<u8>) -> Option<Seq<Seq<char>>>;

/// The records that the `csv` crate's default `Reader` reads from `bytes` after the header
/// record (its `records()`), field by field; `None` when it reports an error for any of them.
pub uninterp spec fn csv_data_records(bytes: Seq<u8>) -> Option<Seq<Seq<Seq<char>>>>;

/// Reads CSV text with `csv::Reader::from_reader`: first `headers()`, then every record of
/// `records()` up to the first error. The contract claims that each part depends on the bytes
/// alone (named `csv_header_record` and `csv_data_records`); the CSV grammar is not restated.
#[verifier::external_body]
fn csv_from_bytes(bytes: &[u8]) -> (r: (Option<Vec<String>>, Option<Vec<Vec<String>>>))
    ensures
        match r.0 {
            Some(h) => csv_header_record(bytes@) == Some(views(h@)),
            None => csv_header_record(bytes@) is None,
        },
        match r.1 {
            Some(rs) => csv_data_records(bytes@) == Some(rows_view(rs@)),
            None => csv_data_records(bytes@) is None,
        },
{
    let mut rdr = csv::Reader::from_reader(bytes);
    let headers = rdr.headers().ok().map(|h| h.iter().map(|f| f.to_owned()).collect());
    let records = rdr
        .records()
        .map(|rec| rec.ok().map(|row| row.iter().map(|f| f.to_owned()).collect()))
        .collect();
    (headers, records)
}

/// Where a CSV table is read from.
#[derive(Debug)]
pub struct CsvReaderBuilder {
    pub file_path: String,
}

/// A CSV table: the file it comes from, the schema definition it is checked against, and what
/// was read from it.
#[derive(Debug)]
pub struct CsvReader {
    file: String,
    schema_definition: Vec<FieldSchema>,
    headers: Headers,
    data: Data,
    data_size: (usize, usize),
    schema: Schema,
    report: IssueLog,
}

impl CsvReaderBuilder {
    /// A reader for `file` with the given schema definition; nothing is read yet.
    pub fn parse(file: String, schema_definition: Vec<FieldSchema>) -> (r: CsvReader)
        ensures
            r.file_view() == file@,
            r.definition() == views(schema_definition@),
            r.headers_view() == Seq::<Seq<char>>::empty(),
            r.data_view() == Seq::<Seq<(PrimValue, (usize, usize))>>::empty(),
            r.size() == (0usize, 0usize),
            r.schema_view() == Seq::<(Seq<char>, Seq<char>)>::empty(),
            r.issues() == Map::<ErrorKind, Seq<InfoView>>::empty(),
    {
        CsvReader {
            file,
            schema_definition,
            headers: Headers::empty(),
            data: Data::empty(),
            data_size: (0, 0),
            schema: Schema::empty(),
            report: IssueLog::new(),
        }
    }
}

impl Default for CsvReader {
    /// A reader with no source, no schema definition, and nothing read.
    fn default() -> (r: Self)
        ensures
            r.file_view() == Seq::<char>::empty(),
            r.definition() == Seq::<(Seq<char>, Seq<char>)>::empty(),
            r.headers_view() == Seq::<Seq<char>>::empty(),
            r.data_view() == Seq::<Seq<(PrimValue, (usize, usize))>>::empty(),
            r.size() == (0usize, 0usize),
            r.schema_view() == Seq::<(Seq<char>, Seq<char>)>::empty(),
            r.issues() == Map::<ErrorKind, Seq<InfoView>>::empty(),
    {
        let r = CsvReader {
            file: String::new(),
            schema_definition: Vec::new(),
            headers: Headers::empty(),
            data: Data::empty(),
            data_size: (0, 0),
            schema: Schema::empty(),
            report: IssueLog::new(),
        };
        proof {
            assert(views(r.schema_definition@) =~= Seq::<(Seq<char>, Seq<char>)>::empty());
        }
        r
    }
}

impl CsvReader {
    pub closed spec fn file_view(&self) -> Seq<char> {
        self.file@
    }

    pub closed spec fn definition(&self) -> Seq<(Seq<char>, Seq<char>)> {
        views(self.schema_definition@)
    }

    pub closed spec fn headers_view(&self) -> Seq<Seq<char>> {
        self.headers@
    }

    pub closed spec fn data_view(&self) -> Seq<Seq<(PrimValue, (usize, usize))>> {
        self.data@
    }

    pub closed spec fn size(&self) -> (usize, usize) {
        self.data_size
    }

    pub closed spec fn schema_view(&self) -> Seq<(Seq<char>, Seq<char>)> {
        self.schema@
    }

    pub closed spec fn issues(&self) -> Map<ErrorKind, Seq<InfoView>> {
        self.report@
    }

    /// The file the table is read from.
    pub fn file(&self) -> (r: &String)
        ensures
            r@ == self.file_view(),
    {
        &self.file
    }

    /// Checks the header record (each field trimmed) and then the schema definition against
    /// the headers.
    pub fn prepare(&self, raw_headers: &Vec<String>) -> (r: Result<(Headers, Schema), APIError>)
        ensures
            ({
                let hs = trimmed(views(raw_headers@));
                match r {
                    Ok((h, s)) => {
                        &&& headers_valid(hs)
                        &&& schema_valid(self.definition(), hs)
                        &&& h@ == hs
                        &&& s@ == self.definition()
                    },
                    Err(APIError::BadHeaders(info)) => !headers_valid(hs) && header_report(
                        info,
                        hs,
                    ),
                    Err(APIError::BadSchema(info)) => {
                        &&& headers_valid(hs)
                        &&& !schema_valid(self.definition(), hs)
                        &&& schema_report(info, self.definition(), hs)
                    },
                    Err(_) => false,
                }
            }),
    {
        let vec_headers = record_to_vec(raw_headers);
        let headers = Headers::parse(vec_headers)?;
        let schema = Schema::parse(copy_definition(&self.schema_definition), &headers)?;
        Ok((headers, schema))
    }

    /// Reads the header record and the records of CSV text: refused with `FailedToRead` when
    /// the header record cannot be read, then as `prepare` refuses the trimmed headers or the
    /// schema definition, then with `FailedToReadCsv` when a record cannot be read; otherwise
    /// the header record and the records as read.
    pub fn read_csv_bytes(&self, bytes: &[u8]) -> (r: Result<(Vec<String>, Vec<Vec<String>>), APIError>)
        ensures
            match csv_header_record(bytes@) {
                None => r == Err::<(Vec<String>, Vec<Vec<String>>), APIError>(
                    APIError::FailedToRead,
                ),
                Some(h) => {
                    let hs = trimmed(h);
                    let def = self.definition();
                    if !headers_valid(hs) {
                        r matches Err(APIError::BadHeaders(info)) && header_report(info, hs)
                    } else if !schema_valid(def, hs) {
                        r matches Err(APIError::BadSchema(info)) && schema_report(info, def, hs)
                    } else {
                        match csv_data_records(bytes@) {
                            None => r == Err::<(Vec<String>, Vec<Vec<String>>), APIError>(
                                APIError::FailedToReadCsv,
                            ),
                            Some(recs) => r matches Ok((hv, rv)) && views(hv@) == h && rows_view(
                                rv@,
                            ) == recs,
                        }
                    }
                },
            },
    {
        let (headers, records) = csv_from_bytes(bytes);
        let raw = match headers {
            Some(h) => h,
            None => {
                return Err(APIError::FailedToRead);
            },
        };
        let checked = self.prepare(&raw);
        match checked {
            Err(e) => {
                return Err(e);
            },
            Ok(_) => {},
        }
        match records {
            None => Err(APIError::FailedToReadCsv),
            Some(rs) => Ok((raw, rs)),
        }
    }

    /// Reads a table from its header record and records (each field trimmed): checks the
    /// headers, then the schema definition against them, then types the records, records the
    /// issues found and keeps headers, schema, data and size. On any refusal nothing changes.
    pub fn read_records(
        &mut self,
        raw_headers: &Vec<String>,
        records: Vec<Vec<String>>,
        numbers: &Vec<Vec<NumberReading>>,
    ) -> (r: Result<(), APIError>)
        requires
            ({
                let hs = trimmed(views(raw_headers@));
                headers_valid(hs) && schema_valid(old(self).definition(), hs) ==> table_defined(
                    trimmed_rows(records@),
                    hs,
                    old(self).definition(),
                    numbers_view(numbers@),
                )
            }),
        ensures
            ({
                let hs = trimmed(views(raw_headers@));
                let def = old(self).definition();
                &&& final(self).file_view() == old(self).file_view()
                &&& final(self).definition() == def
                &&& r is Err ==> {
                    &&& final(self).headers_view() == old(self).headers_view()
                    &&& final(self).data_view() == old(self).data_view()
                    &&& final(self).size() == old(self).size()
                    &&& final(self).schema_view() == old(self).schema_view()
                    &&& final(self).issues() == old(self).issues()
                }
                &&& if !headers_valid(hs) {
                    r matches Err(APIError::BadHeaders(info)) && header_report(info, hs)
                } else if !schema_valid(def, hs) {
                    r matches Err(APIError::BadSchema(info)) && schema_report(info, def, hs)
                } else if records@.len() == 0 {
                    r == Err::<(), APIError>(APIError::NoData)
                } else {
                    let out = table_outcome(trimmed_rows(records@), hs, def, numbers_view(numbers@));
                    &&& r is Ok
                    &&& final(self).headers_view() == hs
                    &&& final(self).schema_view() == def
                    &&& final(self).data_view() == out.0
                    &&& final(self).size() == (records@.len() as usize, hs.len() as usize)
                    &&& final(self).issues() == with_issues(old(self).issues(), out.1)
                }
            }),
    {
        let (headers, schema) = self.prepare(raw_headers)?;
        self.load(headers, schema, records, numbers)
    }

    /// True when the records (each field trimmed) can be typed under the headers and schema
    /// without failing: what `load` requires.
    pub fn records_typeable(
        &self,
        headers: &Headers,
        schema: &Schema,
        records: &Vec<Vec<String>>,
        numbers: &Vec<Vec<NumberReading>>,
    ) -> (r: bool)
        ensures
            r == table_defined(trimmed_rows(records@), headers@, schema@, numbers_view(numbers@)),
    {
        let data = trim_records(records);
        typeable(&data, headers.as_ref().as_slice(), schema, numbers)
    }

    /// Types the records (each field trimmed) under the headers and schema, records the issues
    /// found, and keeps headers, schema, data and size. Without records nothing changes and
    /// `NoData` is returned.
    pub fn load(
        &mut self,
        headers: Headers,
        schema: Schema,
        records: Vec<Vec<String>>,
        numbers: &Vec<Vec<NumberReading>>,
    ) -> (r: Result<(), APIError>)
        requires
            table_defined(
                trimmed_rows(records@),
                headers@,
                schema@,
                numbers_view(numbers@),
            ),
        ensures
            final(self).file_view() == old(self).file_view(),
            final(self).definition() == old(self).definition(),
            records@.len() == 0 ==> {
                &&& r == Err::<(), APIError>(APIError::NoData)
                &&& final(self).headers_view() == old(self).headers_view()
                &&& final(self).data_view() == old(self).data_view()
                &&& final(self).size() == old(self).size()
                &&& final(self).schema_view() == old(self).schema_view()
                &&& final(self).issues() == old(self).issues()
            },
            records@.len() > 0 ==> {
                let out = table_outcome(
                    trimmed_rows(records@),
                    headers@,
                    schema@,
                    numbers_view(numbers@),
                );
                &&& r is Ok
                &&& final(self).headers_view() == headers@
                &&& final(self).schema_view() == schema@
                &&& final(self).data_view() == out.0
                &&& final(self).size() == (records@.len() as usize, headers@.len() as usize)
                &&& final(self).issues() == with_issues(old(self).issues(), out.1)
            },
    {
        let data = trim_records(&records);
        let (data, data_report) = match Data::parse(data, headers.as_ref(), &schema, numbers) {
            Ok(x) => x,
            Err(e) => {
                return Err(e);
            },
        };
        self.report.add_all(data_report);
        let row_count = data.as_ref().len();
        let col_count = headers.as_ref().len();
        proof {
            crate::domain::data::lemma_table_outcome_len(
                trimmed_rows(records@),
                headers@,
                schema@,
                numbers_view(numbers@),
            );
            assert(row_count == data@.len());
            assert(col_count == headers@.len());
        }
        self.headers = headers;
        self.data = data;
        self.data_size = (row_count, col_count);
        self.schema = schema;
        Ok(())
    }

    /// The schema definition the table is checked against.
    pub fn schema_definition(&self) -> (r: &Vec<FieldSchema>)
        ensures
            views(r@) == self.definition(),
    {
        &self.schema_definition
    }

    /// The schema the data was typed with.
    pub fn get_schema(&self) -> (r: &Schema)
        ensures
            r@ == self.schema_view(),
    {
        &self.schema
    }

    /// The typed cells, row by row.
    pub fn get_data(&self) -> (r: &Vec<Vec<Cell>>)
        ensures
            r@.map_values(|row: Vec<Cell>| views(row@)) == self.data_view(),
    {
        self.data.as_ref()
    }

    /// The cell at position `col` of row `row`, if there is one.
    pub fn get_data_at(&self, row: usize, col: usize) -> (r: Option<&Cell>)
        ensures
            match r {
                Some(c) => row < self.data_view().len() && col < self.data_view()[row as int].len()
                    && c@ == self.data_view()[row as int][col as int],
                None => !(row < self.data_view().len() && col < self.data_view()[row as int].len()),
            },
    {
        let d = self.data.as_ref();
        if row < d.len() && col < d[row].len() {
            proof {
                assert(views(d@[row as int]@) == self.data_view()[row as int]);
                assert(views(d@[row as int]@)[col as int] == d@[row as int]@[col as int]@);
            }
            Some(&d[row][col])
        } else {
            proof {
                if row < d@.len() {
                    assert(views(d@[row as int]@) == self.data_view()[row as int]);
                }
            }
            None
        }
    }

    /// The headers, in column order.
    pub fn get_headers(&self) -> (r: &Vec<String>)
        ensures
            views(r@) == self.headers_view(),
    {
        self.headers.as_ref()
    }

    /// The number of data rows and of columns.
    pub fn data_size(&self) -> (r: (usize, usize))
        ensures
            r == self.size(),
    {
        self.data_size
    }

    /// Records an issue of kind `error_type` after those already recorded for that kind.
    pub fn add_issue(&mut self, error_type: ReportError, error_info: ReportInfo)
        ensures
            final(self).issues() == old(self).issues().insert(
                error_type@,
                issues_of(old(self).issues(), error_type@).push(error_info@),
            ),
            final(self).file_view() == old(self).file_view(),
            final(self).definition() == old(self).definition(),
            final(self).headers_view() == old(self).headers_view(),
            final(self).data_view() == old(self).data_view(),
            final(self).size() == old(self).size(),
            final(self).schema_view() == old(self).schema_view(),
    {
        self.report.add_issue(error_type, error_info);
    }

    /// The issues found, by kind.
    pub fn get_issues(&self) -> (r: &IssueLog)
        ensures
            r@ == self.issues(),
    {
        &self.report
    }
}

} // verus!
