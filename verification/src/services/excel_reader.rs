//! A table read from a spreadsheet: headers, schema, typed data and the issues found.

use vstd::prelude::*;

use crate::domain::cell::Cell;
use crate::domain::data::{
    lemma_table_outcome_len, numbers_view, position_message, position_text, rows_view,
    table_defined, table_outcome, typeable, Data, NumberReading, NumberView,
};
use crate::domain::error::APIError;
use crate::domain::headers::{header_report, headers_valid, Headers};
use crate::domain::primitive_types::{value_text, PrimValue};
use crate::domain::report::{
    issues_of, lemma_with_issues_append, with_issues, ErrorKind, InfoView, IssueLog, ReportError,
    ReportInfo,
};
use crate::domain::schema::{copy_definition, schema_report, schema_valid, FieldSchema, Schema};
use crate::utils::views;

verus! {

/// A spreadsheet cell as the reader sees it: its text, or a cell holding a spreadsheet error.
#[derive(Debug, Clone, PartialEq)]
pub enum SheetCell {
    Text(String),
    Error,
}

impl View for SheetCell {
    type V = Option<Seq<char>>;

    open spec fn view(&self) -> Option<Seq<char>> {
        match self {
            SheetCell::Text(s) => Some(s@),
            SheetCell::Error => None,
        }
    }
}

/// The cells of each row.
pub open spec fn sheet_view(rows: Seq<Vec<SheetCell>>) -> Seq<Seq<Option<Seq<char>>>> {
    rows.map_values(|r: Vec<SheetCell>| views(r@))
}

/// The text of each cell (nothing for an error cell).
pub open spec fn sheet_texts(rows: Seq<Seq<Option<Seq<char>>>>) -> Seq<Seq<Seq<char>>> {
    rows.map_values(
        |r: Seq<Option<Seq<char>>>|
            r.map_values(
                |c: Option<Seq<char>>|
                    match c {
                        Some(t) => t,
                        None => Seq::empty(),
                    },
            ),
    )
}

/// The position of the first error cell of a row.
pub open spec fn first_error_in_row(row: Seq<Option<Seq<char>>>) -> Option<usize>
    decreases row.len(),
{
    if row.len() == 0 {
        None
    } else {
        match first_error_in_row(row.drop_last()) {
            Some(j) => Some(j),
            None => if row.last() is None {
                Some((row.len() - 1) as usize)
            } else {
                None
            },
        }
    }
}

/// The position (row, column) of the first error cell, rows in order.
pub open spec fn first_error(rows: Seq<Seq<Option<Seq<char>>>>) -> Option<(usize, usize)>
    decreases rows.len(),
{
    if rows.len() == 0 {
        None
    } else {
        match first_error(rows.drop_last()) {
            Some(p) => Some(p),
            None => match first_error_in_row(rows.last()) {
                Some(j) => Some(((rows.len() - 1) as usize, j)),
                None => None,
            },
        }
    }
}

/// The issue recorded for an error cell at (`ii`, `jj`).
pub open spec fn error_cell_issue(ii: usize, jj: usize) -> InfoView {
    InfoView {
        start: (ii, jj),
        end: (ii, jj),
        val: Seq::empty(),
        context: "Unexpected error at "@ + position_text(ii, jj)
            + ". Could not determine data type."@,
    }
}

/// The issue recorded for a merged region, given as 1-based start and end rows (the header
/// row being row 0) and 0-based columns, over the typed data.
pub open spec fn merged_issue(
    region: ((u32, u32), (u32, u32)),
    data: Seq<Seq<(PrimValue, (usize, usize))>>,
) -> (ErrorKind, InfoView) {
    let start = ((region.0.0 - 1) as usize, region.0.1 as usize);
    let end = ((region.1.0 - 1) as usize, region.1.1 as usize);
    (
        ErrorKind::MergedCells,
        InfoView {
            start,
            end,
            val: value_text(data[start.0 as int][start.1 as int].0),
            context: "Merged cell at "@ + position_text(start.0, start.1) + " to "@
                + position_text(end.0, end.1),
        },
    )
}

/// The issue recorded for a merged region is a merged-cell issue that runs from the region's
/// first cell to its own last cell (rows counted from the first data row, so one less than the
/// sheet's rows; columns as they are), says so in its message, and shows the text of the
/// region's first cell.
pub proof fn lemma_merged_issue_span(
    region: ((u32, u32), (u32, u32)),
    data: Seq<Seq<(PrimValue, (usize, usize))>>,
)
    requires
        region.0.0 >= 1,
        region.1.0 >= 1,
    ensures
        merged_issue(region, data).0 == ErrorKind::MergedCells,
        merged_issue(region, data).1.start == ((region.0.0 - 1) as usize, region.0.1 as usize),
        merged_issue(region, data).1.end == ((region.1.0 - 1) as usize, region.1.1 as usize),
        merged_issue(region, data).1.end.1 == region.1.1,
        merged_issue(region, data).1.context == "Merged cell at "@ + position_text(
            (region.0.0 - 1) as usize,
            region.0.1 as usize,
        ) + " to "@ + position_text((region.1.0 - 1) as usize, region.1.1 as usize),
        merged_issue(region, data).1.val == value_text(
            data[region.0.0 - 1][region.0.1 as int].0,
        ),
{
}

/// A merged region lies below the header row and starts at a typed cell.
pub open spec fn region_in_data(
    region: ((u32, u32), (u32, u32)),
    data: Seq<Seq<(PrimValue, (usize, usize))>>,
) -> bool {
    &&& region.0.0 >= 1
    &&& region.1.0 >= 1
    &&& region.0.0 - 1 < data.len()
    &&& region.0.1 < data[region.0.0 - 1].len()
}

/// Where a cell at position `cell` (relative to the range's start `start`) lands once row
/// `removed` is taken out: nowhere for a cell of that row; rows below move up by one; the
/// result is an absolute position.
pub open spec fn shifted_position(start: (u32, u32), cell: (usize, usize), removed: usize) -> Option<
    (u32, u32),
> {
    if cell.0 == removed {
        None
    } else {
        let row = if cell.0 > removed {
            cell.0 - 1
        } else {
            cell.0 as int
        };
        Some(((start.0 + row) as u32, (start.1 + cell.1) as u32))
    }
}

/// The absolute positions fit in a `u32` once row `removed` is taken out.
pub open spec fn shift_fits(start: (u32, u32), cell: (usize, usize), removed: usize) -> bool {
    cell.0 != removed ==> {
        &&& start.0 + (if cell.0 > removed {
            cell.0 - 1
        } else {
            cell.0 as int
        }) <= u32::MAX
        &&& start.1 + cell.1 <= u32::MAX
    }
}

/// The new positions of the cells of a range (positions relative to its start `start`) when
/// row `removed` is taken out: `None` for the cells of that row, the shifted absolute position
/// for the others.
pub fn shift_positions(start: (u32, u32), cells: &Vec<(usize, usize)>, removed: usize) -> (r: Vec<
    Option<(u32, u32)>,
>)
    requires
        forall|k: int| 0 <= k < cells@.len() ==> shift_fits(start, #[trigger] cells@[k], removed),
    ensures
        r@.len() == cells@.len(),
        forall|k: int|
            0 <= k < cells@.len() ==> #[trigger] r@[k] == shifted_position(
                start,
                cells@[k],
                removed,
            ),
{
    let mut out: Vec<Option<(u32, u32)>> = Vec::new();
    let n = cells.len();
    for i in 0..n
        invariant
            n == cells@.len(),
            out@.len() == i,
            forall|k: int| 0 <= k < cells@.len() ==> shift_fits(start, #[trigger] cells@[k], removed),
            forall|k: int|
                0 <= k < i ==> #[trigger] out@[k] == shifted_position(start, cells@[k], removed),
    {
        let (row, col) = cells[i];
        proof {
            assert(shift_fits(start, cells@[i as int], removed));
        }
        if row == removed {
            out.push(None);
        } else {
            let shifted = if row > removed {
                row - 1
            } else {
                row
            };
            out.push(Some((start.0 + shifted as u32, start.1 + col as u32)));
        }
    }
    out
}

/// A sheet whose typed cells give the issues `out.1` and whose merged regions are then
/// recorded ends with the issues it had before, then those of its cells in reading order, then
/// one merged-cell issue per region in order, each showing the text of the region's first
/// typed cell.
pub proof fn lemma_sheet_then_regions(
    before: Map<ErrorKind, Seq<InfoView>>,
    texts: Seq<Seq<Seq<char>>>,
    hs: Seq<Seq<char>>,
    def: Seq<(Seq<char>, Seq<char>)>,
    nums: Seq<Seq<NumberView>>,
    regions: Seq<((u32, u32), (u32, u32))>,
)
    ensures
        ({
            let out = table_outcome(texts, hs, def, nums);
            let merged = regions.map_values(
                |g: ((u32, u32), (u32, u32))| merged_issue(g, out.0),
            );
            with_issues(with_issues(before, out.1), merged) == with_issues(before, out.1 + merged)
        }),
{
    let out = table_outcome(texts, hs, def, nums);
    let merged = regions.map_values(|g: ((u32, u32), (u32, u32))| merged_issue(g, out.0));
    lemma_with_issues_append(before, out.1, merged);
}

/// A copy of a list of texts.
fn copy_texts(v: &Vec<String>) -> (r: Vec<String>)
    ensures
        views(r@) == views(v@),
{
    let mut r: Vec<String> = Vec::new();
    let n = v.len();
    for i in 0..n
        invariant
            n == v@.len(),
            views(r@) == views(v@).take(i as int),
    {
        let ghost before = views(r@);
        r.push(v[i].clone());
        proof {
            assert(views(r@) =~= before.push(v@[i as int]@));
            assert(views(v@).take(i + 1) =~= views(v@).take(i as int).push(v@[i as int]@));
        }
    }
    proof {
        assert(views(v@).take(n as int) =~= views(v@));
    }
    r
}

/// The texts of the cells, row by row, when no cell is an error cell; `None` otherwise.
fn sheet_text_rows(rows: &Vec<Vec<SheetCell>>) -> (r: Result<Vec<Vec<String>>, (usize, usize)>)
    ensures
        match r {
            Ok(t) => first_error(sheet_view(rows@)) is None && rows_view(t@) == sheet_texts(
                sheet_view(rows@),
            ),
            Err(p) => first_error(sheet_view(rows@)) == Some(p),
        },
{
    let ghost cells = sheet_view(rows@);
    let ghost texts = sheet_texts(cells);
    let n = rows.len();
    let mut data: Vec<Vec<String>> = Vec::new();
    for ii in 0..n
        invariant
            n == rows@.len(),
            cells == sheet_view(rows@),
            texts == sheet_texts(cells),
            data@.len() == ii,
            first_error(cells.take(ii as int)) is None,
            forall|k: int| 0 <= k < ii ==> views(#[trigger] data@[k]@) == texts[k],
    {
        let row = &rows[ii];
        let m = row.len();
        let ghost rv = cells[ii as int];
        let mut cells_text: Vec<String> = Vec::new();
        proof {
            assert(rv == views(row@));
            assert(cells.take(ii + 1).drop_last() =~= cells.take(ii as int));
            assert(cells.take(ii + 1).last() == rv);
        }
        for jj in 0..m
            invariant
                m == row@.len(),
                ii < n,
                n == rows@.len(),
                row == rows@[ii as int],
                cells == sheet_view(rows@),
                texts == sheet_texts(cells),
                rv == cells[ii as int],
                rv == views(row@),
                first_error(cells.take(ii as int)) is None,
                first_error_in_row(rv.take(jj as int)) is None,
                views(cells_text@) == texts[ii as int].take(jj as int),
        {
            proof {
                assert(rv.take(jj + 1).drop_last() =~= rv.take(jj as int));
                assert(rv.take(jj + 1).last() == rv[jj as int]);
            }
            match &rows[ii][jj] {
                SheetCell::Text(s) => {
                    let ghost before = views(cells_text@);
                    cells_text.push(s.clone());
                    proof {
                        assert(views(cells_text@) =~= before.push(s@));
                        assert(texts[ii as int].take(jj + 1) =~= texts[ii as int].take(
                            jj as int,
                        ).push(s@));
                    }
                },
                SheetCell::Error => {
                    proof {
                        assert(first_error_in_row(rv.take(jj + 1)) == Some(jj));
                        lemma_first_error_prefix(cells, ii as int, jj);
                    }
                    return Err((ii, jj));
                },
            }
        }
        proof {
            assert(rv.take(m as int) =~= rv);
            assert(texts[ii as int].take(m as int) =~= texts[ii as int]);
            assert(first_error(cells.take(ii + 1)) is None);
        }
        data.push(cells_text);
    }
    proof {
        assert(cells.take(n as int) =~= cells);
        assert(rows_view(data@) =~= texts);
    }
    Ok(data)
}

/// Where a spreadsheet table is read from: the workbook and the sheet.
#[derive(Debug)]
pub struct ExcelReaderBuilder {
    pub db: String,
    pub sheet: String,
}

/// A spreadsheet table: the workbook and sheet it comes from, the schema definition it is
/// checked against, and what was read from it.
#[derive(Debug)]
pub struct ExcelReader {
    db: String,
    sheet: String,
    schema_definition: Vec<FieldSchema>,
    headers: Headers,
    data: Data,
    data_size: (usize, usize),
    schema: Schema,
    report: IssueLog,
}

impl ExcelReaderBuilder {
    /// A reader for sheet `sheet` of workbook `db` with the given schema definition; nothing is
    /// read yet.
    pub fn parse(db: String, sheet: String, schema_definition: Vec<FieldSchema>) -> (r:
        ExcelReader)
        ensures
            r.db_view() == db@,
            r.sheet_view() == sheet@,
            r.definition() == views(schema_definition@),
            r.headers_view() == Seq::<Seq<char>>::empty(),
            r.data_view() == Seq::<Seq<(PrimValue, (usize, usize))>>::empty(),
            r.size() == (0usize, 0usize),
            r.schema_view() == Seq::<(Seq<char>, Seq<char>)>::empty(),
            r.issues() == Map::<ErrorKind, Seq<InfoView>>::empty(),
    {
        ExcelReader {
            db,
            sheet,
            schema_definition,
            headers: Headers::empty(),
            data: Data::empty(),
            data_size: (0, 0),
            schema: Schema::empty(),
            report: IssueLog::new(),
        }
    }
}

impl Default for ExcelReader {
    /// A reader with no source, no schema definition, and nothing read.
    fn default() -> (r: Self)
        ensures
            r.db_view() == Seq::<char>::empty(),
            r.sheet_view() == Seq::<char>::empty(),
            r.definition() == Seq::<(Seq<char>, Seq<char>)>::empty(),
            r.headers_view() == Seq::<Seq<char>>::empty(),
            r.data_view() == Seq::<Seq<(PrimValue, (usize, usize))>>::empty(),
            r.size() == (0usize, 0usize),
            r.schema_view() == Seq::<(Seq<char>, Seq<char>)>::empty(),
            r.issues() == Map::<ErrorKind, Seq<InfoView>>::empty(),
    {
        let r = ExcelReader {
            db: String::new(),
            sheet: String::new(),
            schema_definition: Vec::new(),
            headers: Headers::empty(),
            data: Data::empty(),
            data_size: (0, 0),
            schema: Schema::empty(),
            report: IssueLog::new(),
        };
        proof {
            assert(views(r.schema_definition@) =~= Seq::<(Seq<char>, Seq<char>)>::empty());
        }
        r
    }
}

impl ExcelReader {
    pub closed spec fn db_view(&self) -> Seq<char> {
        self.db@
    }

    pub closed spec fn sheet_view(&self) -> Seq<char> {
        self.sheet@
    }

    pub closed spec fn definition(&self) -> Seq<(Seq<char>, Seq<char>)> {
        views(self.schema_definition@)
    }

    pub closed spec fn headers_view(&self) -> Seq<Seq<char>> {
        self.headers@
    }

    pub closed spec fn data_view(&self) -> Seq<Seq<(PrimValue, (usize, usize))>> {
        self.data@
    }

    pub closed spec fn size(&self) -> (usize, usize) {
        self.data_size
    }

    pub closed spec fn schema_view(&self) -> Seq<(Seq<char>, Seq<char>)> {
        self.schema@
    }

    pub closed spec fn issues(&self) -> Map<ErrorKind, Seq<InfoView>> {
        self.report@
    }

    /// Everything but the issues is the same in `self` and `other`.
    pub open spec fn same_table(&self, other: &Self) -> bool {
        &&& self.db_view() == other.db_view()
        &&& self.sheet_view() == other.sheet_view()
        &&& self.definition() == other.definition()
        &&& self.headers_view() == other.headers_view()
        &&& self.data_view() == other.data_view()
        &&& self.size() == other.size()
        &&& self.schema_view() == other.schema_view()
    }

    /// The workbook the table is read from.
    pub fn db(&self) -> (r: &String)
        ensures
            r@ == self.db_view(),
    {
        &self.db
    }

    /// The sheet the table is read from.
    pub fn sheet(&self) -> (r: &String)
        ensures
            r@ == self.sheet_view(),
    {
        &self.sheet
    }

    /// Reads a sheet: `height` is the number of rows including the header row, `headers` the
    /// header row if there is one, `rows` the cells below it, and `size` the (rows, columns)
    /// of the cells below the header row. An empty sheet, a missing header row, bad headers, a
    /// schema definition that does not fit them, an error cell (which is also recorded as an
    /// issue) and a sheet without data rows are refused in that order; otherwise the cells
    /// are typed, the issues recorded and the table kept.
    pub fn load_sheet(
        &mut self,
        height: usize,
        headers: Option<Vec<String>>,
        rows: Vec<Vec<SheetCell>>,
        numbers: &Vec<Vec<NumberReading>>,
        size: (usize, usize),
    ) -> (r: Result<(), APIError>)
        requires
            match headers {
                Some(h) => {
                    headers_valid(views(h@)) && schema_valid(old(self).definition(), views(h@))
                        && first_error(sheet_view(rows@)) is None ==> table_defined(
                        sheet_texts(sheet_view(rows@)),
                        views(h@),
                        old(self).definition(),
                        numbers_view(numbers@),
                    )
                },
                None => true,
            },
        ensures
            final(self).same_table(old(self)) || r is Ok,
            height == 0 ==> r == Err::<(), APIError>(APIError::EmptyFile) && final(self).issues()
                == old(self).issues(),
            height > 0 && headers is None ==> r == Err::<(), APIError>(APIError::UnexpectedError)
                && final(self).issues() == old(self).issues(),
            height > 0 && headers is Some ==> ({
                let hs = views(headers.unwrap()@);
                let def = old(self).definition();
                let cells = sheet_view(rows@);
                if !headers_valid(hs) {
                    &&& r matches Err(APIError::BadHeaders(info)) && header_report(info, hs)
                    &&& final(self).issues() == old(self).issues()
                } else if !schema_valid(def, hs) {
                    &&& r matches Err(APIError::BadSchema(info)) && schema_report(info, def, hs)
                    &&& final(self).issues() == old(self).issues()
                } else if first_error(cells) is Some {
                    let p = first_error(cells).unwrap();
                    &&& r == Err::<(), APIError>(APIError::UnexpectedError)
                    &&& final(self).issues() == old(self).issues().insert(
                        ErrorKind::UnexpectedError,
                        issues_of(old(self).issues(), ErrorKind::UnexpectedError).push(
                            error_cell_issue(p.0, p.1),
                        ),
                    )
                } else if rows@.len() == 0 {
                    &&& r == Err::<(), APIError>(APIError::NoData)
                    &&& final(self).issues() == old(self).issues()
                } else {
                    let out = table_outcome(sheet_texts(cells), hs, def, numbers_view(numbers@));
                    &&& r is Ok
                    &&& final(self).db_view() == old(self).db_view()
                    &&& final(self).sheet_view() == old(self).sheet_view()
                    &&& final(self).definition() == def
                    &&& final(self).headers_view() == hs
                    &&& final(self).schema_view() == def
                    &&& final(self).data_view() == out.0
                    &&& final(self).size() == size
                    &&& final(self).issues() == with_issues(old(self).issues(), out.1)
                }
            }),
    {
        if height == 0 {
            return Err(APIError::EmptyFile);
        }
        let raw_headers = match headers {
            Some(h) => h,
            None => {
                return Err(APIError::UnexpectedError);
            },
        };
        let ghost hs = views(raw_headers@);
        let parsed_headers = Headers::parse(raw_headers)?;
        let schema = Schema::parse(copy_definition(&self.schema_definition), &parsed_headers)?;
        let ghost cells = sheet_view(rows@);
        let ghost texts = sheet_texts(cells);
        let data = match sheet_text_rows(&rows) {
            Ok(t) => t,
            Err((ii, jj)) => {
                let mut context = position_message("Unexpected error at ", ii, jj);
                context.append(". Could not determine data type.");
                let info = ReportInfo::new((ii, jj), (ii, jj), String::new(), context);
                proof {
                    assert(info@ == error_cell_issue(ii, jj));
                }
                self.report.add_issue(ReportError::UnexpectedError, info);
                return Err(APIError::UnexpectedError);
            },
        };
        let (data, report_tmp) = match Data::parse(data, parsed_headers.as_ref(), &schema, numbers) {
            Ok(x) => x,
            Err(e) => {
                return Err(e);
            },
        };
        self.report.add_all(report_tmp);
        proof {
            lemma_table_outcome_len(texts, hs, views(self.schema_definition@), numbers_view(numbers@));
        }
        self.headers = parsed_headers;
        self.data = data;
        self.data_size = size;
        self.schema = schema;
        Ok(())
    }

    /// True when `load_sheet` may be called with these headers, rows and number readings: if
    /// there is a header row that is accepted, a schema definition that fits it and no error
    /// cell, the cells' texts can be typed without failing.
    pub fn sheet_typeable(
        &self,
        headers: &Option<Vec<String>>,
        rows: &Vec<Vec<SheetCell>>,
        numbers: &Vec<Vec<NumberReading>>,
    ) -> (r: bool)
        ensures
            r == match headers {
                Some(h) => {
                    headers_valid(views(h@)) && schema_valid(self.definition(), views(h@))
                        && first_error(sheet_view(rows@)) is None ==> table_defined(
                        sheet_texts(sheet_view(rows@)),
                        views(h@),
                        self.definition(),
                        numbers_view(numbers@),
                    )
                },
                None => true,
            },
    {
        let h = match headers {
            Some(h) => h,
            None => {
                return true;
            },
        };
        let parsed = match Headers::parse(copy_texts(h)) {
            Ok(p) => p,
            Err(_) => {
                return true;
            },
        };
        let schema = match Schema::parse(copy_definition(&self.schema_definition), &parsed) {
            Ok(s) => s,
            Err(_) => {
                return true;
            },
        };
        match sheet_text_rows(rows) {
            Err(_) => true,
            Ok(texts) => typeable(&texts, h.as_slice(), &schema, numbers),
        }
    }

    /// Records an issue for each merged region, in order: from the region's first to its last
    /// cell (rows counted from the first data row), with the text of its first cell.
    pub fn add_merged_regions(&mut self, regions: &Vec<((u32, u32), (u32, u32))>)
        requires
            forall|k: int|
                0 <= k < regions@.len() ==> region_in_data(
                    #[trigger] regions@[k],
                    old(self).data_view(),
                ),
        ensures
            final(self).same_table(old(self)),
            final(self).issues() == with_issues(
                old(self).issues(),
                regions@.map_values(
                    |g: ((u32, u32), (u32, u32))| merged_issue(g, old(self).data_view()),
                ),
            ),
    {
        let ghost all = regions@.map_values(
            |g: ((u32, u32), (u32, u32))| merged_issue(g, old(self).data_view()),
        );
        let n = regions.len();
        for k in 0..n
            invariant
                n == regions@.len(),
                all == regions@.map_values(
                    |g: ((u32, u32), (u32, u32))| merged_issue(g, old(self).data_view()),
                ),
                forall|q: int|
                    0 <= q < regions@.len() ==> region_in_data(
                        #[trigger] regions@[q],
                        old(self).data_view(),
                    ),
                self.same_table(old(self)),
                self.issues() == with_issues(old(self).issues(), all.take(k as int)),
        {
            let ((row_start, col_start), (row_end, col_end)) = regions[k];
            proof {
                assert(region_in_data(regions@[k as int], old(self).data_view()));
                assert(all.take(k + 1).drop_last() =~= all.take(k as int));
                assert(all.take(k + 1).last() == all[k as int]);
            }
            let start = ((row_start - 1) as usize, col_start as usize);
            let end = ((row_end - 1) as usize, col_end as usize);
            let d = self.data.as_ref();
            proof {
                assert(views(d@[start.0 as int]@) == self.data_view()[start.0 as int]);
            }
            let val = d[start.0][start.1].data.to_string();
            let mut context = position_message("Merged cell at ", start.0, start.1);
            context.append(" to ");
            proof {
                reveal_strlit("");
            }
            let tail = position_message("", end.0, end.1);
            context.append(tail.as_str());
            let info = ReportInfo::new(start, end, val, context);
            proof {
                assert(""@ + position_text(end.0, end.1) =~= position_text(end.0, end.1));
                assert((ReportError::MergedCells@, info@) == all[k as int]);
            }
            self.report.add_issue(ReportError::MergedCells, info);
        }
        proof {
            assert(all.take(n as int) =~= all);
        }
    }

    /// The schema definition the table is checked against.
    pub fn schema_definition(&self) -> (r: &Vec<FieldSchema>)
        ensures
            views(r@) == self.definition(),
    {
        &self.schema_definition
    }

    /// The schema the data was typed with.
    pub fn get_schema(&self) -> (r: &Schema)
        ensures
            r@ == self.schema_view(),
    {
        &self.schema
    }

    /// The typed cells, row by row.
    pub fn get_data(&self) -> (r: &Vec<Vec<Cell>>)
        ensures
            r@.map_values(|row: Vec<Cell>| views(row@)) == self.data_view(),
    {
        self.data.as_ref()
    }

    /// The cell at position `col` of row `row`, if there is one.
    pub fn get_data_at(&self, row: usize, col: usize) -> (r: Option<&Cell>)
        ensures
            match r {
                Some(c) => row < self.data_view().len() && col < self.data_view()[row as int].len()
                    && c@ == self.data_view()[row as int][col as int],
                None => !(row < self.data_view().len() && col < self.data_view()[row as int].len()),
            },
    {
        let d = self.data.as_ref();
        if row < d.len() && col < d[row].len() {
            proof {
                assert(views(d@[row as int]@) == self.data_view()[row as int]);
                assert(views(d@[row as int]@)[col as int] == d@[row as int]@[col as int]@);
            }
            Some(&d[row][col])
        } else {
            proof {
                if row < d@.len() {
                    assert(views(d@[row as int]@) == self.data_view()[row as int]);
                }
            }
            None
        }
    }

    /// The headers, in column order.
    pub fn get_headers(&self) -> (r: &Vec<String>)
        ensures
            views(r@) == self.headers_view(),
    {
        self.headers.as_ref()
    }

    /// The number of data rows and of columns.
    pub fn data_size(&self) -> (r: (usize, usize))
        ensures
            r == self.size(),
    {
        self.data_size
    }

    /// Records an issue of kind `error_type` after those already recorded for that kind.
    pub fn add_issue(&mut self, error_type: ReportError, error_info: ReportInfo)
        ensures
            final(self).issues() == old(self).issues().insert(
                error_type@,
                issues_of(old(self).issues(), error_type@).push(error_info@),
            ),
            final(self).same_table(old(self)),
    {
        self.report.add_issue(error_type, error_info);
    }

    /// The issues found, by kind.
    pub fn get_issues(&self) -> (r: &IssueLog)
        ensures
            r@ == self.issues(),
    {
        &self.report
    }
}

proof fn lemma_first_error_prefix(cells: Seq<Seq<Option<Seq<char>>>>, ii: int, jj: usize)
    requires
        0 <= ii < cells.len(),
        first_error(cells.take(ii)) is None,
        first_error_in_row(cells[ii].take(jj + 1)) == Some(jj),
        jj < cells[ii].len(),
    ensures
        first_error(cells) == Some((ii as usize, jj)),
{
    let row = cells[ii];
    lemma_row_error_extends(row, jj + 1);
    assert(row.take(jj + 1) =~= row.take(jj + 1));
    let c2 = cells.take(ii + 1);
    assert(c2.drop_last() =~= cells.take(ii));
    assert(c2.last() == row);
    assert(first_error(c2) == Some((ii as usize, jj)));
    lemma_table_error_extends(cells, ii + 1);
}

proof fn lemma_row_error_extends(r: Seq<Option<Seq<char>>>, t: int)
    requires
        0 <= t <= r.len(),
        first_error_in_row(r.take(t)) is Some,
    ensures
        first_error_in_row(r) == first_error_in_row(r.take(t)),
    decreases r.len() - t,
{
    if t == r.len() {
        assert(r.take(t) =~= r);
    } else {
        let p = r.drop_last();
        assert(p.take(t) =~= r.take(t));
        lemma_row_error_extends(p, t);
    }
}

proof fn lemma_table_error_extends(c: Seq<Seq<Option<Seq<char>>>>, t: int)
    requires
        0 <= t <= c.len(),
        first_error(c.take(t)) is Some,
    ensures
        first_error(c) == first_error(c.take(t)),
    decreases c.len() - t,
{
    if t == c.len() {
        assert(c.take(t) =~= c);
    } else {
        let p = c.drop_last();
        assert(p.take(t) =~= c.take(t));
        lemma_table_error_extends(p, t);
    }
}

} // verus!
