//! Turning the text of a table into typed cells, with a report of empty and unreadable cells.

use vstd::prelude::*;

use crate::datetime::{naive_datetime_from_str, parse_naive_datetime, DateTime};
use crate::domain::cell::{copy_rows, Cell};
use crate::domain::error::APIError;
use crate::domain::primitive_types::{PrimTypeData, PrimValue};
use crate::domain::report::{report_view, reports_view, ErrorKind, InfoView, ReportError, ReportInfo};
use crate::domain::schema::{schema_lookup, Schema};
use crate::domain::table::{cells_text, table_text};
use crate::text::{
    decimal_digits, i64_from_text, lower_text, parse_i64, text_eq, to_lowercase, trim, trim_spec,
    usize_text,
};
use crate::utils::views;

verus! {

/// How the trimmed text of a cell reads as a binary64 floating-point number: the text that
/// `f64`'s `Display` writes for it when it parses as one, and the boolean it stands for when it
/// denotes one (`true`) or zero (`false`).
#[derive(Debug, Clone, PartialEq)]
pub struct NumberReading {
    pub float_text: Option<String>,
    pub as_bool: Option<bool>,
}

/// The mathematical value of a `NumberReading`.
pub struct NumberView {
    pub float_text: Option<Seq<char>>,
    pub as_bool: Option<bool>,
}

impl View for NumberReading {
    type V = NumberView;

    open spec fn view(&self) -> NumberView {
        NumberView {
            float_text: match self.float_text {
                Some(t) => Some(t@),
                None => None,
            },
            as_bool: self.as_bool,
        }
    }
}

impl NumberReading {
    pub fn new(float_text: Option<String>, as_bool: Option<bool>) -> (r: Self)
        ensures
            r.float_text == float_text,
            r.as_bool == as_bool,
    {
        NumberReading { float_text, as_bool }
    }
}

/// The format in which date-time cells are written.
pub open spec fn datetime_format() -> Seq<char> {
    "%Y-%m-%dT%H:%M:%S"@
}

/// `"(ii,jj)"`, the position of a cell as it appears in messages.
pub open spec fn position_text(ii: usize, jj: usize) -> Seq<char> {
    "("@ + decimal_digits(ii as nat) + ","@ + decimal_digits(jj as nat) + ")"@
}

pub open spec fn opt_report_view(r: Option<(ReportError, ReportInfo)>) -> Option<
    (ErrorKind, InfoView),
> {
    match r {
        Some(x) => Some(report_view(x)),
        None => None,
    }
}

/// The value and report for a cell, from its trimmed text `t`, its lower-cased declared type
/// `ft`, its lower-cased trimmed text `lt`, how it reads as a number, and what the date-time
/// parser made of it.
pub open spec fn typed_outcome(
    t: Seq<char>,
    ft: Seq<char>,
    lt: Seq<char>,
    number: NumberView,
    dt: Option<DateTime>,
    ii: usize,
    jj: usize,
) -> (PrimValue, Option<(ErrorKind, InfoView)>) {
    if t.len() == 0 {
        (
            PrimValue::Empty,
            Some(
                (
                    ErrorKind::EmptyCell,
                    InfoView {
                        start: (ii, jj),
                        end: (ii, jj),
                        val: Seq::empty(),
                        context: "Empty cell at "@ + position_text(ii, jj),
                    },
                ),
            ),
        )
    } else if ft == "string"@ {
        (PrimValue::String(t), None)
    } else if ft == "int"@ {
        (PrimValue::Int(i64_from_text(t).unwrap()), None)
    } else if ft == "float"@ {
        (PrimValue::Float(number.float_text.unwrap()), None)
    } else if ft == "bool"@ {
        if lt == "true"@ {
            (PrimValue::Bool(true), None)
        } else if lt == "false"@ {
            (PrimValue::Bool(false), None)
        } else {
            match number.as_bool {
                Some(b) => (PrimValue::Bool(b), None),
                None => (PrimValue::UnexpectedError("Failed to parse boolean"@), None),
            }
        }
    } else if ft == "datetime"@ {
        match dt {
            Some(d) => (PrimValue::DateTime(d), None),
            None => (
                PrimValue::UnexpectedError("Failed to parse datetime"@),
                Some(
                    (
                        ErrorKind::FailedToParse,
                        InfoView {
                            start: (ii, jj),
                            end: (ii, jj),
                            val: t,
                            context: "Failed to parse DateTime at "@ + position_text(ii, jj),
                        },
                    ),
                ),
            ),
        }
    } else {
        (PrimValue::UnexpectedError(ft), None)
    }
}

/// The cell can be typed without failing: an integer cell holds a well-formed `i64` and a
/// float cell reads as a number.
pub open spec fn typed_defined(t: Seq<char>, ft: Seq<char>, number: NumberView) -> bool {
    t.len() > 0 ==> {
        &&& ft == "int"@ ==> i64_from_text(t) is Some
        &&& ft == "float"@ ==> number.float_text is Some
    }
}

/// The value and report for the cell with raw text `text` in a column of declared type
/// `field_type`.
pub open spec fn cell_outcome(
    text: Seq<char>,
    field_type: Seq<char>,
    number: NumberView,
    ii: usize,
    jj: usize,
) -> (PrimValue, Option<(ErrorKind, InfoView)>) {
    let t = trim_spec(text);
    typed_outcome(
        t,
        lower_text(field_type),
        lower_text(t),
        number,
        naive_datetime_from_str(t, datetime_format()),
        ii,
        jj,
    )
}

pub open spec fn cell_defined(text: Seq<char>, field_type: Seq<char>, number: NumberView) -> bool {
    typed_defined(trim_spec(text), lower_text(field_type), number)
}

/// The cells and reports of row `ii`: a cell whose header the schema does not name is left out;
/// the others keep their column index.
pub open spec fn row_outcome(
    ii: usize,
    row: Seq<Seq<char>>,
    hs: Seq<Seq<char>>,
    fs: Seq<(Seq<char>, Seq<char>)>,
    nums: Seq<NumberView>,
) -> (Seq<(PrimValue, (usize, usize))>, Seq<(ErrorKind, InfoView)>)
    decreases row.len(),
{
    if row.len() == 0 {
        (seq![], seq![])
    } else {
        let jj = (row.len() - 1) as usize;
        let prev = row_outcome(ii, row.drop_last(), hs, fs, nums);
        match schema_lookup(fs, hs[jj as int]) {
            None => prev,
            Some(ft) => {
                let out = cell_outcome(row.last(), ft, nums[jj as int], ii, jj);
                (
                    prev.0.push((out.0, (ii, jj))),
                    match out.1 {
                        Some(x) => prev.1.push(x),
                        None => prev.1,
                    },
                )
            },
        }
    }
}

/// The rows of cells and all reports, row by row.
pub open spec fn table_outcome(
    rows: Seq<Seq<Seq<char>>>,
    hs: Seq<Seq<char>>,
    fs: Seq<(Seq<char>, Seq<char>)>,
    nums: Seq<Seq<NumberView>>,
) -> (Seq<Seq<(PrimValue, (usize, usize))>>, Seq<(ErrorKind, InfoView)>)
    decreases rows.len(),
{
    if rows.len() == 0 {
        (seq![], seq![])
    } else {
        let ii = (rows.len() - 1) as usize;
        let prev = table_outcome(rows.drop_last(), hs, fs, nums);
        let r = row_outcome(ii, rows.last(), hs, fs, nums[ii as int]);
        (prev.0.push(r.0), prev.1 + r.1)
    }
}

/// There is one row of cells per row of text.
pub proof fn lemma_table_outcome_len(
    rows: Seq<Seq<Seq<char>>>,
    hs: Seq<Seq<char>>,
    fs: Seq<(Seq<char>, Seq<char>)>,
    nums: Seq<Seq<NumberView>>,
)
    ensures
        table_outcome(rows, hs, fs, nums).0.len() == rows.len(),
    decreases rows.len(),
{
    if rows.len() > 0 {
        lemma_table_outcome_len(rows.drop_last(), hs, fs, nums);
    }
}

/// A cell is empty exactly when its trimmed text is; an issue is reported for it exactly when
/// it is empty or is a date-time that does not read, and the issue is at the cell's position.
pub proof fn lemma_cell_issue(
    text: Seq<char>,
    field_type: Seq<char>,
    number: NumberView,
    ii: usize,
    jj: usize,
)
    ensures
        (cell_outcome(text, field_type, number, ii, jj).0 is Empty) <==> trim_spec(text).len()
            == 0,
        (cell_outcome(text, field_type, number, ii, jj).1 is Some) <==> (trim_spec(text).len() == 0
            || (lower_text(field_type) == "datetime"@ && naive_datetime_from_str(
            trim_spec(text),
            datetime_format(),
        ) is None)),
        cell_outcome(text, field_type, number, ii, jj).1 matches Some(x) ==> x.1.start == (ii, jj)
            && x.1.end == (ii, jj),
{
    let t = trim_spec(text);
    let ft = lower_text(field_type);
    let out = cell_outcome(text, field_type, number, ii, jj);
    reveal_strlit("string");
    reveal_strlit("int");
    reveal_strlit("float");
    reveal_strlit("bool");
    reveal_strlit("datetime");
    if t.len() == 0 {
        assert(out.0 is Empty && out.1 is Some);
    } else if ft == "string"@ || ft == "int"@ || ft == "float"@ || ft == "bool"@ {
        assert(!(out.0 is Empty) && out.1 is None);
        assert("datetime"@.len() == 8);
        assert(ft.len() != 8);
        assert(ft != "datetime"@);
    } else if ft == "datetime"@ {
        assert(!(out.0 is Empty));
        if naive_datetime_from_str(t, datetime_format()) is None {
            assert(out.1 is Some);
        } else {
            assert(out.1 is None);
        }
    } else {
        assert(!(out.0 is Empty) && out.1 is None);
    }
}

proof fn lemma_row_reports_empty_cell(
    ii: usize,
    row: Seq<Seq<char>>,
    hs: Seq<Seq<char>>,
    fs: Seq<(Seq<char>, Seq<char>)>,
    nums: Seq<NumberView>,
    j: int,
)
    requires
        0 <= j < row.len(),
        row.len() <= usize::MAX,
        schema_lookup(fs, hs[j]) is Some,
        trim_spec(row[j]).len() == 0,
    ensures
        exists|k: int|
            0 <= k < row_outcome(ii, row, hs, fs, nums).1.len() && #[trigger] row_outcome(
                ii,
                row,
                hs,
                fs,
                nums,
            ).1[k] == (ErrorKind::EmptyCell, InfoView {
                start: (ii, j as usize),
                end: (ii, j as usize),
                val: Seq::empty(),
                context: "Empty cell at "@ + position_text(ii, j as usize),
            }),
    decreases row.len(),
{
    let prev = row_outcome(ii, row.drop_last(), hs, fs, nums);
    let out = row_outcome(ii, row, hs, fs, nums);
    let expected = (ErrorKind::EmptyCell, InfoView {
        start: (ii, j as usize),
        end: (ii, j as usize),
        val: Seq::<char>::empty(),
        context: "Empty cell at "@ + position_text(ii, j as usize),
    });
    if j == row.len() - 1 {
        let ft = schema_lookup(fs, hs[j]).unwrap();
        let c = cell_outcome(row.last(), ft, nums[j], ii, j as usize);
        assert(c.1 == Some(expected));
        assert(out.1 == prev.1.push(expected));
        assert(out.1[prev.1.len() as int] == expected);
    } else {
        assert(row.drop_last()[j] == row[j]);
        lemma_row_reports_empty_cell(ii, row.drop_last(), hs, fs, nums, j);
        let k = choose|k: int| 0 <= k < prev.1.len() && #[trigger] prev.1[k] == expected;
        let jj = (row.len() - 1) as usize;
        match schema_lookup(fs, hs[jj as int]) {
            None => {
                assert(out.1 == prev.1);
            },
            Some(ft) => {
                let c = cell_outcome(row.last(), ft, nums[jj as int], ii, jj);
                match c.1 {
                    Some(x) => {
                        assert(out.1 == prev.1.push(x));
                        assert(out.1[k] == expected);
                    },
                    None => {
                        assert(out.1 == prev.1);
                    },
                }
            },
        }
        assert(out.1[k] == expected);
    }
}

/// Every empty cell of a column the schema names is reported, in whichever row it stands (the
/// first included): the report holds an empty-cell issue that starts and ends at the cell's
/// own position, with no value and the message `Empty cell at (i,j)`.
pub proof fn lemma_empty_cells_reported(
    rows: Seq<Seq<Seq<char>>>,
    hs: Seq<Seq<char>>,
    fs: Seq<(Seq<char>, Seq<char>)>,
    nums: Seq<Seq<NumberView>>,
    i: int,
    j: int,
)
    requires
        0 <= i < rows.len(),
        0 <= j < rows[i].len(),
        rows.len() <= usize::MAX,
        rows[i].len() <= usize::MAX,
        schema_lookup(fs, hs[j]) is Some,
        trim_spec(rows[i][j]).len() == 0,
    ensures
        exists|k: int|
            0 <= k < table_outcome(rows, hs, fs, nums).1.len() && #[trigger] table_outcome(
                rows,
                hs,
                fs,
                nums,
            ).1[k] == (ErrorKind::EmptyCell, InfoView {
                start: (i as usize, j as usize),
                end: (i as usize, j as usize),
                val: Seq::empty(),
                context: "Empty cell at "@ + position_text(i as usize, j as usize),
            }),
    decreases rows.len(),
{
    let prev = table_outcome(rows.drop_last(), hs, fs, nums);
    let out = table_outcome(rows, hs, fs, nums);
    let expected = (ErrorKind::EmptyCell, InfoView {
        start: (i as usize, j as usize),
        end: (i as usize, j as usize),
        val: Seq::<char>::empty(),
        context: "Empty cell at "@ + position_text(i as usize, j as usize),
    });
    let ii = (rows.len() - 1) as usize;
    let r = row_outcome(ii, rows.last(), hs, fs, nums[ii as int]);
    assert(out.1 == prev.1 + r.1);
    if i == rows.len() - 1 {
        lemma_row_reports_empty_cell(ii, rows.last(), hs, fs, nums[ii as int], j);
        let k = choose|k: int| 0 <= k < r.1.len() && #[trigger] r.1[k] == expected;
        assert(out.1[prev.1.len() + k] == expected);
    } else {
        assert(rows.drop_last()[i] == rows[i]);
        lemma_empty_cells_reported(rows.drop_last(), hs, fs, nums, i, j);
        let k = choose|k: int| 0 <= k < prev.1.len() && #[trigger] prev.1[k] == expected;
        assert(out.1[k] == expected);
    }
}

/// The report of a table lists the issues of its rows in row order: the issues of the first
/// `i + 1` rows are those of the first `i` rows followed by those of row `i`, for every row
/// (the first included); and row `i` of the typed cells is that row's cells.
pub proof fn lemma_table_report_by_rows(
    rows: Seq<Seq<Seq<char>>>,
    hs: Seq<Seq<char>>,
    fs: Seq<(Seq<char>, Seq<char>)>,
    nums: Seq<Seq<NumberView>>,
    i: int,
)
    requires
        0 <= i < rows.len(),
        rows.len() <= usize::MAX,
    ensures
        table_outcome(rows.take(i + 1), hs, fs, nums).1 == table_outcome(rows.take(i), hs, fs, nums).1
            + row_outcome(i as usize, rows[i], hs, fs, nums[i]).1,
        table_outcome(rows, hs, fs, nums).0[i] == row_outcome(i as usize, rows[i], hs, fs, nums[i]).0,
    decreases rows.len(),
{
    assert(rows.take(i + 1).drop_last() =~= rows.take(i));
    assert(rows.take(i + 1).last() == rows[i]);
    lemma_table_outcome_len(rows.drop_last(), hs, fs, nums);
    let prev = table_outcome(rows.drop_last(), hs, fs, nums);
    let ii = (rows.len() - 1) as usize;
    assert(table_outcome(rows, hs, fs, nums).0 == prev.0.push(
        row_outcome(ii, rows.last(), hs, fs, nums[ii as int]).0,
    ));
    if i < rows.len() - 1 {
        assert(rows.drop_last()[i] == rows[i]);
        lemma_table_report_by_rows(rows.drop_last(), hs, fs, nums, i);
        assert(table_outcome(rows, hs, fs, nums).0[i] == prev.0[i]);
    }
}

/// Within row `ii` every cell carries position (`ii`, j) for a column j of the row, with the
/// columns strictly increasing.
pub proof fn lemma_row_addresses(
    ii: usize,
    row: Seq<Seq<char>>,
    hs: Seq<Seq<char>>,
    fs: Seq<(Seq<char>, Seq<char>)>,
    nums: Seq<NumberView>,
)
    requires
        row.len() <= usize::MAX,
    ensures
        ({
            let cells = row_outcome(ii, row, hs, fs, nums).0;
            &&& forall|k: int|
                0 <= k < cells.len() ==> (#[trigger] cells[k]).1.0 == ii && cells[k].1.1 < row.len()
            &&& forall|a: int, b: int|
                0 <= a < b < cells.len() ==> (#[trigger] cells[a]).1.1 < (#[trigger] cells[b]).1.1
        }),
    decreases row.len(),
{
    if row.len() > 0 {
        let p = row.drop_last();
        lemma_row_addresses(ii, p, hs, fs, nums);
        let prev = row_outcome(ii, p, hs, fs, nums).0;
        let cells = row_outcome(ii, row, hs, fs, nums).0;
        let jj = (row.len() - 1) as usize;
        match schema_lookup(fs, hs[jj as int]) {
            None => {
                assert(cells == prev);
            },
            Some(ft) => {
                let out = cell_outcome(row.last(), ft, nums[jj as int], ii, jj);
                assert(cells == prev.push((out.0, (ii, jj))));
                assert forall|k: int| 0 <= k < cells.len() implies (#[trigger] cells[k]).1.0 == ii
                    && cells[k].1.1 < row.len() by {
                    if k < prev.len() {
                        assert(cells[k] == prev[k]);
                    }
                }
                assert forall|a: int, b: int| 0 <= a < b < cells.len() implies (
                #[trigger] cells[a]).1.1 < (#[trigger] cells[b]).1.1 by {
                    assert(cells[a] == prev[a]);
                    if b < prev.len() {
                        assert(cells[b] == prev[b]);
                    }
                }
            },
        }
    }
}

/// Every row fits under the headers, has a number reading per cell, and every cell the schema
/// covers can be typed without failing.
pub open spec fn table_defined(
    rows: Seq<Seq<Seq<char>>>,
    hs: Seq<Seq<char>>,
    fs: Seq<(Seq<char>, Seq<char>)>,
    nums: Seq<Seq<NumberView>>,
) -> bool {
    &&& nums.len() == rows.len()
    &&& forall|i: int| 0 <= i < rows.len() ==> #[trigger] rows[i].len() <= hs.len()
    &&& forall|i: int| 0 <= i < rows.len() ==> #[trigger] nums[i].len() == rows[i].len()
    &&& forall|i: int, j: int|
        0 <= i < rows.len() && 0 <= j < rows[i].len() ==> match schema_lookup(fs, hs[j]) {
            Some(ft) => cell_defined(#[trigger] rows[i][j], ft, nums[i][j]),
            None => true,
        }
}

/// The text of each row.
pub open spec fn rows_view(rows: Seq<Vec<String>>) -> Seq<Seq<Seq<char>>> {
    rows.map_values(|r: Vec<String>| views(r@))
}

/// The number readings of each row.
pub open spec fn numbers_view(nums: Seq<Vec<NumberReading>>) -> Seq<Seq<NumberView>> {
    nums.map_values(|r: Vec<NumberReading>| views(r@))
}

pub(crate) fn position_message(prefix: &str, ii: usize, jj: usize) -> (r: String)
    ensures
        r@ == prefix@ + position_text(ii, jj),
{
    let mut m = prefix.to_owned();
    m.append("(");
    let a = usize_text(ii);
    m.append(a.as_str());
    m.append(",");
    let b = usize_text(jj);
    m.append(b.as_str());
    m.append(")");
    proof {
        assert(m@ =~= prefix@ + position_text(ii, jj));
    }
    m
}

/// Types one cell from its trimmed text `t`, its lower-cased declared type `ft`, its
/// lower-cased trimmed text `lt` (used for booleans), how it reads as a number, and what the
/// date-time parser made of it (used for date-times).
pub fn typed_cell(
    t: &str,
    ft: &str,
    lt: &str,
    number: &NumberReading,
    dt: Option<DateTime>,
    ii: usize,
    jj: usize,
) -> (r: (PrimTypeData, Option<(ReportError, ReportInfo)>))
    requires
        typed_defined(t@, ft@, number@),
    ensures
        (r.0@, opt_report_view(r.1)) == typed_outcome(t@, ft@, lt@, number@, dt, ii, jj),
{
    if t.is_empty() {
        let context = position_message("Empty cell at ", ii, jj);
        let info = ReportInfo::new((ii, jj), (ii, jj), String::new(), context);
        return (PrimTypeData::Empty, Some((ReportError::EmptyCell, info)));
    }
    if text_eq(ft, "string") {
        (PrimTypeData::String(t.to_owned()), None)
    } else if text_eq(ft, "int") {
        let v = parse_i64(t);
        match v {
            Some(x) => (PrimTypeData::Int(x), None),
            None => {
                proof {
                    assert(false);
                }
                (PrimTypeData::Empty, None)
            },
        }
    } else if text_eq(ft, "float") {
        match &number.float_text {
            Some(x) => (PrimTypeData::Float(x.clone()), None),
            None => {
                proof {
                    assert(false);
                }
                (PrimTypeData::Empty, None)
            },
        }
    } else if text_eq(ft, "bool") {
        if text_eq(lt, "true") {
            (PrimTypeData::Bool(true), None)
        } else if text_eq(lt, "false") {
            (PrimTypeData::Bool(false), None)
        } else {
            match number.as_bool {
                Some(b) => (PrimTypeData::Bool(b), None),
                None => (PrimTypeData::UnexpectedError("Failed to parse boolean".to_owned()), None),
            }
        }
    } else if text_eq(ft, "datetime") {
        match dt {
            Some(d) => (PrimTypeData::DateTime(d), None),
            None => {
                let context = position_message("Failed to parse DateTime at ", ii, jj);
                let info = ReportInfo::new((ii, jj), (ii, jj), t.to_owned(), context);
                (
                    PrimTypeData::UnexpectedError("Failed to parse datetime".to_owned()),
                    Some((ReportError::FailedToParse, info)),
                )
            },
        }
    } else {
        (PrimTypeData::UnexpectedError(ft.to_owned()), None)
    }
}

/// Types the cell with raw text `text` at (`ii`, `jj`) in a column of declared type
/// `field_type`: the text is trimmed, and an empty cell or a date-time that does not read in
/// the `%Y-%m-%dT%H:%M:%S` format is reported.
pub fn parse_cell(
    text: &str,
    field_type: &str,
    number: &NumberReading,
    ii: usize,
    jj: usize,
) -> (r: (PrimTypeData, Option<(ReportError, ReportInfo)>))
    requires
        cell_defined(text@, field_type@, number@),
    ensures
        (r.0@, opt_report_view(r.1)) == cell_outcome(text@, field_type@, number@, ii, jj),
{
    let t = trim(text);
    let ft = to_lowercase(field_type);
    let lt = to_lowercase(t.as_str());
    let dt = if text_eq(ft.as_str(), "datetime") {
        parse_naive_datetime(t.as_str(), "%Y-%m-%dT%H:%M:%S")
    } else {
        None
    };
    proof {
        if ft@ == "datetime"@ {
            assert(dt == naive_datetime_from_str(t@, datetime_format()));
        }
    }
    let r = typed_cell(t.as_str(), ft.as_str(), lt.as_str(), number, dt, ii, jj);
    proof {
        if ft@ != "datetime"@ {
            assert(typed_outcome(t@, ft@, lt@, number@, dt, ii, jj) == typed_outcome(
                t@,
                ft@,
                lt@,
                number@,
                naive_datetime_from_str(t@, datetime_format()),
                ii,
                jj,
            ));
        }
    }
    r
}

/// True when the cell with raw text `text` in a column of declared type `field_type` can be
/// typed without failing.
pub fn cell_typeable(text: &str, field_type: &str, number: &NumberReading) -> (r: bool)
    ensures
        r == cell_defined(text@, field_type@, number@),
{
    let t = trim(text);
    if t.as_str().unicode_len() == 0 {
        return true;
    }
    let ft = to_lowercase(field_type);
    proof {
        reveal_strlit("int");
        reveal_strlit("float");
        assert("int"@ != "float"@) by {
            assert("int"@.len() != "float"@.len());
        }
    }
    if text_eq(ft.as_str(), "int") {
        parse_i64(t.as_str()).is_some()
    } else if text_eq(ft.as_str(), "float") {
        number.float_text.is_some()
    } else {
        true
    }
}

/// True when the table can be typed without failing: there is a number reading per row and
/// per cell, no row is longer than the headers, and every cell the schema covers can be typed
/// (`table_defined`).
pub fn typeable(
    data: &Vec<Vec<String>>,
    headers: &[String],
    schema: &Schema,
    numbers: &Vec<Vec<NumberReading>>,
) -> (r: bool)
    ensures
        r == table_defined(rows_view(data@), views(headers@), schema@, numbers_view(numbers@)),
{
    let ghost rows = rows_view(data@);
    let ghost hs = views(headers@);
    let ghost fs = schema@;
    let ghost nums = numbers_view(numbers@);
    if numbers.len() != data.len() {
        return false;
    }
    let n = data.len();
    for i in 0..n
        invariant
            n == data@.len(),
            n == numbers@.len(),
            rows == rows_view(data@),
            hs == views(headers@),
            fs == schema@,
            nums == numbers_view(numbers@),
            forall|k: int| 0 <= k < i ==> #[trigger] rows[k].len() <= hs.len(),
            forall|k: int| 0 <= k < i ==> #[trigger] nums[k].len() == rows[k].len(),
            forall|k: int, j: int|
                0 <= k < i && 0 <= j < rows[k].len() ==> match schema_lookup(fs, hs[j]) {
                    Some(ft) => cell_defined(#[trigger] rows[k][j], ft, nums[k][j]),
                    None => true,
                },
    {
        let row = &data[i];
        let m = row.len();
        proof {
            assert(rows[i as int] == views(row@));
            assert(nums[i as int] == views(numbers@[i as int]@));
        }
        if m > headers.len() || numbers[i].len() != m {
            proof {
                assert(rows[i as int].len() > hs.len() || nums[i as int].len() != rows[i as int].len());
            }
            return false;
        }
        for j in 0..m
            invariant
                m == row@.len(),
                i < n,
                n == data@.len(),
                n == numbers@.len(),
                row == data@[i as int],
                m <= headers@.len(),
                numbers@[i as int]@.len() == m,
                rows == rows_view(data@),
                hs == views(headers@),
                fs == schema@,
                nums == numbers_view(numbers@),
                rows[i as int] == views(row@),
                nums[i as int] == views(numbers@[i as int]@),
                forall|k: int| 0 <= k < i ==> #[trigger] rows[k].len() <= hs.len(),
                forall|k: int| 0 <= k < i ==> #[trigger] nums[k].len() == rows[k].len(),
                forall|k: int, jj: int|
                    0 <= k < i && 0 <= jj < rows[k].len() ==> match schema_lookup(fs, hs[jj]) {
                        Some(ft) => cell_defined(#[trigger] rows[k][jj], ft, nums[k][jj]),
                        None => true,
                    },
                forall|jj: int|
                    0 <= jj < j ==> match schema_lookup(fs, hs[jj]) {
                        Some(ft) => cell_defined(#[trigger] rows[i as int][jj], ft, nums[i as int][jj]),
                        None => true,
                    },
        {
            let field_type = schema.get(headers[j].as_str());
            proof {
                assert(hs[j as int] == headers@[j as int]@);
                assert(rows[i as int][j as int] == data@[i as int]@[j as int]@);
                assert(nums[i as int][j as int] == numbers@[i as int]@[j as int]@);
            }
            match field_type {
                None => {},
                Some(ft) => {
                    if !cell_typeable(data[i][j].as_str(), ft.as_str(), &numbers[i][j]) {
                        return false;
                    }
                },
            }
        }
    }
    true
}

/// Types the table as `Data::parse` does when it can be typed without failing (`typeable`);
/// otherwise gives `None` and types nothing.
pub fn parse_if_typeable(
    data: Vec<Vec<String>>,
    headers: &[String],
    schema: &Schema,
    numbers: &Vec<Vec<NumberReading>>,
) -> (r: Option<Result<(Data, Vec<(ReportError, ReportInfo)>), APIError>>)
    ensures
        r is None <==> !table_defined(
            rows_view(data@),
            views(headers@),
            schema@,
            numbers_view(numbers@),
        ),
        r matches Some(res) ==> match res {
            Ok((d, rep)) => {
                &&& data@.len() > 0
                &&& (d@, reports_view(rep@)) == table_outcome(
                    rows_view(data@),
                    views(headers@),
                    schema@,
                    numbers_view(numbers@),
                )
            },
            Err(e) => data@.len() == 0 && e == APIError::NoData,
        },
{
    if typeable(&data, headers, schema, numbers) {
        Some(Data::parse(data, headers, schema, numbers))
    } else {
        None
    }
}

impl Default for Data {
    fn default() -> (r: Self)
        ensures
            r@ == Seq::<Seq<(PrimValue, (usize, usize))>>::empty(),
    {
        Data::empty()
    }
}

/// A value of one of the cell types; a float is held as the text its `Display` writes.
#[derive(Debug, Clone, PartialEq)]
pub enum DynValue {
    String(String),
    Int(i64),
    Float(String),
    Bool(bool),
    DateTime(DateTime),
    Undefined(String),
}

/// The typed cells of a table, row by row.
#[derive(Debug, PartialEq)]
pub struct Data(Vec<Vec<Cell>>);

impl View for Data {
    type V = Seq<Seq<(PrimValue, (usize, usize))>>;

    closed spec fn view(&self) -> Seq<Seq<(PrimValue, (usize, usize))>> {
        self.0@.map_values(|r: Vec<Cell>| views(r@))
    }
}

impl Clone for Data {
    fn clone(&self) -> (r: Self)
        ensures
            r@ == self@,
    {
        Data(copy_rows(&self.0))
    }
}

impl Data {
    /// Types every cell whose header the schema names (exact match), row by row; cells of other
    /// columns are left out. Empty cells are reported, as are date-times that do not read.
    /// A table without rows is refused.
    pub fn parse(
        data: Vec<Vec<String>>,
        headers: &[String],
        schema: &Schema,
        numbers: &Vec<Vec<NumberReading>>,
    ) -> (r: Result<(Self, Vec<(ReportError, ReportInfo)>), APIError>)
        requires
            table_defined(rows_view(data@), views(headers@), schema@, numbers_view(numbers@)),
        ensures
            match r {
                Ok((d, rep)) => {
                    &&& data@.len() > 0
                    &&& (d@, reports_view(rep@))
                        == table_outcome(
                        rows_view(data@),
                        views(headers@),
                        schema@,
                        numbers_view(numbers@),
                    )
                },
                Err(e) => data@.len() == 0 && e == APIError::NoData,
            },
    {
        if data.len() == 0 {
            return Err(APIError::NoData);
        }
        let ghost rows = rows_view(data@);
        let ghost hs = views(headers@);
        let ghost fs = schema@;
        let ghost nums = numbers_view(numbers@);
        let n = data.len();
        let mut value_vec: Vec<Vec<Cell>> = Vec::new();
        let mut report: Vec<(ReportError, ReportInfo)> = Vec::new();
        for ii in 0..n
            invariant
                n == data@.len(),
                rows == rows_view(data@),
                hs == views(headers@),
                fs == schema@,
                nums == numbers_view(numbers@),
                table_defined(rows, hs, fs, nums),
                (
                    value_vec@.map_values(|r: Vec<Cell>| views(r@)),
                    reports_view(report@),
                ) == table_outcome(rows.take(ii as int), hs, fs, nums),
        {
            let row = &data[ii];
            let m = row.len();
            let ghost rv = rows[ii as int];
            let ghost nv = nums[ii as int];
            proof {
                assert(rv == views(row@));
                assert(nv == views(numbers@[ii as int]@));
                assert(rv.len() <= hs.len());
                assert(nv.len() == rv.len());
            }
            let mut value_row: Vec<Cell> = Vec::new();
            let mut row_report: Vec<(ReportError, ReportInfo)> = Vec::new();
            for jj in 0..m
                invariant
                    m == row@.len(),
                    ii < n,
                    n == data@.len(),
                    row == data@[ii as int],
                    rv == views(row@),
                    nv == views(numbers@[ii as int]@),
                    rows == rows_view(data@),
                    hs == views(headers@),
                    fs == schema@,
                    nums == numbers_view(numbers@),
                    rv == rows[ii as int],
                    nv == nums[ii as int],
                    rv.len() <= hs.len(),
                    nv.len() == rv.len(),
                    table_defined(rows, hs, fs, nums),
                    (
                        views(value_row@),
                        reports_view(row_report@),
                    ) == row_outcome(ii, rv.take(jj as int), hs, fs, nv),
            {
                proof {
                    assert(rv.take(jj + 1).drop_last() =~= rv.take(jj as int));
                    assert(rv.take(jj + 1).last() == rv[jj as int]);
                }
                let field_type = schema.get(headers[jj].as_str());
                match field_type {
                    None => {},
                    Some(ft) => {
                        proof {
                            assert(rows[ii as int][jj as int] == rv[jj as int]);
                            assert(cell_defined(rv[jj as int], ft@, nv[jj as int]));
                        }
                        let (value, rep) = parse_cell(
                            data[ii][jj].as_str(),
                            ft.as_str(),
                            &numbers[ii][jj],
                            ii,
                            jj,
                        );
                        let ghost cells_before = views(value_row@);
                        value_row.push(Cell::new(value, (ii, jj)));
                        proof {
                            assert(views(value_row@) =~= cells_before.push(
                                (value@, (ii, jj)),
                            ));
                        }
                        match rep {
                            Some(x) => {
                                let ghost reps_before = reports_view(row_report@);
                                let ghost xv = report_view(x);
                                row_report.push(x);
                                proof {
                                    assert(reports_view(row_report@) =~= reps_before.push(xv));
                                }
                            },
                            None => {},
                        }
                    },
                }
            }
            proof {
                assert(rv.take(m as int) =~= rv);
                assert(rows.take(ii + 1).drop_last() =~= rows.take(ii as int));
                assert(rows.take(ii + 1).last() == rv);
            }
            let ghost vals_before = value_vec@.map_values(|r: Vec<Cell>| views(r@));
            let ghost reps_before = reports_view(report@);
            let ghost row_reps = reports_view(row_report@);
            let ghost row_vals = views(value_row@);
            value_vec.push(value_row);
            report.append(&mut row_report);
            proof {
                assert(value_vec@.map_values(|r: Vec<Cell>| views(r@)) =~= vals_before.push(
                    row_vals,
                ));
                assert(reports_view(report@)
                    =~= reps_before + row_reps);
            }
        }
        proof {
            assert(rows.take(n as int) =~= rows);
        }
        Ok((Data(value_vec), report))
    }

    /// The text the cells are shown as, one row per line.
    pub fn text(&self) -> (r: String)
        ensures
            r@ == table_text(self@),
    {
        cells_text(&self.0)
    }

    /// The cells, row by row.
    pub fn as_ref(&self) -> (r: &Vec<Vec<Cell>>)
        ensures
            r@.map_values(|row: Vec<Cell>| views(row@)) == self@,
    {
        &self.0
    }

    /// A table with no rows.
    pub fn empty() -> (r: Self)
        ensures
            r@ == Seq::<Seq<(PrimValue, (usize, usize))>>::empty(),
    {
        let d = Data(Vec::new());
        proof {
            assert(d@ =~= Seq::<Seq<(PrimValue, (usize, usize))>>::empty());
        }
        d
    }
}

} // verus!
