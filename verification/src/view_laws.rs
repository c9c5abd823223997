//! What the mathematical values of the library's types hold.

use vstd::prelude::*;

use crate::cell::{
    Cell, CellValue, CellView, FloatText, FloatView, SerialTime, SerialView, ValueView,
};
use crate::csv::{csv_records, fit_in_range, table};
use crate::display::values;
use crate::error::{ErrorView, WorkbookError};
use crate::grid::cells;
use crate::number_laws::lemma_until_is_start;
use crate::sheet::{
    formula_table, formula_views, value_table, SheetData, SheetView, TableData,
};
use crate::text::{all_digits, decimal_places, texts, until, without_sign};
use crate::workbook::{Workbook, WorkbookSource};

verus! {

broadcast use vstd::string::group_string_axioms;

/// The value of a number by its texts has the same texts.
pub proof fn law_float_views_keep_contents(f: FloatText)
    ensures
        f@.whole == f.whole,
        f@.rounded == f.rounded@,
        f@.hundredths == f.hundredths@,
        f@.shortest == f.shortest@,
        f@.percent == f.percent@,
{
}

/// The value of a point in time has the same parts.
pub proof fn law_serial_views_keep_contents(d: SerialTime)
    ensures
        d@.text == d.text@,
        d@.days == d.days,
        d@.seconds == d.seconds,
        d@.shows_time == d.shows_time,
        d@.exports_time == d.exports_time,
{
}

/// The mathematical value of a cell holds what the cell holds.
pub proof fn law_cell_views_keep_contents(cell: Cell)
    ensures
        match cell {
            Cell::Empty => cell@ is Empty,
            Cell::String(s) => cell@ == CellView::String(s@),
            Cell::Int(i) => cell@ == CellView::Int(i as int),
            Cell::Float(f) => cell@ == CellView::Float(f@),
            Cell::Bool(b) => cell@ == CellView::Bool(b),
            Cell::Error(e) => cell@ == CellView::Error(e),
            Cell::DateTime(d) => cell@ == CellView::DateTime(d@),
            Cell::DateTimeIso(s) => cell@ == CellView::DateTimeIso(s@),
            Cell::DurationIso(s) => cell@ == CellView::DurationIso(s@),
        },
{
}

/// The mathematical value of a cell value holds what the value holds.
pub proof fn law_value_views_keep_contents(value: CellValue)
    ensures
        match value {
            CellValue::Empty => value@ is Empty,
            CellValue::String(s) => value@ == ValueView::String(s@),
            CellValue::Int(i) => value@ == ValueView::Int(i as int),
            CellValue::Float(f) => value@ == ValueView::Float(f@),
            CellValue::Bool(b) => value@ == ValueView::Bool(b),
            CellValue::Error(e) => value@ == ValueView::Error(e@),
            CellValue::DateTime(d) => value@ == ValueView::DateTime(d@),
        },
{
}

/// The mathematical value of an error says which error it is and what it names.
pub proof fn law_error_views_keep_contents(error: WorkbookError)
    ensures
        match error {
            WorkbookError::CsvUnreadable => error@ is CsvUnreadable,
            WorkbookError::WorkbookUnreadable => error@ is WorkbookUnreadable,
            WorkbookError::SheetNotFound { name } => error@ == (ErrorView::SheetNotFound {
                name: name@,
            }),
            WorkbookError::CsvSheetNotFound { requested, available } => error@ == (
            ErrorView::CsvSheetNotFound { requested: requested@, available: available@ }),
            WorkbookError::UnterminatedQuote => error@ is UnterminatedQuote,
            WorkbookError::TablesUnsupported => error@ is TablesUnsupported,
            WorkbookError::TableMetadata => error@ is TableMetadata,
            WorkbookError::TableNotFound { name, cause } => error@ == (ErrorView::TableNotFound {
                name: name@,
                cause: cause@,
            }),
        },
{
}

/// The mathematical values of rows hold a value for each that the rows hold, in their order.
pub proof fn law_row_views_keep_contents(
    strings: Seq<String>,
    row: Seq<CellValue>,
    file_row: Seq<Cell>,
    formulas: Seq<Option<String>>,
)
    ensures
        texts(strings).len() == strings.len(),
        forall|i: int| 0 <= i < strings.len() ==> #[trigger] texts(strings)[i] == strings[i]@,
        values(row).len() == row.len(),
        forall|i: int| 0 <= i < row.len() ==> #[trigger] values(row)[i] == row[i]@,
        cells(file_row).len() == file_row.len(),
        forall|i: int| 0 <= i < file_row.len() ==> #[trigger] cells(file_row)[i] == file_row[i]@,
        formula_views(formulas).len() == formulas.len(),
        forall|i: int|
            0 <= i < formulas.len() ==> (#[trigger] formula_views(formulas)[i] is Some
                <==> formulas[i] is Some),
        forall|i: int|
            0 <= i < formulas.len() && formulas[i] is Some ==> #[trigger] formula_views(formulas)[i]
                == Some(formulas[i]->0@),
{
}

/// The mathematical value of a sheet holds its headers, its values and its formulas, in their
/// order, and its size.
pub proof fn law_sheet_views_keep_contents(sheet: SheetData)
    ensures
        sheet@.headers == texts(sheet.headers@),
        sheet@.rows.len() == sheet.rows@.len(),
        forall|i: int|
            0 <= i < sheet.rows@.len() ==> #[trigger] sheet@.rows[i] == values(sheet.rows@[i]@),
        sheet@.formulas.len() == sheet.formulas@.len(),
        forall|i: int|
            0 <= i < sheet.formulas@.len() ==> #[trigger] sheet@.formulas[i] == formula_views(
                sheet.formulas@[i]@,
            ),
        sheet@.width == sheet.width,
        sheet@.height == sheet.height,
{
}

/// Rows of values and of formulas, and records, are seen row by row.
pub proof fn law_table_views_keep_contents(
    data: TableData,
    rows: Seq<Vec<CellValue>>,
    formulas: Seq<Vec<Option<String>>>,
    records: Seq<Vec<String>>,
)
    ensures
        data@.name == data.name@,
        data@.sheet_name == data.sheet_name@,
        data@.headers == texts(data.headers@),
        data@.rows == value_table(data.rows@),
        value_table(rows).len() == rows.len(),
        forall|i: int| 0 <= i < rows.len() ==> #[trigger] value_table(rows)[i] == values(rows[i]@),
        formula_table(formulas).len() == formulas.len(),
        forall|i: int|
            0 <= i < formulas.len() ==> #[trigger] formula_table(formulas)[i] == formula_views(
                formulas[i]@,
            ),
        table(records).len() == records.len(),
        forall|i: int|
            0 <= i < records.len() ==> #[trigger] table(records)[i] == texts(records[i]@),
{
}

/// A sheet is filled exactly if it has as many headers as columns, at least as many rows as it is
/// high and as many rows of formulas, and if these rows are as wide as the sheet.
pub proof fn law_filled_sheets_have_all_places(sheet: SheetView)
    ensures
        sheet.is_filled() <==> {
            &&& sheet.headers.len() == sheet.width
            &&& sheet.rows.len() >= sheet.height
            &&& sheet.formulas.len() == sheet.height
            &&& forall|i: int|
                0 <= i < sheet.height ==> (#[trigger] sheet.rows[i]).len() == sheet.width
            &&& forall|i: int|
                0 <= i < sheet.height ==> (#[trigger] sheet.formulas[i]).len() == sheet.width
        },
{
}

/// Only spreadsheets in the .xlsx format have tables. Every sheet fits into a range, but for the
/// sheet of a readable CSV file with too many cells.
pub proof fn law_workbooks_know_their_format(workbook: Workbook, name: Seq<char>)
    ensures
        match workbook.source {
            WorkbookSource::Excel { xlsx } => workbook.has_tables() == xlsx && workbook.fits(name),
            WorkbookSource::Csv { sheet_name, content } => {
                &&& !workbook.has_tables()
                &&& name != sheet_name@ ==> workbook.fits(name)
                &&& csv_records(content@) is None ==> workbook.fits(name)
                &&& csv_records(content@) is Some && name == sheet_name@ ==> workbook.fits(name)
                    == fit_in_range(csv_records(content@)->0)
            },
        },
{
}

/// A decimal number: an optional minus sign, digits, and if there are decimal places a point and
/// them.
pub open spec fn decimal_text(negative: bool, digits: Seq<char>, places: Seq<char>) -> Seq<char> {
    let sign = if negative {
        seq!['-']
    } else {
        Seq::empty()
    };
    if places.len() > 0 {
        sign + digits + seq!['.'] + places
    } else {
        sign + digits
    }
}

/// A decimal number has the decimal places that it was written with.
pub proof fn law_decimal_places_are_counted(negative: bool, digits: Seq<char>, places: Seq<char>)
    requires
        digits.len() > 0,
        all_digits(digits),
        all_digits(places),
    ensures
        decimal_places(decimal_text(negative, digits, places)) == Some(places.len()),
{
    let text = decimal_text(negative, digits, places);
    let number = if places.len() > 0 {
        digits + seq!['.'] + places
    } else {
        digits
    };
    assert('0' <= digits[0]);
    if negative {
        assert(text.drop_first() == number);
    } else {
        assert(text == number);
        assert(text[0] == digits[0]);
    }
    assert(without_sign(text) == number);
    assert(number.take(digits.len() as int) == digits);
    lemma_until_digits(digits, number);
    if places.len() > 0 {
        assert(number.skip(digits.len() as int + 1) == places);
    }
}

/// The digits in front of a number are what stands before its point.
proof fn lemma_until_digits(digits: Seq<char>, number: Seq<char>)
    requires
        all_digits(digits),
        digits.len() <= number.len(),
        number.take(digits.len() as int) == digits,
        digits.len() < number.len() ==> number[digits.len() as int] == '.',
    ensures
        until(number, '.') == digits,
    decreases digits.len(),
{
    if digits.len() == 0 {
        assert(until(number, '.') == digits);
    } else {
        let rest = digits.drop_first();
        assert(number[0] == number.take(digits.len() as int)[0]);
        assert('0' <= digits[0]);
        assert forall|k: int| 0 <= k < rest.len() implies '0' <= #[trigger] rest[k] && rest[k]
            <= '9' by {
            assert(rest[k] == digits[k + 1]);
        }
        assert(number.drop_first().take(rest.len() as int) == rest) by {
            assert(number.drop_first().take(rest.len() as int) == number.take(
                digits.len() as int,
            ).drop_first());
        }
        lemma_until_digits(rest, number.drop_first());
        assert(seq![digits[0]] + rest == digits);
    }
}

/// What has decimal places is a decimal number, written with them.
pub proof fn law_decimal_places_are_written(text: Seq<char>)
    requires
        decimal_places(text) is Some,
    ensures
        exists|negative: bool, digits: Seq<char>, places: Seq<char>|
            {
                &&& text == #[trigger] decimal_text(negative, digits, places)
                &&& digits.len() > 0
                &&& all_digits(digits)
                &&& all_digits(places)
                &&& decimal_places(text) == Some(places.len())
            },
{
    let number = without_sign(text);
    let negative = text.len() > 0 && text[0] == '-';
    let digits = until(number, '.');
    lemma_until_is_start(number, '.');
    let places = if digits.len() == number.len() {
        Seq::empty()
    } else {
        number.skip(digits.len() as int + 1)
    };
    if digits.len() == number.len() {
        assert(number == digits);
    } else {
        assert(number == digits + seq!['.'] + places);
    }
    if negative {
        assert(text == seq!['-'] + number);
    }
    assert(text == decimal_text(negative, digits, places));
}

/// The texts of a number are valid exactly if they are decimal numbers with the places that each is
/// rounded to, or the same word for a number that is not finite, which is not whole.
pub proof fn law_valid_numbers_have_their_places(f: FloatView)
    ensures
        f.valid() <==> {
            let words = seq![
                seq!['N', 'a', 'N'],
                seq!['i', 'n', 'f'],
                seq!['-', 'i', 'n', 'f'],
            ];
            &&& {
                ||| decimal_places(f.rounded) == Some(0nat) && decimal_places(f.hundredths) == Some(
                    2nat,
                ) && decimal_places(f.shortest) is Some
                ||| !f.whole && words.contains(f.rounded) && f.hundredths == f.rounded
                    && f.shortest == f.rounded
            }
            &&& decimal_places(f.percent) == Some(1nat) || words.contains(f.percent)
        },
{
    reveal_strlit("NaN");
    reveal_strlit("inf");
    reveal_strlit("-inf");
    let words = seq![seq!['N', 'a', 'N'], seq!['i', 'n', 'f'], seq!['-', 'i', 'n', 'f']];
    assert("NaN"@ == words[0]);
    assert("inf"@ == words[1]);
    assert("-inf"@ == words[2]);
}

/// The parts of a point in time are valid exactly if its seconds are within a day and have the sign
/// of the day, if there are none where no time is shown, and if a time that is shown is exported.
pub proof fn law_valid_times_are_within_a_day(d: SerialView)
    ensures
        d.valid() ==> {
            &&& d.days >= 0 ==> 0 <= d.seconds <= 86400
            &&& d.days < 0 ==> -86400 <= d.seconds <= 0
            &&& d.shows_time ==> d.exports_time
            &&& !d.shows_time ==> d.seconds == 0
        },
        decimal_places(d.text) is Some && (d.shows_time ==> d.exports_time) && (!d.shows_time
            ==> d.seconds == 0) && (d.days >= 0 ==> 0 <= d.seconds <= 86400) && (d.days < 0
            ==> -86400 <= d.seconds <= 0) ==> d.valid(),
{
}

}
