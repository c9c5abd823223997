//! What holds of the library as a whole.

use calamine::Range;
use vstd::prelude::*;

use crate::calendar::{serial_day, serial_is_date};
use crate::cell::{exported, shown, Cell, CellView, ValueView};
use crate::csv::{cell_at, cells_of, width_of};
use crate::display::{has_column, is_marked, is_percentage_row};
use crate::grid::{cell_rows, cell_size, formula_rows, formula_start, is_complete};
use crate::sheet::{
    formula_at, formula_corner, formula_grid, formula_span, header_text, sheet_of_range,
    value_of, value_row, value_rows, window, LazySheetData,
};
use crate::text::texts;
use crate::workbook::csv_sheet;

verus! {

broadcast use vstd::string::group_string_axioms;

/// A sheet that gives out its rows on demand gives the same rows and formulas as one that was
/// loaded at once.
pub proof fn law_lazy_rows_are_sheet_rows(lazy: LazySheetData, start: int, count: int)
    requires
        lazy.is_in_step(),
        0 <= start <= lazy.height,
        0 <= count,
    ensures
        ({
            let sheet = sheet_of_range(lazy.range, lazy.formula_range);
            let end = if start + count < lazy.height {
                start + count
            } else {
                lazy.height as int
            };
            &&& window(value_rows(cell_rows(lazy.range)), start + 1, end - start) == window(
                sheet.rows,
                start,
                end - start,
            )
            &&& formula_grid(lazy.formula_range, start, end, lazy.width as int)
                == sheet.formulas.subrange(start, end)
        }),
{
    let sheet = sheet_of_range(lazy.range, lazy.formula_range);
    let end = if start + count < lazy.height {
        start + count
    } else {
        lazy.height as int
    };
    assert(window(value_rows(cell_rows(lazy.range)), start + 1, end - start) =~= window(
        sheet.rows,
        start,
        end - start,
    ));
    assert(formula_grid(lazy.formula_range, start, end, lazy.width as int)
        =~~= sheet.formulas.subrange(start, end));
}

/// Loading all rows of a sheet keeps its headers and its size.
pub proof fn law_loading_keeps_headers_and_size(lazy: LazySheetData)
    requires
        lazy.is_in_step(),
    ensures
        ({
            let sheet = sheet_of_range(lazy.range, lazy.formula_range);
            &&& sheet.headers == texts(lazy.headers@)
            &&& sheet.width == lazy.width
            &&& sheet.height == lazy.height
        }),
{
}

/// A CSV sheet that gives out its rows on demand loads as the sheet that is loaded at once.
pub proof fn law_lazy_csv_sheet_is_the_csv_sheet(
    lazy: LazySheetData,
    records: Seq<Seq<Seq<char>>>,
)
    requires
        cell_rows(lazy.range) == cells_of(records),
        cell_size(lazy.range).0 == cells_of(records).len(),
        cell_size(lazy.range).1 == width_of(records),
        lazy.formula_range is None,
    ensures
        sheet_of_range(lazy.range, lazy.formula_range) == csv_sheet(records),
{
}

/// A sheet has as many headers as columns, and the values and the formulas of its rows have the
/// same shape: as many rows as the sheet is high, each as wide as the sheet. The values have more
/// rows only where the range has more than its height says.
pub proof fn law_values_and_formulas_are_parallel(
    range: Range<Cell>,
    formulas: Option<Range<String>>,
)
    requires
        is_complete(cell_rows(range), cell_size(range)),
    ensures
        sheet_of_range(range, formulas).is_filled(),
        cell_rows(range).len() == cell_size(range).0 ==> {
            let sheet = sheet_of_range(range, formulas);
            sheet.rows.len() == sheet.height
        },
{
    let sheet = sheet_of_range(range, formulas);
    assert forall|i: int| 0 <= i < sheet.height implies (#[trigger] sheet.rows[i]).len()
        == sheet.width by {
        assert(sheet.rows[i] == value_row(cell_rows(range)[i + 1]));
    }
}

/// The rows that a sheet gives out on demand are as many as were asked for and there are, and so
/// are their formulas. Values and formulas are as wide as the sheet, and there are as many headers.
pub proof fn law_lazy_rows_are_filled(lazy: LazySheetData, start: int, count: int)
    requires
        lazy.is_in_step(),
        is_complete(cell_rows(lazy.range), cell_size(lazy.range)),
        0 <= start <= lazy.height,
        0 <= count,
    ensures
        ({
            let end = if start + count < lazy.height {
                start + count
            } else {
                lazy.height as int
            };
            let rows = window(value_rows(cell_rows(lazy.range)), start + 1, end - start);
            let formulas = formula_grid(lazy.formula_range, start, end, lazy.width as int);
            &&& lazy.headers@.len() == lazy.width
            &&& rows.len() == end - start
            &&& formulas.len() == end - start
            &&& forall|i: int|
                0 <= i < end - start ==> (#[trigger] rows[i]).len() == lazy.width
            &&& forall|i: int|
                0 <= i < end - start ==> (#[trigger] formulas[i]).len() == lazy.width
        }),
{
    assert(texts(lazy.headers@).len() == lazy.headers@.len());
    let end = if start + count < lazy.height {
        start + count
    } else {
        lazy.height as int
    };
    let rows = window(value_rows(cell_rows(lazy.range)), start + 1, end - start);
    assert forall|i: int| 0 <= i < end - start implies (#[trigger] rows[i]).len()
        == lazy.width by {
        assert(rows[i] == value_row(cell_rows(lazy.range)[start + 1 + i]));
    }
}

/// The formulas of a span of rows within a sheet are those that the whole sheet has there, and
/// those of the page that covers the same rows.
pub proof fn law_formula_spans_are_sheet_formulas(lazy: LazySheetData, start: int, end: int)
    requires
        lazy.is_in_step(),
        0 <= start <= end <= lazy.height,
    ensures
        ({
            let span = formula_span(
                lazy.formula_range,
                start,
                end,
                lazy.height as int,
                lazy.width as int,
            );
            let sheet = sheet_of_range(lazy.range, lazy.formula_range);
            &&& span == sheet.formulas.subrange(start, end)
            &&& span == formula_grid(lazy.formula_range, start, end, lazy.width as int)
        }),
{
    let span = formula_span(
        lazy.formula_range,
        start,
        end,
        lazy.height as int,
        lazy.width as int,
    );
    let sheet = sheet_of_range(lazy.range, lazy.formula_range);
    assert(span =~~= sheet.formulas.subrange(start, end));
    assert(span =~~= formula_grid(lazy.formula_range, start, end, lazy.width as int));
}

/// The formula that stands at a row and a column of the sheet, empty where there is none.
pub open spec fn sheet_formula(formulas: Option<Range<String>>, row: int, column: int) -> Seq<
    char,
> {
    match formulas {
        Some(range) => {
            let start = match formula_start(range) {
                Some(start) => start,
                None => (0u32, 0u32),
            };
            let i = row - start.0;
            let j = column - start.1;
            if 0 <= i < formula_rows(range).len() && 0 <= j < formula_rows(range)[i].len() {
                formula_rows(range)[i][j]
            } else {
                Seq::empty()
            }
        },
        None => Seq::empty(),
    }
}

/// A span of rows has a row of formulas for each of its rows, as wide as the sheet. In it stands
/// what the sheet has one row further down, since the header is not counted, and nothing where
/// the sheet has no formula or ends.
pub proof fn law_formula_spans_follow_the_sheet(
    lazy: LazySheetData,
    start: int,
    end: int,
    k: int,
    j: int,
)
    requires
        0 <= start <= end,
        0 <= k < end - start,
        0 <= j < lazy.width,
    ensures
        ({
            let span = formula_span(
                lazy.formula_range,
                start,
                end,
                lazy.height as int,
                lazy.width as int,
            );
            let formula = sheet_formula(lazy.formula_range, start + k + 1, j);
            &&& span.len() == end - start
            &&& span[k].len() == lazy.width
            &&& span[k][j] == if formula.len() > 0 && start + k <= lazy.height {
                Some(formula)
            } else {
                None
            }
        }),
{
}

/// No formula of the data is lost: one that stands in the range of formulas stands in the sheet,
/// at the place in the data that its place in the sheet gives.
pub proof fn law_formulas_keep_their_place(
    range: Range<Cell>,
    formulas: Range<String>,
    i: int,
    j: int,
)
    requires
        0 <= i < formula_rows(formulas).len(),
        0 <= j < formula_rows(formulas)[i].len(),
        formula_rows(formulas)[i][j].len() > 0,
        1 <= formula_corner(formulas).0 + i < cell_size(range).0,
        formula_corner(formulas).1 + j < cell_size(range).1,
    ensures
        sheet_of_range(range, Some(formulas)).formulas[formula_corner(formulas).0 + i
            - 1][formula_corner(formulas).1 + j] == Some(formula_rows(formulas)[i][j]),
{
    let row = formula_corner(formulas).0 + i - 1;
    let column = formula_corner(formulas).1 + j;
    assert(formula_at(Some(formulas), row, column) == Some(formula_rows(formulas)[i][j]));
}

/// The field of records at a row and a column, empty where it is missing.
pub open spec fn field_at(records: Seq<Seq<Seq<char>>>, row: int, column: int) -> Seq<char> {
    if column < records[row].len() {
        records[row][column]
    } else {
        Seq::empty()
    }
}

/// A CSV sheet has the fields of its first record as headers and exports those of the others as
/// its values. Records that are too short are filled up with empty cells, and nothing in the
/// sheet has a formula.
pub proof fn law_csv_sheet_holds_its_fields(records: Seq<Seq<Seq<char>>>)
    requires
        records.len() > 0,
        width_of(records) > 0,
    ensures
        ({
            let sheet = csv_sheet(records);
            &&& sheet.width == width_of(records)
            &&& sheet.height == records.len() - 1
            &&& sheet.headers == Seq::new(
                width_of(records),
                |j: int| field_at(records, 0, j),
            )
            &&& sheet.rows.len() == sheet.height
            &&& sheet.formulas.len() == sheet.height
            &&& forall|i: int|
                0 <= i < sheet.height ==> (#[trigger] sheet.rows[i]).len() == sheet.width
            &&& forall|i: int, j: int|
                0 <= i < sheet.height && 0 <= j < sheet.width ==> exported(
                    #[trigger] sheet.rows[i][j],
                ) == field_at(records, i + 1, j)
            &&& forall|i: int, j: int|
                0 <= i < sheet.height && 0 <= j < sheet.width
                    ==> #[trigger] sheet.formulas[i][j] is None
        }),
{
    let sheet = csv_sheet(records);
    let rows = cells_of(records);
    assert forall|i: int, j: int| 0 <= i < records.len() && 0 <= j < width_of(records) implies
        header_text(#[trigger] rows[i][j]) == field_at(records, i, j) && exported(
        value_of(rows[i][j]),
    ) == field_at(records, i, j) by {
        assert(rows[i][j] == cell_at(records, i, j));
        assert(field_at(records, i, j).len() == 0 ==> field_at(records, i, j) == Seq::<
            char,
        >::empty());
    }
    assert(sheet.headers =~= Seq::new(width_of(records), |j: int| field_at(records, 0, j)));
    assert forall|i: int| 0 <= i < sheet.height implies (#[trigger] sheet.rows[i]).len()
        == sheet.width by {
        assert(sheet.rows[i] == value_row(rows[i + 1]));
    }
    assert forall|i: int, j: int| 0 <= i < sheet.height && 0 <= j < sheet.width implies exported(
        #[trigger] sheet.rows[i][j],
    ) == field_at(records, i + 1, j) by {
        assert(sheet.rows[i] == value_row(rows[i + 1]));
        assert(sheet.rows[i][j] == value_of(rows[i + 1][j]));
    }
}

/// A cell at the head of a column is shown as its value is exported, but for errors and points in
/// time.
pub proof fn law_headers_are_exported_values(cell: CellView)
    requires
        !(cell is Error),
        !(cell is DateTime),
    ensures
        header_text(cell) == exported(value_of(cell)),
{
}

/// Texts, truth values and empty cells are shown as they are exported, and so is a date, with a
/// time of day in both or in neither, if that is not negative.
pub proof fn law_plain_values_are_shown_as_exported(value: ValueView)
    requires
        match value {
            ValueView::Empty | ValueView::String(_) | ValueView::Bool(_) => true,
            ValueView::DateTime(d) => {
                &&& serial_is_date(d.days)
                &&& d.shows_time == d.exports_time
                &&& d.shows_time ==> d.seconds >= 0
            },
            _ => false,
        },
    ensures
        shown(value) == exported(value),
{
}

/// The serial number after `serial` is that of the next day, but for the two numbers that stand
/// for 1 March 1900.
pub proof fn law_serial_numbers_count_days(serial: int)
    ensures
        serial_day(serial + 1) == if serial == 60 {
            serial_day(serial)
        } else {
            serial_day(serial) + 1
        },
{
}

/// A marker column that the row does not have makes no percentage row.
pub proof fn law_missing_columns_do_not_mark(
    row: Seq<ValueView>,
    columns: Seq<usize>,
    column: usize,
)
    requires
        !has_column(row, column as int),
    ensures
        is_percentage_row(row, columns.push(column)) == is_percentage_row(row, columns),
{
    let more = columns.push(column);
    if is_percentage_row(row, more) {
        let k = choose|k: int| 0 <= k < more.len() && is_marked(row, #[trigger] more[k] as int);
        assert(columns[k] == more[k]);
    }
    if is_percentage_row(row, columns) {
        let k = choose|k: int|
            0 <= k < columns.len() && is_marked(row, #[trigger] columns[k] as int);
        assert(more[k] == columns[k]);
    }
}

}
