//! What sheets, pages and tables hold of the cells that they are loaded from.

use calamine::Range;
use vstd::prelude::*;

use crate::cell::{shown, Cell, CellView, ValueView};
use crate::csv::{cells_of, csv_start, fit_in_range, width_of};
use crate::error::{error_text, ErrorView};
use crate::grid::{cell_rows, cell_size, formula_rows, formula_start};
use crate::number_laws::{is_written_integer, lemma_integer_text};
use crate::sheet::{
    formula_at, formula_grid, formula_span, header_text, sheet_of_range, table_of, value_of,
    value_row, value_rows, window, LazySheetData, Table,
};
use crate::text::same_but_for_case;
use crate::workbook::{csv_sheet, csv_sheet_name, is_csv};

verus! {

broadcast use vstd::string::group_string_axioms;

/// Loading keeps what a cell holds: a truth value, an integer, a decimal number and a point in
/// time stay what they are, texts and ISO dates and durations stay their text, and nothing stays
/// nothing.
pub proof fn law_loading_keeps_contents(cell: CellView)
    ensures
        match cell {
            CellView::Empty => value_of(cell) is Empty,
            CellView::String(s) | CellView::DateTimeIso(s) | CellView::DurationIso(s) => value_of(
                cell,
            ) == ValueView::String(s),
            CellView::Int(i) => value_of(cell) == ValueView::Int(i),
            CellView::Float(f) => value_of(cell) == ValueView::Float(f),
            CellView::Bool(b) => value_of(cell) == ValueView::Bool(b),
            CellView::Error(_) => value_of(cell) is Error,
            CellView::DateTime(d) => value_of(cell) == ValueView::DateTime(d),
        },
{
}

/// Whether two cells hold the same text, in whichever way it is written down.
pub open spec fn hold_the_same_text(a: CellView, b: CellView) -> bool {
    match (a, b) {
        (
            CellView::String(s) | CellView::DateTimeIso(s) | CellView::DurationIso(s),
            CellView::String(t) | CellView::DateTimeIso(t) | CellView::DurationIso(t),
        ) => s == t,
        _ => false,
    }
}

/// Loading loses no value: two cells with the same value are the same cell, or hold the same text.
pub proof fn law_loading_loses_nothing(a: CellView, b: CellView)
    requires
        value_of(a) == value_of(b),
    ensures
        a == b || hold_the_same_text(a, b),
{
    reveal_strlit("Div0");
    reveal_strlit("NA");
    reveal_strlit("Name");
    reveal_strlit("Null");
    reveal_strlit("Num");
    reveal_strlit("Ref");
    reveal_strlit("Value");
    reveal_strlit("GettingData");
    if a is Error && b is Error {
        let s = value_of(a)->Error_0;
        let t = value_of(b)->Error_0;
        assert(s[0] == t[0]);
        assert(s[1] == t[1]);
        assert(s.len() > 2 && t.len() > 2 ==> s[2] == t[2]);
    }
}

/// A header is the text of its cell: a truth value is "true" exactly if it is true, an integer is
/// in decimal, a decimal number has no decimal places if it is whole, and a point in time is its
/// serial number between brackets. An error is named as where its value is shown.
pub proof fn law_headers_keep_contents(cell: CellView)
    ensures
        match cell {
            CellView::Empty => header_text(cell).len() == 0,
            CellView::String(s) | CellView::DateTimeIso(s) | CellView::DurationIso(s) =>
                header_text(cell) == s,
            CellView::Int(i) => is_written_integer(header_text(cell), i),
            CellView::Float(f) => header_text(cell) == if f.whole {
                f.rounded
            } else {
                f.shortest
            },
            CellView::Bool(b) => header_text(cell) == if b {
                seq!['t', 'r', 'u', 'e']
            } else {
                seq!['f', 'a', 'l', 's', 'e']
            },
            CellView::Error(_) => header_text(cell) == shown(value_of(cell)),
            CellView::DateTime(d) => header_text(cell) == seq!['D', 'a', 't', 'e', '('] + d.text
                + seq![')'],
        },
{
    reveal_strlit("true");
    reveal_strlit("false");
    reveal_strlit("Date(");
    assert("true"@ == seq!['t', 'r', 'u', 'e']);
    assert("false"@ == seq!['f', 'a', 'l', 's', 'e']);
    assert("Date("@ == seq!['D', 'a', 't', 'e', '(']);
    if let CellView::Int(i) = cell {
        lemma_integer_text(i);
    }
    if let CellView::DateTime(d) = cell {
        assert("Date("@ + d.text.push(')') == "Date("@ + d.text + seq![')']);
    }
}

/// A sheet has the texts of the first row as headers, and below them a value for every cell of the
/// other rows, in their order. It is as wide as its range, and as high without the header.
pub proof fn law_sheets_hold_their_cells(range: Range<Cell>, formulas: Option<Range<String>>)
    ensures
        ({
            let sheet = sheet_of_range(range, formulas);
            let rows = cell_rows(range);
            let (height, width) = cell_size(range);
            &&& sheet.width == width
            &&& height > 0 ==> sheet.height == height - 1
            &&& height == 0 ==> sheet.height == 0
            &&& height == 0 || rows.len() == 0 ==> sheet.headers.len() == 0
            &&& height > 0 && rows.len() > 0 ==> {
                &&& sheet.headers.len() == rows[0].len()
                &&& forall|j: int|
                    0 <= j < rows[0].len() ==> #[trigger] sheet.headers[j] == header_text(
                        rows[0][j],
                    )
            }
            &&& rows.len() == 0 ==> sheet.rows.len() == 0
            &&& rows.len() > 0 ==> sheet.rows.len() == rows.len() - 1
            &&& forall|i: int|
                0 <= i < sheet.rows.len() ==> (#[trigger] sheet.rows[i]).len() == rows[i + 1].len()
            &&& forall|i: int, j: int|
                0 <= i < sheet.rows.len() && 0 <= j < sheet.rows[i].len()
                    ==> #[trigger] sheet.rows[i][j] == value_of(rows[i + 1][j])
        }),
{
    let sheet = sheet_of_range(range, formulas);
    let rows = cell_rows(range);
    assert forall|i: int| 0 <= i < sheet.rows.len() implies #[trigger] sheet.rows[i] == value_row(
        rows[i + 1],
    ) by {}
}

/// The rows that a sheet gives out from `start` on are those of its range one row further down,
/// since the header is not counted, up to `end` or to the last.
pub proof fn law_pages_hold_their_cells(range: Range<Cell>, start: int, end: int)
    requires
        0 <= start <= end,
    ensures
        ({
            let page = window(value_rows(cell_rows(range)), start + 1, end - start);
            let rows = cell_rows(range);
            &&& end < rows.len() ==> page.len() == end - start
            &&& start < rows.len() <= end ==> page.len() == rows.len() - 1 - start
            &&& rows.len() <= start ==> page.len() == 0
            &&& forall|k: int|
                0 <= k < page.len() ==> (#[trigger] page[k]).len() == rows[start + 1 + k].len()
            &&& forall|k: int, j: int|
                0 <= k < page.len() && 0 <= j < page[k].len() ==> #[trigger] page[k][j] == value_of(
                    rows[start + 1 + k][j],
                )
        }),
{
    let page = window(value_rows(cell_rows(range)), start + 1, end - start);
    assert forall|k: int| 0 <= k < page.len() implies #[trigger] page[k] == value_row(
        cell_rows(range)[start + 1 + k],
    ) by {}
}

/// A table keeps its name, the name of its sheet and its columns, and has a value for every cell
/// of its rows, in their order.
pub proof fn law_tables_hold_their_cells(table: Table)
    ensures
        ({
            let data = table_of(table);
            let rows = cell_rows(table.data);
            &&& data.name == table.name@
            &&& data.sheet_name == table.sheet_name@
            &&& data.headers.len() == table.columns@.len()
            &&& forall|j: int|
                0 <= j < data.headers.len() ==> #[trigger] data.headers[j] == table.columns@[j]@
            &&& data.rows.len() == rows.len()
            &&& forall|i: int|
                0 <= i < rows.len() ==> (#[trigger] data.rows[i]).len() == rows[i].len()
            &&& forall|i: int, j: int|
                0 <= i < rows.len() && 0 <= j < rows[i].len() ==> #[trigger] data.rows[i][j]
                    == value_of(rows[i][j])
        }),
{
    let data = table_of(table);
    assert forall|i: int| 0 <= i < data.rows.len() implies #[trigger] data.rows[i] == value_row(
        cell_rows(table.data)[i],
    ) by {}
}

/// What stands at a row and a column of a range of formulas, counted from its own corner: a
/// formula that is not empty, or nothing, also outside of the range.
pub open spec fn formula_of_offset(formulas: Range<String>, i: int, j: int) -> Option<Seq<char>> {
    let rows = formula_rows(formulas);
    if 0 <= i < rows.len() && 0 <= j < rows[i].len() && rows[i][j].len() > 0 {
        Some(rows[i][j])
    } else {
        None
    }
}

/// A formula stands at the cell of the sheet that it belongs to. With the start that the range of
/// formulas reports, the formula at its row `i` and column `j` stands `i` rows below and `j`
/// columns right of the start, where the header is row 0 of the sheet and the data starts at row 1.
/// Every other place has the formula that belongs there in the same way, or none.
pub proof fn law_formulas_stand_at_their_cells(
    range: Range<Cell>,
    formulas: Range<String>,
    start: (u32, u32),
)
    requires
        match formula_start(formulas) {
            Some(reported) => start == reported,
            None => start == (0u32, 0u32),
        },
    ensures
        ({
            let sheet = sheet_of_range(range, Some(formulas));
            let rows = formula_rows(formulas);
            let (height, width) = cell_size(range);
            &&& sheet.formulas.len() == if height > 0 {
                height - 1
            } else {
                0
            }
            &&& forall|row: int|
                0 <= row < sheet.formulas.len() ==> (#[trigger] sheet.formulas[row]).len() == width
            &&& forall|row: int, column: int|
                0 <= row < sheet.formulas.len() && 0 <= column < width
                    ==> #[trigger] sheet.formulas[row][column] == formula_of_offset(
                    formulas,
                    row + 1 - start.0,
                    column - start.1,
                )
            &&& forall|i: int, j: int|
                {
                    &&& 0 <= i < rows.len()
                    &&& 0 <= j < rows[i].len()
                    &&& (#[trigger] rows[i][j]).len() > 0
                    &&& 1 <= start.0 + i < height
                    &&& start.1 + j < width
                } ==> sheet.formulas[start.0 + i - 1][start.1 + j] == Some(rows[i][j])
        }),
{
    let sheet = sheet_of_range(range, Some(formulas));
    let rows = formula_rows(formulas);
    assert forall|row: int, column: int|
        0 <= row < sheet.formulas.len() && 0 <= column < cell_size(range).1
            implies #[trigger] sheet.formulas[row][column] == formula_of_offset(
        formulas,
        row + 1 - start.0,
        column - start.1,
    ) by {
        assert(sheet.formulas[row][column] == formula_at(Some(formulas), row, column));
    }
    assert forall|i: int, j: int|
        {
            &&& 0 <= i < rows.len()
            &&& 0 <= j < rows[i].len()
            &&& (#[trigger] rows[i][j]).len() > 0
            &&& 1 <= start.0 + i < cell_size(range).0
            &&& start.1 + j < cell_size(range).1
        } implies sheet.formulas[start.0 + i - 1][start.1 + j] == Some(rows[i][j]) by {
        let (row, column) = (start.0 + i - 1, start.1 + j);
        assert(sheet.formulas[row][column] == formula_at(Some(formulas), row, column));
    }
}

/// The formulas that a sheet gives out by page, or for a span of rows, stand at their cells in the
/// same way.
pub proof fn law_paged_formulas_stand_at_their_cells(
    lazy: LazySheetData,
    formulas: Range<String>,
    start: (u32, u32),
    from: int,
    to: int,
)
    requires
        lazy.formula_range == Some(formulas),
        match formula_start(formulas) {
            Some(reported) => start == reported,
            None => start == (0u32, 0u32),
        },
        0 <= from <= to,
    ensures
        ({
            let page = formula_grid(lazy.formula_range, from, to, lazy.width as int);
            let span = formula_span(
                lazy.formula_range,
                from,
                to,
                lazy.height as int,
                lazy.width as int,
            );
            &&& page.len() == to - from
            &&& span.len() == to - from
            &&& forall|k: int|
                0 <= k < to - from ==> (#[trigger] page[k]).len() == lazy.width
            &&& forall|k: int|
                0 <= k < to - from ==> (#[trigger] span[k]).len() == lazy.width
            &&& forall|k: int, j: int|
                0 <= k < to - from && 0 <= j < lazy.width ==> #[trigger] page[k][j]
                    == formula_of_offset(formulas, from + k + 1 - start.0, j - start.1)
            &&& forall|k: int, j: int|
                0 <= k < to - from && 0 <= j < lazy.width && from + k <= lazy.height
                    ==> #[trigger] span[k][j] == formula_of_offset(
                    formulas,
                    from + k + 1 - start.0,
                    j - start.1,
                )
            &&& forall|k: int, j: int|
                0 <= k < to - from && 0 <= j < lazy.width && from + k > lazy.height
                    ==> #[trigger] span[k][j] is None
        }),
{
    let page = formula_grid(lazy.formula_range, from, to, lazy.width as int);
    let span = formula_span(lazy.formula_range, from, to, lazy.height as int, lazy.width as int);
    assert forall|k: int, j: int| 0 <= k < to - from && 0 <= j < lazy.width implies
        #[trigger] page[k][j] == formula_of_offset(
        formulas,
        from + k + 1 - start.0,
        j - start.1,
    ) by {
        assert(page[k][j] == formula_at(Some(formulas), from + k, j));
    }
    assert forall|k: int, j: int|
        0 <= k < to - from && 0 <= j < lazy.width && from + k <= lazy.height implies
        #[trigger] span[k][j] == formula_of_offset(
        formulas,
        from + k + 1 - start.0,
        j - start.1,
    ) by {
        assert(span[k][j] == formula_at(Some(formulas), from + k, j));
    }
}

/// A sheet without formulas has a place for each, and nothing there.
pub proof fn law_missing_formulas_are_none(
    range: Range<Cell>,
    lazy: LazySheetData,
    from: int,
    to: int,
)
    requires
        lazy.formula_range is None,
        0 <= from <= to,
    ensures
        ({
            let sheet = sheet_of_range(range, None);
            let page = formula_grid(lazy.formula_range, from, to, lazy.width as int);
            let span = formula_span(
                lazy.formula_range,
                from,
                to,
                lazy.height as int,
                lazy.width as int,
            );
            &&& sheet.formulas.len() == sheet.height
            &&& forall|row: int, column: int|
                0 <= row < sheet.height && 0 <= column < sheet.width
                    ==> #[trigger] sheet.formulas[row][column] is None
            &&& forall|row: int|
                0 <= row < sheet.height ==> (#[trigger] sheet.formulas[row]).len() == sheet.width
            &&& page.len() == to - from
            &&& span == page
            &&& forall|k: int|
                0 <= k < to - from ==> (#[trigger] page[k]).len() == lazy.width
            &&& forall|k: int, j: int|
                0 <= k < to - from && 0 <= j < lazy.width ==> #[trigger] page[k][j] is None
        }),
{
    let page = formula_grid(lazy.formula_range, from, to, lazy.width as int);
    let span = formula_span(lazy.formula_range, from, to, lazy.height as int, lazy.width as int);
    assert(span =~~= page);
}

/// Records are as wide as the longest of them.
pub proof fn law_records_are_as_wide_as_the_longest(records: Seq<Seq<Seq<char>>>)
    ensures
        forall|k: int|
            0 <= k < records.len() ==> (#[trigger] records[k]).len() <= width_of(records),
        records.len() == 0 ==> width_of(records) == 0,
        records.len() > 0 ==> exists|k: int|
            0 <= k < records.len() && (#[trigger] records[k]).len() == width_of(records),
    decreases records.len(),
{
    if records.len() > 0 {
        let before = records.drop_last();
        law_records_are_as_wide_as_the_longest(before);
        assert(records[records.len() - 1] == records.last());
        assert forall|k: int| 0 <= k < records.len() implies (#[trigger] records[k]).len()
            <= width_of(records) by {
            if k < before.len() {
                assert(before[k].len() <= width_of(before));
            }
        }
        if records.last().len() <= width_of(before) && before.len() > 0 {
            let k = choose|k: int|
                0 <= k < before.len() && (#[trigger] before[k]).len() == width_of(before);
            assert(records[k].len() == width_of(records));
        }
    }
}

/// The cells of records are their fields: a text where a field is not empty, nothing where it is
/// empty or missing, in as many rows as there are records and as many columns as the longest has
/// fields. They start at the corner of the sheet. Records without a single field make no cells.
pub proof fn law_csv_cells_are_fields(records: Seq<Seq<Seq<char>>>)
    ensures
        ({
            let cells = cells_of(records);
            let some = exists|k: int| 0 <= k < records.len() && (#[trigger] records[k]).len() > 0;
            &&& !some ==> cells.len() == 0 && csv_start(records) is None
            &&& some ==> cells.len() == records.len() && csv_start(records) == Some((0u32, 0u32))
            &&& forall|i: int|
                0 <= i < cells.len() ==> (#[trigger] cells[i]).len() == width_of(records)
            &&& forall|i: int, j: int|
                0 <= i < records.len() && 0 <= j < records[i].len() && records[i][j].len() > 0
                    ==> #[trigger] cells[i][j] == CellView::String(records[i][j])
            &&& forall|i: int, j: int|
                0 <= i < cells.len() && 0 <= j < width_of(records) && (j >= records[i].len()
                    || records[i][j].len() == 0) ==> #[trigger] cells[i][j] is Empty
        }),
{
    law_records_are_as_wide_as_the_longest(records);
    let cells = cells_of(records);
    if width_of(records) > 0 {
        let k = choose|k: int|
            0 <= k < records.len() && (#[trigger] records[k]).len() == width_of(records);
        assert(records[k].len() > 0);
    }
    assert forall|i: int, j: int|
        0 <= i < records.len() && 0 <= j < records[i].len() && records[i][j].len()
            > 0 implies #[trigger] cells[i][j] == CellView::String(records[i][j]) by {
        assert(records[i].len() <= width_of(records));
    }
}

/// Records fit into a range exactly if their number times that of the fields of any of them can be
/// counted in 32 bits.
pub proof fn law_fitting_records_can_be_counted(records: Seq<Seq<Seq<char>>>)
    ensures
        fit_in_range(records) <==> forall|k: int|
            0 <= k < records.len() ==> records.len() * (#[trigger] records[k]).len() <= u32::MAX,
{
    law_records_are_as_wide_as_the_longest(records);
    let n = records.len();
    let w = width_of(records);
    if fit_in_range(records) {
        assert forall|k: int| 0 <= k < n implies n * (#[trigger] records[k]).len()
            <= u32::MAX by {
            let m = records[k].len();
            assert(n * m <= n * w) by (nonlinear_arith)
                requires
                    m <= w,
            ;
        }
    } else if n > 0 {
        let k = choose|k: int| 0 <= k < n && (#[trigger] records[k]).len() == w;
        assert(n * records[k].len() > u32::MAX);
    } else {
        assert(n * w == 0) by (nonlinear_arith)
            requires
                n == 0,
        ;
    }
}

/// The sheet of a CSV file has the fields of the first record as headers, and those of the others
/// as its values: a text where a field is not empty, else nothing.
pub proof fn law_csv_sheets_hold_their_fields(records: Seq<Seq<Seq<char>>>)
    requires
        exists|k: int| 0 <= k < records.len() && (#[trigger] records[k]).len() > 0,
    ensures
        ({
            let sheet = csv_sheet(records);
            &&& sheet.width == width_of(records)
            &&& sheet.height == records.len() - 1
            &&& sheet.headers.len() == sheet.width
            &&& forall|j: int|
                0 <= j < records[0].len() ==> #[trigger] sheet.headers[j] == records[0][j]
            &&& forall|j: int|
                records[0].len() <= j < sheet.width ==> (#[trigger] sheet.headers[j]).len() == 0
            &&& sheet.rows.len() == sheet.height
            &&& forall|i: int|
                0 <= i < sheet.height ==> (#[trigger] sheet.rows[i]).len() == sheet.width
            &&& forall|i: int, j: int|
                0 <= i < sheet.height && 0 <= j < records[i + 1].len() && records[i + 1][j].len()
                    > 0 ==> #[trigger] sheet.rows[i][j] == ValueView::String(records[i + 1][j])
            &&& forall|i: int, j: int|
                0 <= i < sheet.height && 0 <= j < sheet.width && (j >= records[i + 1].len()
                    || records[i + 1][j].len() == 0) ==> #[trigger] sheet.rows[i][j] is Empty
            &&& sheet.formulas.len() == sheet.height
            &&& forall|i: int|
                0 <= i < sheet.height ==> (#[trigger] sheet.formulas[i]).len() == sheet.width
            &&& forall|i: int, j: int|
                0 <= i < sheet.height && 0 <= j < sheet.width
                    ==> #[trigger] sheet.formulas[i][j] is None
        }),
{
    law_records_are_as_wide_as_the_longest(records);
    law_csv_cells_are_fields(records);
    let sheet = csv_sheet(records);
    let cells = cells_of(records);
    assert forall|j: int| 0 <= j < records[0].len() implies #[trigger] sheet.headers[j]
        == records[0][j] by {
        assert(cells[0][j] == if records[0][j].len() > 0 {
            CellView::String(records[0][j])
        } else {
            CellView::Empty
        });
        assert(records[0][j].len() == 0 ==> records[0][j] =~= Seq::<char>::empty());
    }
    assert forall|j: int| records[0].len() <= j < sheet.width implies (
    #[trigger] sheet.headers[j]).len() == 0 by {
        assert(cells[0][j] is Empty);
    }
    assert forall|i: int| 0 <= i < sheet.height implies #[trigger] sheet.rows[i] == value_row(
        cells[i + 1],
    ) by {}
    assert forall|i: int, j: int|
        0 <= i < sheet.height && 0 <= j < records[i + 1].len() && records[i + 1][j].len()
            > 0 implies #[trigger] sheet.rows[i][j] == ValueView::String(records[i + 1][j]) by {
        assert(records[i + 1].len() <= width_of(records));
        assert(cells[i + 1][j] == CellView::String(records[i + 1][j]));
    }
    assert forall|i: int, j: int|
        0 <= i < sheet.height && 0 <= j < sheet.width && (j >= records[i + 1].len() || records[i
            + 1][j].len() == 0) implies #[trigger] sheet.rows[i][j] is Empty by {
        assert(cells[i + 1][j] is Empty);
    }
}

/// The sheet of an empty CSV file is empty.
pub proof fn law_empty_csv_files_have_empty_sheets()
    ensures
        ({
            let sheet = csv_sheet(Seq::empty());
            &&& sheet.width == 0
            &&& sheet.height == 0
            &&& sheet.headers.len() == 0
            &&& sheet.rows.len() == 0
            &&& sheet.formulas.len() == 0
        }),
{
}

/// Whether two characters are the same, or the two cases of a letter from A to Z.
pub open spec fn is_same_letter(a: char, b: char) -> bool {
    ||| a == b
    ||| 'A' <= a && a <= 'Z' && b as int == a as int + 32
    ||| 'A' <= b && b <= 'Z' && a as int == b as int + 32
}

/// Texts differ at most in case exactly if each of their characters does.
pub proof fn law_case_is_that_of_letters(a: Seq<char>, b: Seq<char>)
    ensures
        same_but_for_case(a, b) <==> a.len() == b.len() && forall|i: int|
            0 <= i < a.len() ==> is_same_letter(#[trigger] a[i], b[i]),
{
    if same_but_for_case(a, b) {
        assert forall|i: int| 0 <= i < a.len() implies is_same_letter(#[trigger] a[i], b[i]) by {}
    }
}

/// A file is a CSV file exactly if its extension is "csv", in whichever case.
pub proof fn law_csv_files_are_named_so(extension: Option<&str>)
    ensures
        is_csv(extension) <==> match extension {
            Some(s) => {
                &&& s@.len() == 3
                &&& s@[0] == 'c' || s@[0] == 'C'
                &&& s@[1] == 's' || s@[1] == 'S'
                &&& s@[2] == 'v' || s@[2] == 'V'
            },
            None => false,
        },
{
    reveal_strlit("csv");
    if let Some(s) = extension {
        law_case_is_that_of_letters(s@, "csv"@);
        if is_csv(extension) {
            assert(is_same_letter(s@[0], "csv"@[0]));
            assert(is_same_letter(s@[1], "csv"@[1]));
            assert(is_same_letter(s@[2], "csv"@[2]));
        }
    }
}

/// The sheet of a CSV file is named as the file, or "CSV" if that has no name.
pub proof fn law_csv_sheets_are_named_as_their_files(stem: Option<&str>)
    ensures
        match stem {
            Some(s) => s@.len() > 0 ==> csv_sheet_name(stem) == s@,
            None => true,
        },
        (stem matches Some(s) ==> s@.len() == 0) ==> csv_sheet_name(stem) == seq!['C', 'S', 'V'],
{
    reveal_strlit("CSV");
    assert("CSV"@ == seq!['C', 'S', 'V']);
}

/// The messages of errors about a name have it, and what else is known, at the same place among
/// the same words, whatever they are.
pub proof fn law_messages_name_what_is_missing(
    name: Seq<char>,
    other: Seq<char>,
    name2: Seq<char>,
    other2: Seq<char>,
)
    ensures
        exists|a: Seq<char>, b: Seq<char>|
            #![trigger a + name + b]
            error_text(ErrorView::SheetNotFound { name }) == a + name + b && error_text(
                ErrorView::SheetNotFound { name: name2 },
            ) == a + name2 + b && a.len() == 7 && b.len() == 11,
        exists|a: Seq<char>, b: Seq<char>|
            #![trigger a + name + b]
            error_text(ErrorView::CsvSheetNotFound { requested: name, available: other }) == a
                + name + b + other && error_text(
                ErrorView::CsvSheetNotFound { requested: name2, available: other2 },
            ) == a + name2 + b + other2 && a.len() == 7 && b.len() == 31,
        exists|a: Seq<char>, b: Seq<char>|
            #![trigger a + name + b]
            error_text(ErrorView::TableNotFound { name, cause: other }) == a + name + b + other
                && error_text(ErrorView::TableNotFound { name: name2, cause: other2 }) == a + name2
                + b + other2 && a.len() == 7 && b.len() == 13,
{
    reveal_strlit("Sheet '");
    reveal_strlit("' not found");
    reveal_strlit("' not found. Available sheets: ");
    reveal_strlit("Table '");
    reveal_strlit("' not found: ");
    assert(error_text(ErrorView::SheetNotFound { name }) == "Sheet '"@ + name + "' not found"@);
    assert(error_text(ErrorView::CsvSheetNotFound { requested: name, available: other })
        == "Sheet '"@ + name + "' not found. Available sheets: "@ + other);
    assert(error_text(ErrorView::TableNotFound { name, cause: other }) == "Table '"@ + name
        + "' not found: "@ + other);
}

}
