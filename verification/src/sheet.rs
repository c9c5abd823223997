//! Sheets and tables: headers, rows of values and the formulas behind them.

use calamine::Range;
use vstd::prelude::*;
use vstd::string::StringExecFns;

use crate::cell::{
    bool_text, cell_error_name, plain_float, push_bool, Cell, CellValue, CellView, ValueView,
};
use crate::display::values;
use crate::grid::{
    cell_rows, cell_size, cells, formula_rows, formula_start, has_shape, is_countable,
    rows_of_cells, rows_of_formulas, size_of_cells, start_of_formulas,
};
use crate::laws::{law_lazy_rows_are_filled, law_values_and_formulas_are_parallel};
use crate::text::{int_text, push_int, texts};

verus! {

broadcast use vstd::string::group_string_axioms;

/// The elements of `s` from `start` on, at most `count` of them, as far as there are any.
pub open spec fn window<T>(s: Seq<T>, start: int, count: int) -> Seq<T> {
    let from = if start < s.len() {
        start
    } else {
        s.len() as int
    };
    let to = if start + count < s.len() {
        start + count
    } else {
        s.len() as int
    };
    s.subrange(from, to)
}

/// The text of a cell at the head of a column.
pub open spec fn header_text(cell: CellView) -> Seq<char> {
    match cell {
        CellView::Empty => Seq::empty(),
        CellView::String(s) => s,
        CellView::Int(i) => int_text(i),
        CellView::Float(f) => plain_float(f),
        CellView::Bool(b) => bool_text(b),
        CellView::Error(e) => "ERROR: "@ + cell_error_name(e),
        CellView::DateTime(d) => "Date("@ + d.text.push(')'),
        CellView::DateTimeIso(s) => s,
        CellView::DurationIso(s) => s,
    }
}

/// The value of a cell: ISO dates and durations are kept as text, and errors by name.
pub open spec fn value_of(cell: CellView) -> ValueView {
    match cell {
        CellView::Empty => ValueView::Empty,
        CellView::String(s) => ValueView::String(s),
        CellView::Int(i) => ValueView::Int(i),
        CellView::Float(f) => ValueView::Float(f),
        CellView::Bool(b) => ValueView::Bool(b),
        CellView::Error(e) => ValueView::Error(cell_error_name(e)),
        CellView::DateTime(d) => ValueView::DateTime(d),
        CellView::DateTimeIso(s) => ValueView::String(s),
        CellView::DurationIso(s) => ValueView::String(s),
    }
}

/// The headers that a row of cells gives.
pub open spec fn header_row(row: Seq<CellView>) -> Seq<Seq<char>> {
    Seq::new(row.len(), |j: int| header_text(row[j]))
}

/// The values of a row of cells.
pub open spec fn value_row(row: Seq<CellView>) -> Seq<ValueView> {
    Seq::new(row.len(), |j: int| value_of(row[j]))
}

/// The values of rows of cells.
pub open spec fn value_rows(rows: Seq<Seq<CellView>>) -> Seq<Seq<ValueView>> {
    Seq::new(rows.len(), |i: int| value_row(rows[i]))
}

/// The headers of a sheet of this height: its first row, if it has one.
pub open spec fn headers_of(rows: Seq<Seq<CellView>>, height: int) -> Seq<Seq<char>> {
    if height > 0 && rows.len() > 0 {
        header_row(rows[0])
    } else {
        Seq::empty()
    }
}

/// The number of rows below the header of a sheet of this height.
pub open spec fn data_height(height: int) -> int {
    if height > 0 {
        height - 1
    } else {
        0
    }
}

/// The corner of the sheet from which a range of formulas is counted.
pub open spec fn formula_corner(formulas: Range<String>) -> (u32, u32) {
    match formula_start(formulas) {
        Some(start) => start,
        None => (0u32, 0u32),
    }
}

/// The formula of a cell, by its row below the header and its column, among the formulas that
/// stand from the corner of a range on: the one at its place in the sheet, if there is one and
/// it is not empty.
pub open spec fn formula_in(
    formulas: Seq<Seq<Seq<char>>>,
    corner: (u32, u32),
    row: int,
    column: int,
) -> Option<Seq<char>> {
    let i = row + 1 - corner.0;
    let j = column - corner.1;
    if 0 <= i < formulas.len() && 0 <= j < formulas[i].len() && formulas[i][j].len() > 0 {
        Some(formulas[i][j])
    } else {
        None
    }
}

/// The formula of a cell, by its row below the header and its column.
pub open spec fn formula_at(formulas: Option<Range<String>>, row: int, column: int) -> Option<
    Seq<char>,
> {
    match formulas {
        Some(range) => formula_in(formula_rows(range), formula_corner(range), row, column),
        None => None,
    }
}

/// The formulas of the rows from `start` up to `end` below the header, in `width` columns.
pub open spec fn formula_grid(
    formulas: Option<Range<String>>,
    start: int,
    end: int,
    width: int,
) -> Seq<Seq<Option<Seq<char>>>> {
    Seq::new(
        (end - start) as nat,
        |i: int| Seq::new(width as nat, |j: int| formula_at(formulas, start + i, j)),
    )
}

/// The formulas of the rows from `start` up to `end` below the header, in `width` columns, of a
/// sheet with `height` rows below the header. Behind the row that follows the last there are none.
pub open spec fn formula_span(
    formulas: Option<Range<String>>,
    start: int,
    end: int,
    height: int,
    width: int,
) -> Seq<Seq<Option<Seq<char>>>> {
    Seq::new(
        (end - start) as nat,
        |i: int|
            Seq::new(
                width as nat,
                |j: int|
                    if start + i <= height {
                        formula_at(formulas, start + i, j)
                    } else {
                        None
                    },
            ),
    )
}

/// The mathematical values of rows of values.
pub open spec fn value_table(rows: Seq<Vec<CellValue>>) -> Seq<Seq<ValueView>> {
    Seq::new(rows.len(), |i: int| values(rows[i]@))
}

/// The view of a formula that may be missing.
pub open spec fn formula_view(formula: Option<String>) -> Option<Seq<char>> {
    match formula {
        Some(text) => Some(text@),
        None => None,
    }
}

/// The views of rows of texts.
pub open spec fn text_rows(rows: Seq<&[String]>) -> Seq<Seq<Seq<char>>> {
    Seq::new(rows.len(), |i: int| texts(rows[i]@))
}

/// The views of a row of formulas.
pub open spec fn formula_views(row: Seq<Option<String>>) -> Seq<Option<Seq<char>>> {
    Seq::new(row.len(), |j: int| formula_view(row[j]))
}

/// The views of rows of formulas.
pub open spec fn formula_table(rows: Seq<Vec<Option<String>>>) -> Seq<Seq<Option<Seq<char>>>> {
    Seq::new(rows.len(), |i: int| formula_views(rows[i]@))
}

/// A sheet with all its rows.
#[derive(Debug, Clone)]
pub struct SheetData {
    pub headers: Vec<String>,
    pub rows: Vec<Vec<CellValue>>,
    /// The formulas of the sheet, as many as there are values. Formulas are counted from the
    /// corner of the sheet and rows from that of their range, so a formula stands at the place of
    /// its value where the range starts at the corner of the sheet.
    pub formulas: Vec<Vec<Option<String>>>,
    pub width: usize,
    pub height: usize,
}

/// The mathematical value of a [`SheetData`].
pub struct SheetView {
    pub headers: Seq<Seq<char>>,
    pub rows: Seq<Seq<ValueView>>,
    pub formulas: Seq<Seq<Option<Seq<char>>>>,
    pub width: int,
    pub height: int,
}

impl View for SheetData {
    type V = SheetView;

    open spec fn view(&self) -> SheetView {
        SheetView {
            headers: texts(self.headers@),
            rows: value_table(self.rows@),
            formulas: formula_table(self.formulas@),
            width: self.width as int,
            height: self.height as int,
        }
    }
}

impl SheetView {
    /// Whether the sheet has a header for each column, and a value and a place for a formula in
    /// each column of each row that its height speaks of.
    pub open spec fn is_filled(self) -> bool {
        &&& self.headers.len() == self.width
        &&& self.height <= self.rows.len()
        &&& self.formulas.len() == self.height
        &&& forall|i: int| 0 <= i < self.height ==> (#[trigger] self.rows[i]).len() == self.width
        &&& forall|i: int|
            0 <= i < self.height ==> (#[trigger] self.formulas[i]).len() == self.width
    }
}

/// The sheet that rows of cells, counted as `height` rows of `width` columns, and a range of
/// formulas make.
pub open spec fn sheet_of(
    rows: Seq<Seq<CellView>>,
    height: int,
    width: int,
    formulas: Option<Range<String>>,
) -> SheetView {
    SheetView {
        headers: headers_of(rows, height),
        rows: window(value_rows(rows), 1, rows.len() as int),
        formulas: formula_grid(formulas, 0, data_height(height), width),
        width,
        height: data_height(height),
    }
}

/// The sheet that a range of cells and a range of formulas make.
pub open spec fn sheet_of_range(range: Range<Cell>, formulas: Option<Range<String>>) -> SheetView {
    sheet_of(cell_rows(range), cell_size(range).0 as int, cell_size(range).1 as int, formulas)
}

/// A sheet that gives out its rows on demand.
pub struct LazySheetData {
    /// Where the rows come from.
    pub range: Range<Cell>,
    /// Where the formulas come from.
    pub formula_range: Option<Range<String>>,
    pub headers: Vec<String>,
    pub width: usize,
    pub height: usize,
}

/// A table of a workbook, as the file holds it.
pub struct Table {
    pub name: String,
    pub sheet_name: String,
    pub columns: Vec<String>,
    pub data: Range<Cell>,
}

/// A table of a workbook.
#[derive(Debug, Clone)]
pub struct TableData {
    pub name: String,
    pub sheet_name: String,
    pub headers: Vec<String>,
    pub rows: Vec<Vec<CellValue>>,
}

/// The mathematical value of a [`TableData`].
pub struct TableView {
    pub name: Seq<char>,
    pub sheet_name: Seq<char>,
    pub headers: Seq<Seq<char>>,
    pub rows: Seq<Seq<ValueView>>,
}

impl View for TableData {
    type V = TableView;

    open spec fn view(&self) -> TableView {
        TableView {
            name: self.name@,
            sheet_name: self.sheet_name@,
            headers: texts(self.headers@),
            rows: value_table(self.rows@),
        }
    }
}

/// The table that the table of a file makes: the columns are its headers, and all rows are data.
pub open spec fn table_of(table: Table) -> TableView {
    TableView {
        name: table.name@,
        sheet_name: table.sheet_name@,
        headers: texts(table.columns@),
        rows: value_rows(cell_rows(table.data)),
    }
}

/// The values of a row of cells.
fn values_of_row(row: &[Cell]) -> (result: Vec<CellValue>)
    ensures
        values(result@) == value_row(cells(row@)),
{
    let mut result: Vec<CellValue> = Vec::new();
    let mut j: usize = 0;
    while j < row.len()
        invariant
            j <= row@.len(),
            result@.len() == j,
            forall|k: int| 0 <= k < j ==> (#[trigger] result@[k])@ == value_of(row@[k]@),
        decreases row@.len() - j,
    {
        result.push(SheetData::datatype_to_cellvalue(&row[j]));
        j += 1;
    }
    assert(values(result@) =~= value_row(cells(row@)));
    result
}

/// The values of at most `count` rows of a range from row `start` on.
fn values_of_rows(range: &Range<Cell>, start: usize, count: usize) -> (result: Vec<Vec<CellValue>>)
    ensures
        cell_rows(*range).len() <= usize::MAX,
        value_table(result@) == window(
            value_rows(cell_rows(*range)),
            start as int,
            count as int,
        ),
{
    let rows = rows_of_cells(range);
    let mut result: Vec<Vec<CellValue>> = Vec::new();
    let mut i: usize = start;
    while i < rows.len() && i - start < count
        invariant
            rows@.len() == cell_rows(*range).len(),
            forall|k: int|
                0 <= k < rows@.len() ==> cells(#[trigger] rows@[k]@) == cell_rows(*range)[k],
            start <= i,
            i <= rows@.len() || i == start,
            i - start <= count,
            result@.len() == i - start,
            forall|k: int|
                0 <= k < result@.len() ==> values(#[trigger] result@[k]@) == value_row(
                    cell_rows(*range)[start + k],
                ),
        decreases rows@.len() - i,
    {
        result.push(values_of_row(rows[i]));
        i += 1;
    }
    assert(value_table(result@) =~= window(
        value_rows(cell_rows(*range)),
        start as int,
        count as int,
    ));
    result
}

/// The headers of a range.
fn headers_of_range(range: &Range<Cell>) -> (result: Vec<String>)
    ensures
        texts(result@) == headers_of(cell_rows(*range), cell_size(*range).0 as int),
{
    let mut result: Vec<String> = Vec::new();
    let size = size_of_cells(range);
    let rows = rows_of_cells(range);
    if size.0 > 0 && rows.len() > 0 {
        let row = rows[0];
        let mut j: usize = 0;
        while j < row.len()
            invariant
                j <= row@.len(),
                result@.len() == j,
                forall|k: int| 0 <= k < j ==> (#[trigger] result@[k])@ == header_text(row@[k]@),
            decreases row@.len() - j,
        {
            result.push(SheetData::cell_to_string(&row[j]));
            j += 1;
        }
        assert(texts(result@) =~= header_row(cells(row@)));
    } else {
        assert(texts(result@) =~= headers_of(cell_rows(*range), cell_size(*range).0 as int));
    }
    result
}

/// The formula of a cell among rows of formulas that stand from `corner` on.
fn formula_of_cell(
    rows: &Vec<&[String]>,
    corner: (u32, u32),
    row: usize,
    column: usize,
) -> (formula: Option<String>)
    requires
        row < usize::MAX,
    ensures
        formula_view(formula) == formula_in(
            text_rows(rows@),
            corner,
            row as int,
            column as int,
        ),
{
    let first_row: usize = corner.0 as usize;
    let first_column: usize = corner.1 as usize;
    if row + 1 < first_row || row + 1 - first_row >= rows.len() {
        return None;
    }
    let i: usize = row + 1 - first_row;
    if column < first_column || column - first_column >= rows[i].len() {
        return None;
    }
    let text: &String = &rows[i][column - first_column];
    assert(text_rows(rows@)[i as int][column - first_column] == text@);
    if text.as_str().is_empty() {
        None
    } else {
        Some(text.clone())
    }
}

/// A row of `width` columns without formulas.
fn no_formulas(width: usize) -> (row: Vec<Option<String>>)
    ensures
        formula_views(row@) == Seq::new(width as nat, |j: int| None::<Seq<char>>),
{
    let mut row: Vec<Option<String>> = Vec::new();
    while row.len() < width
        invariant
            row@.len() <= width,
            forall|j: int| 0 <= j < row@.len() ==> (#[trigger] row@[j]) is None,
        decreases width - row@.len(),
    {
        row.push(None);
    }
    row
}

/// The formulas of the rows from `start` up to `end` below the header, in `width` columns.
fn formulas_of_rows(
    formula_range: &Option<Range<String>>,
    start: usize,
    end: usize,
    width: usize,
) -> (result: Vec<Vec<Option<String>>>)
    requires
        start <= end,
    ensures
        formula_table(result@) == formula_grid(
            *formula_range,
            start as int,
            end as int,
            width as int,
        ),
{
    let mut corner: (u32, u32) = (0, 0);
    let mut rows: Vec<&[String]> = Vec::new();
    if let Some(range) = formula_range {
        if let Some(start) = start_of_formulas(range) {
            corner = start;
        }
        rows = rows_of_formulas(range);
        assert(text_rows(rows@) == formula_rows(*range));
    }
    let mut result: Vec<Vec<Option<String>>> = Vec::new();
    let mut r: usize = start;
    while r < end
        invariant
            start <= r <= end,
            forall|i: int, j: int| #[trigger]
                formula_at(*formula_range, i, j) == formula_in(text_rows(rows@), corner, i, j),
            result@.len() == r - start,
            forall|k: int|
                0 <= k < result@.len() ==> formula_views(#[trigger] result@[k]@) == Seq::new(
                    width as nat,
                    |j: int| formula_at(*formula_range, start + k, j),
                ),
        decreases end - r,
    {
        let mut row: Vec<Option<String>> = Vec::new();
        let mut c: usize = 0;
        while c < width
            invariant
                c <= width,
                r < usize::MAX,
                row@.len() == c,
                forall|j: int|
                    0 <= j < c ==> formula_view(#[trigger] row@[j]) == formula_in(
                        text_rows(rows@),
                        corner,
                        r as int,
                        j,
                    ),
            decreases width - c,
        {
            row.push(formula_of_cell(&rows, corner, r, c));
            c += 1;
        }
        assert(formula_views(row@) =~= Seq::new(
            width as nat,
            |j: int| formula_at(*formula_range, r as int, j),
        ));
        result.push(row);
        r += 1;
    }
    assert(formula_table(result@) =~= formula_grid(
        *formula_range,
        start as int,
        end as int,
        width as int,
    ));
    result
}

impl SheetData {
    /// The sheet that a range of cells and a range of formulas make: the first row is the
    /// header, the others are its data.
    pub fn from_range_with_formulas(
        range: Range<Cell>,
        formula_range: Option<Range<String>>,
    ) -> (sheet: Self)
        ensures
            sheet@ == sheet_of_range(range, formula_range),
            is_countable(cell_rows(range), cell_size(range)) ==> sheet@.is_filled(),
    {
        let (range_height, width) = size_of_cells(&range);
        let height: usize = if range_height > 0 {
            range_height - 1
        } else {
            0
        };
        let headers = headers_of_range(&range);
        let rows = values_of_rows(&range, 1, usize::MAX);
        let formulas = formulas_of_rows(&formula_range, 0, height, width);
        assert(value_table(rows@) == sheet_of_range(range, formula_range).rows);
        proof {
            if is_countable(cell_rows(range), cell_size(range)) {
                law_values_and_formulas_are_parallel(range, formula_range);
            }
        }
        SheetData { headers, rows, formulas, width, height }
    }

    /// The text of a cell at the head of a column.
    pub fn cell_to_string(cell: &Cell) -> (text: String)
        ensures
            text@ == header_text(cell@),
    {
        let mut text = String::new();
        match cell {
            Cell::Empty => {},
            Cell::String(s) => {
                text.append(s.as_str());
            },
            Cell::Int(i) => {
                push_int(&mut text, *i);
            },
            Cell::Float(f) => {
                if f.whole {
                    text.append(f.rounded.as_str());
                } else {
                    text.append(f.shortest.as_str());
                }
            },
            Cell::Bool(b) => {
                push_bool(&mut text, *b);
            },
            Cell::Error(e) => {
                text.append("ERROR: ");
                text.append(e.name());
            },
            Cell::DateTime(d) => {
                text.append("Date(");
                text.append(d.text.as_str());
                text.push(')');
            },
            Cell::DateTimeIso(s) => {
                text.append(s.as_str());
            },
            Cell::DurationIso(s) => {
                text.append(s.as_str());
            },
        }
        text
    }

    /// The value of a cell.
    pub fn datatype_to_cellvalue(cell: &Cell) -> (value: CellValue)
        ensures
            value@ == value_of(cell@),
    {
        match cell {
            Cell::Empty => CellValue::Empty,
            Cell::String(s) => CellValue::String(s.clone()),
            Cell::Int(i) => CellValue::Int(*i),
            Cell::Float(f) => CellValue::Float(f.clone()),
            Cell::Bool(b) => CellValue::Bool(*b),
            Cell::Error(e) => CellValue::Error(e.name().to_owned()),
            Cell::DateTime(d) => CellValue::DateTime(d.clone()),
            Cell::DateTimeIso(s) => CellValue::String(s.clone()),
            Cell::DurationIso(s) => CellValue::String(s.clone()),
        }
    }
}

impl LazySheetData {
    /// Whether the headers and the size are those of the range that the rows come from, which has
    /// the shape of a range.
    pub open spec fn is_in_step(self) -> bool {
        let (height, width) = cell_size(self.range);
        &&& has_shape(cell_rows(self.range), cell_size(self.range))
        &&& texts(self.headers@) == headers_of(cell_rows(self.range), height as int)
        &&& self.width == width
        &&& self.height == data_height(height as int)
    }

    /// Takes the headers from a range, and leaves its rows for later.
    pub fn from_range_with_formulas(
        range: Range<Cell>,
        formula_range: Option<Range<String>>,
    ) -> (sheet: Self)
        ensures
            sheet.range == range,
            sheet.formula_range == formula_range,
            sheet.is_in_step(),
            is_countable(cell_rows(range), cell_size(range)) ==> sheet.headers@.len()
                == sheet.width,
    {
        let (range_height, width) = size_of_cells(&range);
        let height: usize = if range_height > 0 {
            range_height - 1
        } else {
            0
        };
        let headers = headers_of_range(&range);
        assert(texts(headers@).len() == headers@.len());
        LazySheetData { range, formula_range, headers, width, height }
    }

    /// At most `count` rows from row `start` on, and the formulas behind them. Rows are counted
    /// from 0 below the header.
    pub fn get_rows(&self, start: usize, count: usize) -> (result: (
        Vec<Vec<CellValue>>,
        Vec<Vec<Option<String>>>,
    ))
        requires
            start <= self.height < usize::MAX,
            start + count <= usize::MAX,
        ensures
            ({
                let end = if start + count < self.height {
                    start + count
                } else {
                    self.height as int
                };
                &&& value_table(result.0@) == window(
                    value_rows(cell_rows(self.range)),
                    start + 1,
                    end - start,
                )
                &&& formula_table(result.1@) == formula_grid(
                    self.formula_range,
                    start as int,
                    end,
                    self.width as int,
                )
                &&& self.is_in_step() && is_countable(
                    cell_rows(self.range),
                    cell_size(self.range),
                ) ==> {
                    &&& result.0@.len() == end - start
                    &&& result.1@.len() == end - start
                    &&& forall|i: int|
                        0 <= i < end - start ==> (#[trigger] result.0@[i])@.len() == self.width
                    &&& forall|i: int|
                        0 <= i < end - start ==> (#[trigger] result.1@[i])@.len() == self.width
                }
            }),
    {
        let end: usize = if start + count < self.height {
            start + count
        } else {
            self.height
        };
        let rows = values_of_rows(&self.range, start + 1, end - start);
        let formulas = self.get_formulas_for_range(start, end);
        assert(formula_table(formulas@) =~~= formula_grid(
            self.formula_range,
            start as int,
            end as int,
            self.width as int,
        ));
        proof {
            if self.is_in_step() && is_countable(cell_rows(self.range), cell_size(self.range)) {
                law_lazy_rows_are_filled(*self, start as int, count as int);
                assert forall|i: int| 0 <= i < end - start implies (#[trigger] rows@[i])@.len()
                    == self.width by {
                    assert(value_table(rows@)[i].len() == self.width);
                }
                assert forall|i: int| 0 <= i < end - start implies (#[trigger] formulas@[i])@.len()
                    == self.width by {
                    assert(formula_table(formulas@)[i].len() == self.width);
                }
            }
        }
        (rows, formulas)
    }

    /// The formulas of the rows from `start` up to `end` below the header. Behind the row that
    /// follows the last there are none.
    pub fn get_formulas_for_range(&self, start: usize, end: usize) -> (result: Vec<
        Vec<Option<String>>,
    >)
        requires
            start <= end,
            self.height < usize::MAX,
        ensures
            formula_table(result@) == formula_span(
                self.formula_range,
                start as int,
                end as int,
                self.height as int,
                self.width as int,
            ),
    {
        let last: usize = if end <= self.height {
            end
        } else if start <= self.height {
            self.height + 1
        } else {
            start
        };
        let mut result = formulas_of_rows(&self.formula_range, start, last, self.width);
        let ghost found = result@;
        assert(found.len() == formula_table(found).len() == last - start);
        while result.len() < end - start
            invariant
                start <= last <= end,
                last < end ==> last > self.height,
                found.len() == last - start,
                last - start <= result@.len() <= end - start,
                forall|i: int| 0 <= i < found.len() ==> #[trigger] result@[i] == found[i],
                forall|i: int|
                    found.len() <= i < result@.len() ==> formula_views(#[trigger] result@[i]@)
                        == Seq::new(self.width as nat, |j: int| None::<Seq<char>>),
            decreases end - start - result@.len(),
        {
            result.push(no_formulas(self.width));
        }
        let ghost span = formula_span(
            self.formula_range,
            start as int,
            end as int,
            self.height as int,
            self.width as int,
        );
        assert forall|i: int| 0 <= i < end - start implies formula_views(#[trigger] result@[i]@)
            == span[i] by {
            if i < found.len() {
                assert(formula_views(result@[i]@) == formula_table(found)[i]);
            }
        }
        assert(formula_table(result@) =~= span);
        result
    }

    /// Loads all rows.
    pub fn to_sheet_data(self) -> (sheet: SheetData)
        ensures
            sheet@ == sheet_of_range(self.range, self.formula_range),
            is_countable(cell_rows(self.range), cell_size(self.range)) ==> sheet@.is_filled(),
    {
        SheetData::from_range_with_formulas(self.range, self.formula_range)
    }
}

impl TableData {
    /// The table with its cells as values. The columns are its headers, and all rows are data.
    pub fn from_calamine_table(table: Table) -> (result: Self)
        ensures
            result@ == table_of(table),
    {
        let rows = values_of_rows(&table.data, 0, usize::MAX);
        assert(value_table(rows@) == value_rows(cell_rows(table.data)));
        TableData { name: table.name, sheet_name: table.sheet_name, headers: table.columns, rows }
    }
}

}
