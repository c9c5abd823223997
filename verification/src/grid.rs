//! Rectangular ranges of cells and of formulas.

use calamine::Range;
use vstd::prelude::*;

use crate::cell::{Cell, CellView};
use crate::text::texts;

verus! {

/// A rectangle of a sheet and what its cells hold: `calamine::Range`.
#[verifier::external_type_specification]
#[verifier::external_body]
#[verifier::reject_recursive_types(T)]
pub struct ExRange<T>(Range<T>);

/// The rows of a range of cells, from top to bottom, each from left to right.
pub uninterp spec fn cell_rows(range: Range<Cell>) -> Seq<Seq<CellView>>;

/// The height and the width of a range of cells.
pub uninterp spec fn cell_size(range: Range<Cell>) -> (usize, usize);

/// The row and the column of the sheet where a range of cells starts. An empty range starts
/// nowhere.
pub uninterp spec fn cell_start(range: Range<Cell>) -> Option<(u32, u32)>;

/// The rows of a range of formulas, where a cell without a formula has an empty text.
pub uninterp spec fn formula_rows(range: Range<String>) -> Seq<Seq<Seq<char>>>;

/// The row and the column of the sheet where a range of formulas starts. An empty range
/// starts nowhere.
pub uninterp spec fn formula_start(range: Range<String>) -> Option<(u32, u32)>;

/// The mathematical values of a row of cells.
pub open spec fn cells(row: Seq<Cell>) -> Seq<CellView> {
    Seq::new(row.len(), |i: int| row[i]@)
}

/// Whether the rows of a range hold a cell for each place that its size speaks of: there are no
/// height and no width exactly where there are no rows, else at least as many rows as the height
/// says, each of them up to the height as wide as the width says.
pub open spec fn is_complete(rows: Seq<Seq<CellView>>, size: (usize, usize)) -> bool {
    &&& rows.len() == 0 <==> size.0 == 0
    &&& rows.len() == 0 <==> size.1 == 0
    &&& size.0 <= rows.len()
    &&& forall|i: int| 0 <= i < size.0 ==> (#[trigger] rows[i]).len() == size.1
}

/// Whether the rows of a range, and the cells that its size speaks of, can be counted in 32 bits.
pub open spec fn is_countable(rows: Seq<Seq<CellView>>, size: (usize, usize)) -> bool {
    &&& rows.len() <= u32::MAX
    &&& size.0 * size.1 <= u32::MAX
}

/// How the rows and the size of a range belong together: without rows there is neither height nor
/// width, and a range that can be counted is complete.
pub open spec fn has_shape(rows: Seq<Seq<CellView>>, size: (usize, usize)) -> bool {
    &&& rows.len() == 0 ==> size == (0usize, 0usize)
    &&& is_countable(rows, size) ==> is_complete(rows, size)
}

/// The rows of a range of cells: `Range::rows`. They are the rows that the range holds, in
/// their order.
#[verifier::external_body]
pub(crate) fn rows_of_cells(range: &Range<Cell>) -> (rows: Vec<&[Cell]>)
    ensures
        rows@.len() == cell_rows(*range).len(),
        forall|i: int|
            0 <= i < rows@.len() ==> cells(#[trigger] rows@[i]@) == cell_rows(*range)[i],
{
    range.rows().collect()
}

/// The height and the width of a range of cells: `Range::get_size`. They are counted between the
/// corners of the range, or 0 where it holds no cells, and `Range::rows` cuts the cells into rows
/// of that width. `Range::new` multiplies height and width in 32 bits: where the product does not
/// fit and overflow is not checked, the range it makes holds too few cells. `Range::set_value` may
/// leave a row too many. So the rows are those of the size as far as `has_shape` says.
#[verifier::external_body]
pub(crate) fn size_of_cells(range: &Range<Cell>) -> (size: (usize, usize))
    ensures
        size == cell_size(*range),
        has_shape(cell_rows(*range), size),
{
    range.get_size()
}

/// A range without cells: `Range::empty`. It has no rows, neither height nor width, and no start.
#[verifier::external_body]
pub(crate) fn no_cells() -> (range: Range<Cell>)
    ensures
        cell_rows(range) == Seq::<Seq<CellView>>::empty(),
        cell_size(range) == (0usize, 0usize),
        cell_start(range) == None::<(u32, u32)>,
{
    Range::empty()
}

/// A range of empty cells between two corners: `Range::new`. It has a row for every row from
/// the first corner to the second, and in each a cell for every column, which is what
/// `Cell::default` gives, and it starts at the first corner. `Range::new` counts the cells in 32
/// bits, and panics where the second corner lies before the first.
#[verifier::external_body]
pub(crate) fn empty_cells(start: (u32, u32), end: (u32, u32)) -> (range: Range<Cell>)
    requires
        start.0 <= end.0,
        start.1 <= end.1,
        (end.0 - start.0 + 1) * (end.1 - start.1 + 1) <= u32::MAX,
    ensures
        cell_rows(range) == Seq::new(
            (end.0 - start.0 + 1) as nat,
            |i: int| Seq::new((end.1 - start.1 + 1) as nat, |j: int| CellView::Empty),
        ),
        cell_size(range) == ((end.0 - start.0 + 1) as usize, (end.1 - start.1 + 1) as usize),
        cell_start(range) == Some(start),
{
    Range::new(start, end)
}

/// Puts a cell at a row and a column of a range, counted from its corner: the `IndexMut` of
/// `Range`, which panics outside of the range. All other cells stay, and so do the size and the
/// start.
#[verifier::external_body]
pub(crate) fn set_cell(range: &mut Range<Cell>, row: usize, column: usize, cell: Cell)
    requires
        row < cell_size(*old(range)).0,
        column < cell_size(*old(range)).1,
        row < cell_rows(*old(range)).len(),
        column < cell_rows(*old(range))[row as int].len(),
    ensures
        cell_rows(*final(range)) == cell_rows(*old(range)).update(
            row as int,
            cell_rows(*old(range))[row as int].update(column as int, cell@),
        ),
        cell_size(*final(range)) == cell_size(*old(range)),
        cell_start(*final(range)) == cell_start(*old(range)),
{
    range[(row, column)] = cell;
}

/// The rows of a range of formulas: `Range::rows`. They are the rows that the range holds, in
/// their order.
#[verifier::external_body]
pub(crate) fn rows_of_formulas(range: &Range<String>) -> (rows: Vec<&[String]>)
    ensures
        rows@.len() == formula_rows(*range).len(),
        forall|i: int|
            0 <= i < rows@.len() ==> texts(#[trigger] rows@[i]@) == formula_rows(*range)[i],
{
    range.rows().collect()
}

/// Where a range of formulas starts: `Range::start`.
#[verifier::external_body]
pub(crate) fn start_of_formulas(range: &Range<String>) -> (start: Option<(u32, u32)>)
    ensures
        start == formula_start(*range),
{
    range.start()
}

}
