//! CSV text: records, fields and quotes.

use calamine::Range;
use vstd::prelude::*;

use crate::cell::{Cell, CellView};
use crate::csv_laws::law_readable_text_has_records;
use crate::error::{ErrorView, WorkbookError};
use crate::grid::{cell_rows, cell_size, cell_start, empty_cells, no_cells, set_cell};
use crate::text::{chars_of, push_chars, same_text, skip_char, texts, trim_start};

verus! {

/// The views of a table of strings.
pub open spec fn table(rows: Seq<Vec<String>>) -> Seq<Seq<Seq<char>>> {
    Seq::new(rows.len(), |i: int| texts(rows[i]@))
}

/// Whether a text ends where a record ends.
pub open spec fn ends_record(s: Seq<char>) -> bool {
    s.len() > 0 && (s.last() == '\n' || s.last() == '\r')
}

/// Where the record that ends with the `'\r'` at `i` is over: a `'\n'` behind it belongs to it.
pub open spec fn after_return(s: Seq<char>, i: int) -> int {
    if i + 1 < s.len() && s[i + 1] == '\n' {
        i + 2
    } else {
        i + 1
    }
}

/// The records that `s` holds from position `i` on, where `row` has the fields of the current
/// record that are complete, `field` what the current field holds so far, and `quoted` says
/// whether `i` stands between quotes. There are none if a quoted field is never closed.
///
/// A quote at the start of a field opens a quoted text; within it two quotes stand for one and
/// every other character for itself; one quote closes it. Outside quotes a comma ends the field,
/// and `"\n"`, `"\r"` and `"\r\n"` end the record. The last record needs no such end.
pub open spec fn records_from(
    s: Seq<char>,
    i: int,
    quoted: bool,
    field: Seq<char>,
    row: Seq<Seq<char>>,
) -> Option<Seq<Seq<Seq<char>>>>
    decreases s.len() - i,
{
    if i >= s.len() {
        if quoted {
            None
        } else if field.len() > 0 || row.len() > 0 || !ends_record(s) {
            Some(seq![row.push(field)])
        } else {
            Some(Seq::empty())
        }
    } else if quoted {
        if s[i] != '"' {
            records_from(s, i + 1, true, field.push(s[i]), row)
        } else if i + 1 < s.len() && s[i + 1] == '"' {
            records_from(s, i + 2, true, field.push('"'), row)
        } else {
            records_from(s, i + 1, false, field, row)
        }
    } else if s[i] == '"' && field.len() == 0 {
        records_from(s, i + 1, true, field, row)
    } else if s[i] == ',' {
        records_from(s, i + 1, false, Seq::empty(), row.push(field))
    } else if s[i] == '\n' {
        prepend(row.push(field), records_from(s, i + 1, false, Seq::empty(), Seq::empty()))
    } else if s[i] == '\r' {
        prepend(
            row.push(field),
            records_from(s, after_return(s, i), false, Seq::empty(), Seq::empty()),
        )
    } else {
        records_from(s, i + 1, false, field.push(s[i]), row)
    }
}

/// A record in front of others, if there are others.
pub open spec fn prepend(record: Seq<Seq<char>>, records: Option<Seq<Seq<Seq<char>>>>) -> Option<
    Seq<Seq<Seq<char>>>,
> {
    match records {
        Some(records) => Some(seq![record] + records),
        None => None,
    }
}

/// Records without the byte order marks at the start of the very first field.
pub open spec fn without_marks(records: Seq<Seq<Seq<char>>>) -> Seq<Seq<Seq<char>>> {
    if records.len() > 0 && records[0].len() > 0 {
        records.update(0, records[0].update(0, trim_start(records[0][0], '\u{feff}')))
    } else {
        records
    }
}

/// The records of a CSV text. There are none if a quoted field is never closed.
pub open spec fn csv_records(s: Seq<char>) -> Option<Seq<Seq<Seq<char>>>> {
    if s.len() == 0 {
        Some(Seq::empty())
    } else {
        match records_from(s, 0, false, Seq::empty(), Seq::empty()) {
            Some(records) => Some(without_marks(records)),
            None => None,
        }
    }
}

/// Records in front of others, if there are others.
pub open spec fn prepend_all(
    first: Seq<Seq<Seq<char>>>,
    records: Option<Seq<Seq<Seq<char>>>>,
) -> Option<Seq<Seq<Seq<char>>>> {
    match records {
        Some(records) => Some(first + records),
        None => None,
    }
}

/// Checks that the sheet asked for is the one sheet of a CSV file.
pub fn ensure_csv_sheet_name(requested: &str, sheet_name: &str) -> (result: Result<
    (),
    WorkbookError,
>)
    ensures
        result is Ok <==> requested@ == sheet_name@,
        result matches Err(error) ==> error@ == (ErrorView::CsvSheetNotFound {
            requested: requested@,
            available: sheet_name@,
        }),
{
    if same_text(requested, sheet_name) {
        Ok(())
    } else {
        Err(
            WorkbookError::CsvSheetNotFound {
                requested: requested.to_owned(),
                available: sheet_name.to_owned(),
            },
        )
    }
}

/// The records of a CSV text.
pub fn parse_csv_records(content: &str) -> (result: Result<Vec<Vec<String>>, WorkbookError>)
    ensures
        result is Ok <==> csv_records(content@) is Some,
        result matches Ok(records) ==> Some(table(records@)) == csv_records(content@),
        result matches Err(error) ==> error@ == ErrorView::UnterminatedQuote,
{
    let chars: Vec<char> = chars_of(content);
    let mut rows: Vec<Vec<String>> = Vec::new();
    if chars.len() == 0 {
        assert(table(rows@) == Seq::<Seq<Seq<char>>>::empty());
        return Ok(rows);
    }
    let mut row: Vec<String> = Vec::new();
    let mut field = String::new();
    let mut in_quotes = false;
    let mut i: usize = 0;
    let ghost all = records_from(content@, 0, false, Seq::empty(), Seq::empty());
    assert(texts(row@) == Seq::<Seq<char>>::empty());
    assert(table(rows@) == Seq::<Seq<Seq<char>>>::empty());
    proof {
        if let Some(records) = all {
            assert(table(rows@) + records == records);
        }
    }
    while i < chars.len()
        invariant
            i <= chars@.len(),
            chars@ == content@,
            all == prepend_all(
                table(rows@),
                records_from(content@, i as int, in_quotes, field@, texts(row@)),
            ),
        decreases chars@.len() - i,
    {
        let ch: char = chars[i];
        let ghost rows_before = table(rows@);
        let ghost row_before = texts(row@);
        if in_quotes {
            if ch != '"' {
                field.push(ch);
                i += 1;
            } else if i + 1 < chars.len() && chars[i + 1] == '"' {
                field.push('"');
                i += 2;
            } else {
                in_quotes = false;
                i += 1;
            }
        } else if ch == '"' && field.as_str().is_empty() {
            in_quotes = true;
            i += 1;
        } else if ch == ',' {
            row.push(field);
            assert(texts(row@) == row_before.push(field@));
            field = String::new();
            i += 1;
        } else if ch == '\n' || ch == '\r' {
            let ghost rest = records_from(
                content@,
                if ch == '\n' {
                    i + 1
                } else {
                    after_return(content@, i as int)
                },
                false,
                Seq::empty(),
                Seq::empty(),
            );
            row.push(field);
            assert(texts(row@) == row_before.push(field@));
            rows.push(row);
            assert(table(rows@) == rows_before.push(texts(row@)));
            proof {
                if let Some(records) = rest {
                    assert(rows_before + (seq![texts(row@)] + records) == table(rows@) + records);
                }
            }
            row = Vec::new();
            field = String::new();
            assert(texts(row@) == Seq::<Seq<char>>::empty());
            if ch == '\r' && i + 1 < chars.len() && chars[i + 1] == '\n' {
                i += 1;
            }
            i += 1;
        } else {
            field.push(ch);
            i += 1;
        }
    }
    if in_quotes {
        return Err(WorkbookError::UnterminatedQuote);
    }
    let last: char = chars[chars.len() - 1];
    if !field.as_str().is_empty() || row.len() > 0 || !(last == '\n' || last == '\r') {
        let ghost rows_before = table(rows@);
        let ghost row_before = texts(row@);
        row.push(field);
        assert(texts(row@) == row_before.push(field@));
        rows.push(row);
        assert(table(rows@) == rows_before + seq![texts(row@)]);
    }
    if rows.len() > 0 && rows[0].len() > 0 {
        let ghost rows_before = table(rows@);
        let ghost row_before = texts(rows@[0]@);
        let first: Vec<char> = chars_of(rows[0][0].as_str());
        let start: usize = skip_char(first.as_slice(), 0, first.len(), '\u{feff}');
        let mut trimmed = String::new();
        push_chars(&mut trimmed, first.as_slice(), start, first.len());
        assert(first@.subrange(0, first@.len() as int) == first@);
        rows[0][0] = trimmed;
        assert(texts(rows@[0]@) == row_before.update(0, trimmed@));
        assert(table(rows@) == rows_before.update(0, texts(rows@[0]@)));
    }
    Ok(rows)
}

/// The number of fields of the longest record.
pub open spec fn width_of(records: Seq<Seq<Seq<char>>>) -> nat
    decreases records.len(),
{
    if records.len() == 0 {
        0
    } else if records.last().len() > width_of(records.drop_last()) {
        records.last().len()
    } else {
        width_of(records.drop_last())
    }
}

/// The cell at a row and a column of records: empty where the field is empty or missing.
pub open spec fn cell_at(records: Seq<Seq<Seq<char>>>, row: int, column: int) -> CellView {
    if column < records[row].len() && records[row][column].len() > 0 {
        CellView::String(records[row][column])
    } else {
        CellView::Empty
    }
}

/// The cells of records, every row as wide as the longest.
pub open spec fn cells_of(records: Seq<Seq<Seq<char>>>) -> Seq<Seq<CellView>> {
    if width_of(records) == 0 {
        Seq::empty()
    } else {
        Seq::new(
            records.len(),
            |i: int| Seq::new(width_of(records), |j: int| cell_at(records, i, j)),
        )
    }
}

/// Where the cells of records start: at the corner of the sheet, if there are any.
pub open spec fn csv_start(records: Seq<Seq<Seq<char>>>) -> Option<(u32, u32)> {
    if cells_of(records).len() == 0 {
        None
    } else {
        Some((0u32, 0u32))
    }
}

/// Whether records have no more cells than a range can count.
pub open spec fn fit_in_range(records: Seq<Seq<Seq<char>>>) -> bool {
    records.len() * width_of(records) <= u32::MAX
}

/// No record has more fields than the longest.
proof fn lemma_width(records: Seq<Seq<Seq<char>>>, i: int)
    requires
        0 <= i < records.len(),
    ensures
        records[i].len() <= width_of(records),
    decreases records.len(),
{
    if i < records.len() - 1 {
        lemma_width(records.drop_last(), i);
    }
}

/// The number of fields of the longest record.
fn width_of_records(records: &Vec<Vec<String>>) -> (width: usize)
    ensures
        width == width_of(table(records@)),
{
    let ghost all = table(records@);
    let mut width: usize = 0;
    let mut k: usize = 0;
    while k < records.len()
        invariant
            k <= records@.len(),
            all == table(records@),
            width == width_of(all.take(k as int)),
        decreases records@.len() - k,
    {
        if records[k].len() > width {
            width = records[k].len();
        }
        proof {
            let next = all.take(k + 1);
            assert(next.drop_last() == all.take(k as int));
            assert(next.last() == texts(records@[k as int]@));
        }
        k += 1;
    }
    assert(all.take(k as int) == all);
    width
}

/// Whether records have no more cells than a range can count.
pub fn records_fit_in_range(records: &Vec<Vec<String>>) -> (fit: bool)
    ensures
        fit == fit_in_range(table(records@)),
{
    let width: usize = width_of_records(records);
    let count: u128 = records.len() as u128;
    proof {
        assert(count * width <= u64::MAX * u64::MAX) by (nonlinear_arith)
            requires
                count <= u64::MAX,
                width <= u64::MAX,
        ;
    }
    count * width as u128 <= u32::MAX as u128
}

/// The cells of records of which the rows beyond `row`, and in it the columns from `column` on,
/// are in place and all others still empty.
spec fn cells_from(
    records: Seq<Seq<Seq<char>>>,
    row: int,
    column: int,
) -> Seq<Seq<CellView>> {
    Seq::new(
        records.len(),
        |i: int|
            Seq::new(
                width_of(records),
                |j: int|
                    if i > row || i == row && j >= column {
                        cell_at(records, i, j)
                    } else {
                        CellView::Empty
                    },
            ),
    )
}

/// The range of cells of records.
pub fn records_to_range(records: Vec<Vec<String>>) -> (range: Range<Cell>)
    requires
        fit_in_range(table(records@)),
    ensures
        cell_rows(range) == cells_of(table(records@)),
        cell_size(range).0 == cells_of(table(records@)).len(),
        cell_size(range).1 == width_of(table(records@)),
        cell_start(range) == csv_start(table(records@)),
{
    let width: usize = width_of_records(&records);
    if records.len() == 0 || width == 0 {
        assert(cells_of(table(records@)) == Seq::<Seq<CellView>>::empty());
        return no_cells();
    }
    let ghost all = table(records@);
    let ghost w = width as int;
    proof {
        assert(records@.len() <= u32::MAX && width <= u32::MAX) by (nonlinear_arith)
            requires
                records@.len() * width <= u32::MAX,
                records@.len() > 0,
                width > 0,
        ;
    }
    let mut range = empty_cells((0, 0), ((records.len() - 1) as u32, (width - 1) as u32));
    let mut records = records;
    assert(cell_rows(range) =~~= cells_from(all, all.len() - 1, w));
    while records.len() > 0
        invariant
            records@.len() <= all.len(),
            table(records@) == all.take(records@.len() as int),
            w == width_of(all),
            w == width,
            cell_rows(range) == cells_from(all, records@.len() - 1, w),
            cell_size(range) == (all.len() as usize, width),
            cell_start(range) == Some((0u32, 0u32)),
            all.len() <= usize::MAX,
        decreases records@.len(),
    {
        let row: usize = records.len() - 1;
        let ghost before = records@;
        match records.pop() {
            Some(fields) => {
                let mut fields: Vec<String> = fields;
                assert(texts(fields@) == all[row as int]) by {
                    assert(table(before)[row as int] == all.take(before.len() as int)[row as int]);
                }
                assert(table(records@) == all.take(row as int)) by {
                    assert(table(records@) == table(before).take(row as int));
                }
                proof {
                    lemma_width(all, row as int);
                }
                assert(cell_rows(range) =~~= cells_from(all, row as int, fields@.len() as int));
                while fields.len() > 0
                    invariant
                        row < all.len(),
                        all.len() <= usize::MAX,
                        fields@.len() <= all[row as int].len() <= w,
                        texts(fields@) == all[row as int].take(fields@.len() as int),
                        w == width_of(all),
                        w == width,
                        cell_rows(range) == cells_from(all, row as int, fields@.len() as int),
                        cell_size(range) == (all.len() as usize, width),
                        cell_start(range) == Some((0u32, 0u32)),
                    decreases fields@.len(),
                {
                    let column: usize = fields.len() - 1;
                    let ghost fields_before = fields@;
                    let ghost rows_before = cell_rows(range);
                    match fields.pop() {
                        Some(value) => {
                            assert(value@ == all[row as int][column as int]) by {
                                assert(texts(fields_before)[column as int] == value@);
                            }
                            assert(texts(fields@) == texts(fields_before).take(column as int));
                            let cell = if value.as_str().is_empty() {
                                Cell::Empty
                            } else {
                                Cell::String(value)
                            };
                            set_cell(&mut range, row, column, cell);
                            assert(cell@ == cell_at(all, row as int, column as int));
                            assert(cell_rows(range)[row as int] == cells_from(
                                all,
                                row as int,
                                column as int,
                            )[row as int]);
                            assert(cell_rows(range) =~~= cells_from(all, row as int, column as int));
                        },
                        None => {},
                    }
                }
                assert(cell_rows(range) =~~= cells_from(all, row - 1, w));
            },
            None => {},
        }
    }
    assert(cell_rows(range) =~~= cells_of(all));
    range
}

/// The range of cells of a CSV text. It starts at the corner of the sheet, and is empty just
/// where the text is.
pub fn csv_content_to_range(content: &str) -> (result: Result<Range<Cell>, WorkbookError>)
    requires
        csv_records(content@) matches Some(records) ==> fit_in_range(records),
    ensures
        result is Ok <==> csv_records(content@) is Some,
        result matches Ok(range) ==> {
            let records = csv_records(content@)->0;
            &&& cell_rows(range) == cells_of(records)
            &&& cell_size(range).0 == cells_of(records).len()
            &&& cell_size(range).1 == width_of(records)
            &&& cell_start(range) == csv_start(records)
            &&& content@.len() == 0 <==> cell_size(range) == (0usize, 0usize)
        },
        result matches Err(error) ==> error@ == ErrorView::UnterminatedQuote,
{
    proof {
        if content@.len() > 0 {
            law_readable_text_has_records(content@);
        }
    }
    match parse_csv_records(content) {
        Ok(records) => Ok(records_to_range(records)),
        Err(error) => Err(error),
    }
}

}
