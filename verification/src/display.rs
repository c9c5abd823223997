//! Rows whose numbers are shown as percentages.

use vstd::prelude::*;
use vstd::string::StringExecFns;

use crate::cell::{can_show, shown, CellValue, ValueView};
use crate::percent::{percent_text, push_percent};
use crate::text::contains_char;

verus! {

broadcast use vstd::string::group_string_axioms;

/// The mathematical values of a row.
pub open spec fn values(row: Seq<CellValue>) -> Seq<ValueView> {
    Seq::new(row.len(), |i: int| row[i]@)
}

/// Whether the row has a column of this number. Columns are counted from 1.
pub open spec fn has_column(row: Seq<ValueView>, column: int) -> bool {
    1 <= column <= row.len()
}

/// Whether a percent sign is shown in this column of the row.
pub open spec fn is_marked(row: Seq<ValueView>, column: int) -> bool {
    has_column(row, column) && shown(row[column - 1]).contains('%')
}

/// Whether a percent sign is shown in one of these columns of the row.
pub open spec fn is_percentage_row(row: Seq<ValueView>, columns: Seq<usize>) -> bool {
    exists|k: int| 0 <= k < columns.len() && is_marked(row, #[trigger] columns[k] as int)
}

/// Whether the columns up to the first with a percent sign can be shown.
pub open spec fn can_search(row: Seq<ValueView>, columns: Seq<usize>) -> bool {
    forall|k: int|
        0 <= k < columns.len() && !is_percentage_row(row, columns.take(k)) && has_column(
            row,
            #[trigger] columns[k] as int,
        ) ==> can_show(row[columns[k] - 1])
}

/// What is shown of a value in a row: in a percentage row numbers are shown as percentages.
pub open spec fn shown_in_row(
    value: ValueView,
    row: Seq<ValueView>,
    columns: Seq<usize>,
) -> Seq<char> {
    if is_percentage_row(row, columns) {
        match value {
            ValueView::Int(i) => percent_text(i),
            ValueView::Float(f) => f.percent.push('%'),
            _ => shown(value),
        }
    } else {
        shown(value)
    }
}

/// Whether the marker columns of a row up to the first with a percent sign can be shown.
pub fn marker_columns_can_be_shown(row: &[CellValue], marker_columns: &[usize]) -> (can: bool)
    ensures
        can == can_search(values(row@), marker_columns@),
{
    let ghost shown_row = values(row@);
    let mut k: usize = 0;
    while k < marker_columns.len()
        invariant
            k <= marker_columns@.len(),
            shown_row == values(row@),
            !is_percentage_row(shown_row, marker_columns@.take(k as int)),
            can_search(shown_row, marker_columns@.take(k as int)),
        decreases marker_columns@.len() - k,
    {
        let column: usize = marker_columns[k];
        let ghost next = marker_columns@.take(k + 1);
        proof {
            assert forall|j: int| 0 <= j <= k implies #[trigger] next.take(j)
                == marker_columns@.take(j) by {}
        }
        if column >= 1 && column <= row.len() {
            assert(has_column(shown_row, marker_columns@[k as int] as int));
            if !row[column - 1].can_be_shown() {
                return false;
            }
            let text = row[column - 1].to_string();
            if contains_char(text.as_str(), '%') {
                assert(is_marked(shown_row, marker_columns@[k as int] as int));
                proof {
                    lemma_search_stops(shown_row, marker_columns@, k as int);
                }
                return true;
            }
        }
        proof {
            lemma_search_goes_on(shown_row, marker_columns@, k as int);
            assert(can_search(shown_row, next)) by {
                assert forall|j: int|
                    0 <= j < next.len() && !is_percentage_row(shown_row, next.take(j))
                        && has_column(shown_row, #[trigger] next[j] as int) implies can_show(
                    shown_row[next[j] - 1],
                ) by {
                    if j < k {
                        let before = marker_columns@.take(k as int);
                        assert(before[j] == next[j]);
                        assert(before.take(j) == next.take(j));
                    }
                }
            }
        }
        k += 1;
    }
    assert(marker_columns@.take(k as int) == marker_columns@);
    true
}

/// A column without a percent sign behind columns without one makes no percentage row.
proof fn lemma_search_goes_on(row: Seq<ValueView>, columns: Seq<usize>, k: int)
    requires
        0 <= k < columns.len(),
        !is_percentage_row(row, columns.take(k)),
        !is_marked(row, columns[k] as int),
    ensures
        !is_percentage_row(row, columns.take(k + 1)),
{
    let next = columns.take(k + 1);
    assert forall|j: int| 0 <= j < next.len() implies !is_marked(
        row,
        #[trigger] next[j] as int,
    ) by {
        if j < k {
            assert(columns.take(k)[j] == next[j]);
        }
    }
}

/// A search that can go on up to a column with a percent sign can go on for good.
proof fn lemma_search_stops(row: Seq<ValueView>, columns: Seq<usize>, k: int)
    requires
        0 <= k < columns.len(),
        can_search(row, columns.take(k)),
        is_marked(row, columns[k] as int),
        can_show(row[columns[k] - 1]),
    ensures
        can_search(row, columns),
{
    assert forall|j: int|
        0 <= j < columns.len() && !is_percentage_row(row, columns.take(j)) && has_column(
            row,
            #[trigger] columns[j] as int,
        ) implies can_show(row[columns[j] - 1]) by {
        if j < k {
            assert(columns.take(k)[j] == columns[j]);
            assert(columns.take(k).take(j) == columns.take(j));
        } else if j > k {
            assert(columns.take(j)[k] == columns[k]);
        }
    }
}

/// Whether one of the marker columns of a row, counted from 1, shows a percent sign.
pub fn row_uses_percentage_display(row: &[CellValue], marker_columns: &[usize]) -> (uses: bool)
    requires
        can_search(values(row@), marker_columns@),
    ensures
        uses == is_percentage_row(values(row@), marker_columns@),
{
    let ghost shown_row = values(row@);
    let mut k: usize = 0;
    while k < marker_columns.len()
        invariant
            k <= marker_columns@.len(),
            shown_row == values(row@),
            can_search(shown_row, marker_columns@),
            !is_percentage_row(shown_row, marker_columns@.take(k as int)),
        decreases marker_columns@.len() - k,
    {
        let column: usize = marker_columns[k];
        if column >= 1 && column <= row.len() {
            assert(has_column(shown_row, marker_columns@[k as int] as int));
            let text = row[column - 1].to_string();
            if contains_char(text.as_str(), '%') {
                assert(is_marked(shown_row, marker_columns@[k as int] as int));
                return true;
            }
        }
        proof {
            lemma_search_goes_on(shown_row, marker_columns@, k as int);
        }
        k += 1;
    }
    assert(marker_columns@.take(k as int) == marker_columns@);
    false
}

/// The text of a cell in its row: a number of a percentage row is shown as a percentage with one
/// decimal place, and every other cell as it is.
pub fn format_cell_for_display(
    cell: &CellValue,
    row: &[CellValue],
    marker_columns: &[usize],
) -> (text: String)
    requires
        can_search(values(row@), marker_columns@),
        can_show(cell@),
    ensures
        text@ == shown_in_row(cell@, values(row@), marker_columns@),
{
    if row_uses_percentage_display(row, marker_columns) {
        match cell {
            CellValue::Int(i) => {
                let mut text = String::new();
                push_percent(&mut text, *i);
                return text;
            },
            CellValue::Float(f) => {
                let mut text = String::new();
                text.append(f.percent.as_str());
                text.push('%');
                return text;
            },
            _ => {},
        }
    }
    cell.to_string()
}

}
