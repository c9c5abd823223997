//! What the texts of values stand for.

use vstd::prelude::*;

use crate::cell::{can_show, exported, shown, FloatView, ValueView};
use crate::display::{can_search, is_marked, is_percentage_row, shown_in_row};
use crate::number_laws::{
    has_two_signs, is_plain_number, is_written_integer, law_commas_stand_before_threes,
    law_grouping_keeps_the_number, law_shown_integers_only_add_commas, lemma_integer_text,
    lemma_until_is_start, without,
};
use crate::percent_laws::{is_percentage, law_percentages_are_rounded_products};
use crate::text::{
    group_number, group_signed, group_thousands, int_text, lemma_until_misses, trim_start, until,
};

verus! {

broadcast use vstd::string::group_string_axioms;

/// Texts are shown and exported as they are, character for character. An error is shown behind a
/// word for it and exported behind a number sign, a truth value is a word, and nothing is shown
/// of an empty cell.
pub proof fn law_plain_values_keep_their_text(s: Seq<char>, b: bool)
    ensures
        shown(ValueView::String(s)) == s,
        exported(ValueView::String(s)) == s,
        shown(ValueView::Error(s)) == seq!['E', 'R', 'R', 'O', 'R', ':', ' '] + s,
        exported(ValueView::Error(s)) == seq!['#'] + s,
        shown(ValueView::Bool(b)) == if b {
            seq!['t', 'r', 'u', 'e']
        } else {
            seq!['f', 'a', 'l', 's', 'e']
        },
        exported(ValueView::Bool(b)) == shown(ValueView::Bool(b)),
        shown(ValueView::Empty).len() == 0,
        exported(ValueView::Empty).len() == 0,
{
    reveal_strlit("true");
    reveal_strlit("false");
    reveal_strlit("ERROR: ");
    assert("ERROR: "@ == seq!['E', 'R', 'R', 'O', 'R', ':', ' ']);
    assert("true"@ == seq!['t', 'r', 'u', 'e']);
    assert("false"@ == seq!['f', 'a', 'l', 's', 'e']);
}

/// Whether a number in text has its point at `q`, or ends there without one.
pub open spec fn has_point_at(text: Seq<char>, q: int) -> bool {
    &&& 0 <= q <= text.len()
    &&& q < text.len() ==> text[q] == '.'
    &&& forall|k: int| 0 <= k < q ==> #[trigger] text[k] != '.'
}

/// Whether the commas of a number stand before every third digit, counted from the point or from
/// the end, and nowhere else.
pub open spec fn is_grouped(text: Seq<char>) -> bool {
    forall|q: int, p: int|
        #![trigger has_point_at(text, q), text[p]]
        has_point_at(text, q) && 0 <= p < text.len() ==> (text[p] == ',' <==> 0 < p < q && (q - p)
            % 4 == 0)
}

/// Grouping adds no character but commas, and none in front.
proof fn lemma_grouped_chars(s: Seq<char>, c: char)
    requires
        c != ',',
        !s.contains(c),
    ensures
        !group_thousands(s).contains(c),
    decreases s.len(),
{
    if s.len() > 3 {
        let head = s.take(s.len() - 3);
        let tail = s.skip(s.len() - 3);
        assert(!head.contains(c)) by {
            if head.contains(c) {
                let k = choose|k: int| 0 <= k < head.len() && head[k] == c;
                assert(s[k] == c);
            }
        }
        lemma_grouped_chars(head, c);
        let text = group_thousands(s);
        if text.contains(c) {
            let k = choose|k: int| 0 <= k < text.len() && text[k] == c;
            let front = group_thousands(head);
            if k < front.len() {
                assert(front[k] == c);
            } else if k > front.len() {
                assert(s[k - front.len() - 1 + s.len() - 3] == c);
            }
        }
    }
}

/// The first character of a grouped text is the first of the text.
proof fn lemma_grouped_start(s: Seq<char>)
    requires
        s.len() > 0,
    ensures
        group_thousands(s).len() > 0,
        group_thousands(s)[0] == s[0],
    decreases s.len(),
{
    if s.len() > 3 {
        lemma_grouped_start(s.take(s.len() - 3));
    }
}

/// The commas of a grouped whole number.
proof fn lemma_grouped_signed(s: Seq<char>)
    requires
        !s.contains(','),
        !s.contains('.'),
        !has_two_signs(s),
    ensures
        !group_signed(s).contains('.'),
        forall|p: int|
            0 <= p < group_signed(s).len() ==> (#[trigger] group_signed(s)[p] == ',' <==> 0 < p && (
            group_signed(s).len() - p) % 4 == 0),
{
    let negative = s.len() > 0 && s[0] == '-';
    let digits = trim_start(s, '-');
    if negative {
        let rest = s.drop_first();
        if rest.len() > 0 {
            assert(rest[0] == s[1]);
        }
        assert(trim_start(rest, '-') == rest);
        assert(digits == rest);
    }
    let front: int = if negative {
        1
    } else {
        0
    };
    assert forall|k: int| 0 <= k < digits.len() implies #[trigger] digits[k] == s[k + front] by {}
    assert(!digits.contains(',')) by {
        if digits.contains(',') {
            let k = choose|k: int| 0 <= k < digits.len() && digits[k] == ',';
            assert(s[k + front] == ',');
        }
    }
    assert(!digits.contains('.')) by {
        if digits.contains('.') {
            let k = choose|k: int| 0 <= k < digits.len() && digits[k] == '.';
            assert(s[k + front] == '.');
        }
    }
    lemma_grouped_chars(digits, '.');
    let grouped = group_thousands(digits);
    let text = group_signed(s);
    assert forall|k: int| 0 <= k < grouped.len() implies #[trigger] grouped[k] == text[k
        + front] by {}
    assert(!text.contains('.')) by {
        if text.contains('.') {
            let k = choose|k: int| 0 <= k < text.len() && text[k] == '.';
            if k >= front {
                assert(grouped[k - front] == '.');
            }
        }
    }
    assert forall|p: int| 0 <= p < text.len() implies (#[trigger] text[p] == ',' <==> 0 < p && (
    text.len() - p) % 4 == 0) by {
        if p >= front {
            law_commas_stand_before_threes(digits, p - front);
            assert(grouped[p - front] == text[p]);
            if p == front {
                lemma_grouped_start(digits);
                assert(digits.contains(digits[0]));
            }
        }
    }
}

/// The commas of a grouped number.
proof fn lemma_number_is_grouped(s: Seq<char>)
    requires
        is_plain_number(s),
    ensures
        is_grouped(group_number(s)),
{
    let whole = until(s, '.');
    let text = group_number(s);
    lemma_until_is_start(s, '.');
    assert forall|k: int| 0 <= k < whole.len() implies #[trigger] whole[k] == s[k] by {
        assert(whole[k] == s.take(whole.len() as int)[k]);
    }
    assert(!whole.contains(',')) by {
        if whole.contains(',') {
            let k = choose|k: int| 0 <= k < whole.len() && whole[k] == ',';
            assert(s[k] == ',');
        }
    }
    lemma_until_misses(s, '.');
    lemma_grouped_signed(whole);
    let grouped = group_signed(whole);
    let n = grouped.len() as int;
    assert forall|k: int| 0 <= k < n implies #[trigger] text[k] == grouped[k] by {
        if whole.len() == s.len() {
            assert(whole == s);
        }
    }
    if whole.len() == s.len() {
        assert(whole == s);
        assert(text == grouped);
    } else {
        let rest = s.skip(whole.len() as int + 1);
        let places = until(rest, '.');
        lemma_until_is_start(rest, '.');
        assert forall|k: int| n < k < text.len() implies #[trigger] text[k] != ',' by {
            assert(text[k] == places[k - n - 1]);
            assert(places[k - n - 1] == rest.take(places.len() as int)[k - n - 1]);
            assert(rest[k - n - 1] == s[whole.len() + 1 + k - n - 1]);
            assert(s.contains(s[whole.len() + 1 + k - n - 1]));
        }
        assert(text[n] == '.');
    }
    assert forall|q: int, p: int|
        #![trigger has_point_at(text, q), text[p]]
        has_point_at(text, q) && 0 <= p < text.len() implies (text[p] == ',' <==> 0 < p < q && (q
        - p) % 4 == 0) by {
        if q < n {
            assert(grouped[q] == '.');
            assert(grouped.contains('.'));
        } else if q > n {
            assert(text[n] != '.');
        }
        if p < n {
            assert(text[p] == grouped[p]);
        }
    }
}

/// An integer is exported in decimal. It is shown with the same characters and with commas, which
/// stand before every third digit, counted from the end.
pub proof fn law_integers_read_back(i: int)
    ensures
        is_written_integer(exported(ValueView::Int(i)), i),
        without(shown(ValueView::Int(i)), ',') == exported(ValueView::Int(i)),
        is_grouped(shown(ValueView::Int(i))),
{
    let s = int_text(i);
    lemma_integer_text(i);
    law_shown_integers_only_add_commas(i);
    assert forall|k: int| 0 <= k < s.len() implies #[trigger] s[k] != ',' && s[k] != '.' && (k > 0
        ==> s[k] != '-') by {
        if i < 0 {
            if k > 0 {
                assert('0' <= s.skip(1)[k - 1]);
            }
        } else {
            assert('0' <= s[k]);
        }
    }
    assert(!s.contains(','));
    assert(!s.contains('.'));
    assert(!has_two_signs(s));
    lemma_grouped_signed(s);
    let text = shown(ValueView::Int(i));
    assert forall|q: int, p: int|
        #![trigger has_point_at(text, q), text[p]]
        has_point_at(text, q) && 0 <= p < text.len() implies (text[p] == ',' <==> 0 < p < q && (q
        - p) % 4 == 0) by {
        if q < text.len() {
            assert(text.contains(text[q]));
        }
    }
}

/// A decimal number is shown as its text without decimal places if it is whole, and else as its
/// text with two, character for character, with commas before every third digit, counted from the
/// point. It is exported as its text without decimal places or as its shortest text.
pub proof fn law_floats_keep_their_text(f: FloatView)
    ensures
        ({
            let text = shown(ValueView::Float(f));
            let plain = if f.whole {
                f.rounded
            } else {
                f.hundredths
            };
            is_plain_number(plain) ==> without(text, ',') == plain && is_grouped(text)
        }),
        f.whole ==> exported(ValueView::Float(f)) == f.rounded,
        !f.whole ==> exported(ValueView::Float(f)) == f.shortest,
{
    let plain = if f.whole {
        f.rounded
    } else {
        f.hundredths
    };
    if is_plain_number(plain) {
        law_grouping_keeps_the_number(plain);
        lemma_number_is_grouped(plain);
    }
}

/// A row is a percentage row exactly if one of the marker columns that it has, counted from 1,
/// shows a percent sign.
pub proof fn law_percent_signs_mark_rows(row: Seq<ValueView>, columns: Seq<usize>)
    ensures
        is_percentage_row(row, columns) <==> exists|k: int|
            0 <= k < columns.len() && 1 <= #[trigger] columns[k] <= row.len() && shown(
                row[columns[k] - 1],
            ).contains('%'),
{
    if is_percentage_row(row, columns) {
        let k = choose|k: int|
            0 <= k < columns.len() && is_marked(row, #[trigger] columns[k] as int);
        assert(1 <= columns[k] <= row.len());
    }
    if exists|k: int|
        0 <= k < columns.len() && 1 <= #[trigger] columns[k] <= row.len() && shown(
            row[columns[k] - 1],
        ).contains('%') {
        let k = choose|k: int|
            0 <= k < columns.len() && 1 <= #[trigger] columns[k] <= row.len() && shown(
                row[columns[k] - 1],
            ).contains('%');
        assert(is_marked(row, columns[k] as int));
    }
}

/// The marker columns of a row can be searched exactly if each that the row has can be shown, up
/// to the first that shows a percent sign.
pub proof fn law_search_ends_at_a_percent_sign(row: Seq<ValueView>, columns: Seq<usize>)
    ensures
        can_search(row, columns) <==> forall|k: int|
            0 <= k < columns.len() && 1 <= #[trigger] columns[k] <= row.len() && (forall|j: int|
                0 <= j < k && 1 <= #[trigger] columns[j] <= row.len() ==> !shown(
                    row[columns[j] - 1],
                ).contains('%')) ==> can_show(row[columns[k] - 1]),
{
    assert forall|k: int| 0 <= k < columns.len() implies (is_percentage_row(
        row,
        #[trigger] columns.take(k),
    ) <==> !(forall|j: int|
        0 <= j < k && 1 <= #[trigger] columns[j] <= row.len() ==> !shown(
            row[columns[j] - 1],
        ).contains('%'))) by {
        let part = columns.take(k);
        assert forall|j: int| 0 <= j < k implies part[j] == #[trigger] columns[j] by {}
        if is_percentage_row(row, part) {
            let j = choose|j: int| 0 <= j < part.len() && is_marked(row, #[trigger] part[j] as int);
            assert(part[j] == columns[j]);
        }
        if exists|j: int|
            0 <= j < k && 1 <= #[trigger] columns[j] <= row.len() && shown(
                row[columns[j] - 1],
            ).contains('%') {
            let j = choose|j: int|
                0 <= j < k && 1 <= #[trigger] columns[j] <= row.len() && shown(
                    row[columns[j] - 1],
                ).contains('%');
            assert(is_marked(row, part[j] as int));
        }
    }
    if can_search(row, columns) {
        assert forall|k: int|
            0 <= k < columns.len() && 1 <= #[trigger] columns[k] <= row.len() && (forall|j: int|
                0 <= j < k && 1 <= #[trigger] columns[j] <= row.len() ==> !shown(
                    row[columns[j] - 1],
                ).contains('%')) implies can_show(row[columns[k] - 1]) by {
            assert(!is_percentage_row(row, columns.take(k)));
        }
    } else {
        let k = choose|k: int|
            0 <= k < columns.len() && !is_percentage_row(row, columns.take(k)) && 1
                <= #[trigger] columns[k] <= row.len() && !can_show(row[columns[k] - 1]);
        assert(0 <= k < columns.len());
        assert(!is_percentage_row(row, columns.take(k)));
    }
}

/// In a percentage row a decimal number is shown as the text of a hundred times the number, sign
/// and digits kept, and a percent sign behind it. An integer is shown as a percentage. All else,
/// and all in other rows, is shown as anywhere.
pub proof fn law_percentages_keep_their_text(
    value: ValueView,
    row: Seq<ValueView>,
    columns: Seq<usize>,
)
    ensures
        ({
            let text = shown_in_row(value, row, columns);
            if is_percentage_row(row, columns) {
                match value {
                    ValueView::Float(f) => {
                        &&& text.len() == f.percent.len() + 1
                        &&& text.last() == '%'
                        &&& text.drop_last() == f.percent
                    },
                    ValueView::Int(i) => exists|r: nat, v: nat| is_percentage(text, i, r, v),
                    _ => text == shown(value),
                }
            } else {
                text == shown(value)
            }
        }),
{
    let text = shown_in_row(value, row, columns);
    match value {
        ValueView::Float(f) => {
            if is_percentage_row(row, columns) {
                assert(text == f.percent.push('%'));
                assert(text.drop_last() =~= f.percent);
            }
        },
        ValueView::Int(i) => {
            law_percentages_are_rounded_products(i);
        },
        _ => {},
    }
}

}
