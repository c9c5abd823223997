//! What holds of values as they are shown and exported.

use vstd::prelude::*;

use crate::calendar::{
    clock_text, date_text, four_digits, quotient, remainder, serial_date, serial_is_date, year_text,
    CivilDate,
};
use crate::cell::{exported, is_not_finite, shown, FloatView, SerialView, ValueView};
use crate::display::{is_marked, is_percentage_row, shown_in_row};
use crate::number_laws::{lemma_decimal, lemma_grouped_whole_number, lemma_until_is_start, without};
use crate::text::{
    all_digits, decimal, decimal_places, group_number, group_signed, group_thousands, int_text,
    trim_start, two_columns, until, without_sign,
};

verus! {

broadcast use vstd::string::group_string_axioms;

/// A decimal number with its digits before the point in groups of three.
pub open spec fn grouped_decimal(
    negative: bool,
    digits: Seq<char>,
    places: Seq<char>,
) -> Seq<char> {
    let sign = if negative {
        seq!['-']
    } else {
        Seq::empty()
    };
    let fraction = if places.len() > 0 {
        seq!['.'] + places
    } else {
        Seq::empty()
    };
    sign + group_thousands(digits) + fraction
}

/// A character that is not looked for stays in front.
proof fn lemma_until_behind(first: char, s: Seq<char>, c: char)
    requires
        first != c,
    ensures
        until(seq![first] + s, c) == seq![first] + until(s, c),
{
    assert((seq![first] + s).drop_first() == s);
}

/// Where there is nothing to look for, all stands before it.
proof fn lemma_until_all(s: Seq<char>, c: char)
    requires
        forall|k: int| 0 <= k < s.len() ==> #[trigger] s[k] != c,
    ensures
        until(s, c) == s,
    decreases s.len(),
{
    if s.len() > 0 {
        assert(s[0] != c);
        assert forall|k: int| 0 <= k < s.len() - 1 implies #[trigger] s.drop_first()[k] != c by {
            assert(s.drop_first()[k] == s[k + 1]);
        }
        lemma_until_all(s.drop_first(), c);
    }
}

/// What grouping makes of a decimal number.
proof fn lemma_grouped_decimal(s: Seq<char>)
    requires
        decimal_places(s) is Some,
    ensures
        ({
            let number = without_sign(s);
            let digits = until(number, '.');
            let places = number.skip(digits.len() as int + 1);
            &&& digits.len() > 0
            &&& all_digits(digits)
            &&& decimal_places(s) == Some(0nat) ==> group_number(s) == grouped_decimal(
                s[0] == '-',
                digits,
                Seq::empty(),
            )
            &&& decimal_places(s) != Some(0nat) ==> {
                &&& all_digits(places)
                &&& places.len() == decimal_places(s)->0
                &&& group_number(s) == grouped_decimal(s[0] == '-', digits, places)
            }
        }),
{
    let number = without_sign(s);
    let digits = until(number, '.');
    let places = number.skip(digits.len() as int + 1);
    let negative = s[0] == '-';
    lemma_until_is_start(number, '.');
    assert('0' <= digits[0]);
    assert(trim_start(digits, '-') == digits);
    if negative {
        assert(s == seq!['-'] + number);
        lemma_until_behind('-', number, '.');
        assert((seq!['-'] + digits).drop_first() == digits);
        assert(trim_start(seq!['-'] + digits, '-') == digits);
        assert(group_signed(until(s, '.')) == seq!['-'] + group_thousands(digits));
    } else {
        assert(group_signed(until(s, '.')) == group_thousands(digits));
    }
    if digits.len() == number.len() {
        assert(until(s, '.') == s);
        assert(group_number(s) == grouped_decimal(negative, digits, Seq::empty()));
    } else {
        assert(s.skip(until(s, '.').len() as int + 1) == places);
        assert forall|k: int| 0 <= k < places.len() implies #[trigger] places[k] != '.' by {
            assert('0' <= places[k]);
        }
        lemma_until_all(places, '.');
        assert(group_number(s) == grouped_decimal(negative, digits, places));
    }
}

/// Words for numbers that are not finite are not grouped.
proof fn lemma_words_are_not_grouped(s: Seq<char>)
    requires
        is_not_finite(s),
    ensures
        group_number(s) == s,
        is_clear(s),
{
    reveal_strlit("NaN");
    reveal_strlit("inf");
    reveal_strlit("-inf");
    assert forall|k: int| 0 <= k < s.len() implies #[trigger] s[k] != '.' by {}
    lemma_until_all(s, '.');
    if s == "-inf"@ {
        assert(s.drop_first() == "inf"@);
        assert(trim_start("inf"@, '-') == "inf"@);
        assert(trim_start(s, '-') == "inf"@);
        assert(seq!['-'] + "inf"@ == s);
    } else {
        assert(trim_start(s, '-') == s);
    }
}

/// A decimal number is shown as an optional sign, digits in groups of three, and two decimal
/// places unless it is whole. A number that is not finite is shown by its word.
pub proof fn law_shown_floats_have_two_places(f: FloatView)
    requires
        f.valid(),
    ensures
        ({
            let text = shown(ValueView::Float(f));
            ||| is_not_finite(text)
            ||| exists|negative: bool, digits: Seq<char>, places: Seq<char>|
                {
                    &&& text == #[trigger] grouped_decimal(negative, digits, places)
                    &&& digits.len() > 0
                    &&& all_digits(digits)
                    &&& all_digits(places)
                    &&& places.len() == if f.whole {
                        0int
                    } else {
                        2
                    }
                }
        }),
{
    let text = shown(ValueView::Float(f));
    let source = if f.whole {
        f.rounded
    } else {
        f.hundredths
    };
    if is_not_finite(source) {
        lemma_words_are_not_grouped(source);
    } else {
        lemma_grouped_decimal(source);
        let number = without_sign(source);
        let digits = until(number, '.');
        let places = if f.whole {
            Seq::empty()
        } else {
            number.skip(digits.len() as int + 1)
        };
        assert(text == grouped_decimal(source[0] == '-', digits, places));
        assert(all_digits(places));
    }
}

/// A decimal number is exported as a decimal number, a whole one without decimal places, and a
/// number that is not finite as its word.
pub proof fn law_exported_floats_are_decimal(f: FloatView)
    requires
        f.valid(),
    ensures
        ({
            let text = exported(ValueView::Float(f));
            ||| is_not_finite(text)
            ||| decimal_places(text) is Some && (f.whole ==> decimal_places(text) == Some(0nat))
        }),
{
}

/// Without its separators, a whole decimal number is shown as it is exported.
pub proof fn law_shown_whole_floats_only_add_commas(f: FloatView)
    requires
        f.valid(),
        f.whole,
    ensures
        without(shown(ValueView::Float(f)), ',') == exported(ValueView::Float(f)),
{
    let s = f.rounded;
    let number = without_sign(s);
    lemma_until_is_start(number, '.');
    assert(until(number, '.') == number);
    assert(all_digits(number));
    if s[0] == '-' {
        lemma_until_behind('-', number, '.');
        assert(s == seq!['-'] + number);
        assert('0' <= number[0]);
        assert(s[1] == number[0]);
    }
    assert(until(s, '.') == s);
    assert(!s.contains(',')) by {
        if s.contains(',') {
            let k = choose|k: int| 0 <= k < s.len() && s[k] == ',';
            if s[0] == '-' {
                assert(s[k] == number[k - 1]);
            } else {
                assert(s[k] == number[k]);
            }
        }
    }
    lemma_grouped_whole_number(s);
}

/// A decimal number of a percentage row is shown with one decimal place and a percent sign.
pub proof fn law_percentages_have_one_place(
    f: FloatView,
    row: Seq<ValueView>,
    columns: Seq<usize>,
)
    requires
        f.valid(),
        is_percentage_row(row, columns),
    ensures
        ({
            let text = shown_in_row(ValueView::Float(f), row, columns);
            &&& text.len() > 0
            &&& text.last() == '%'
            &&& decimal_places(text.drop_last()) == Some(1nat) || is_not_finite(text.drop_last())
        }),
{
    assert(f.percent.push('%').drop_last() == f.percent);
}

/// A date from the epoch on is shown as it is exported, but for a time of day that is next to
/// nothing: it is left out where it is shown, and exported as midnight.
pub proof fn law_dates_are_shown_as_exported(d: SerialView)
    requires
        d.valid(),
        d.days >= 0,
        serial_is_date(d.days),
    ensures
        ({
            let shown_text = shown(ValueView::DateTime(d));
            let exported_text = exported(ValueView::DateTime(d));
            if d.shows_time == d.exports_time {
                exported_text == shown_text
            } else {
                exported_text == shown_text + " 00:00:00"@
            }
        }),
{
    if d.shows_time != d.exports_time {
        reveal_strlit(" 00:00:00");
        assert(two_columns(0) == seq!['0', '0']);
        assert(clock_text(0) == seq!['0', '0', ':', '0', '0', ':', '0', '0']);
        let date = date_text(serial_date(d.days));
        assert(date.push(' ') + clock_text(0) == date + " 00:00:00"@);
    }
}

/// Whether a text has no percent sign.
spec fn is_clear(s: Seq<char>) -> bool {
    forall|k: int| 0 <= k < s.len() ==> #[trigger] s[k] != '%'
}

proof fn lemma_digits_are_clear(n: nat)
    ensures
        is_clear(decimal(n)),
        is_clear(four_digits(n)),
{
    lemma_decimal(n);
    assert forall|k: int| 0 <= k < decimal(n).len() implies #[trigger] decimal(n)[k] != '%' by {
        assert('0' <= decimal(n)[k]);
    }
}

proof fn lemma_int_text_is_clear(i: int)
    ensures
        is_clear(int_text(i)),
        is_clear(two_columns(i)),
{
    if i < 0 {
        lemma_digits_are_clear((-i) as nat);
    } else {
        lemma_digits_are_clear(i as nat);
    }
}

proof fn lemma_grouping_is_clear(s: Seq<char>)
    requires
        is_clear(s),
    ensures
        is_clear(group_thousands(s)),
    decreases s.len(),
{
    if s.len() > 3 {
        lemma_grouping_is_clear(s.take(s.len() - 3));
    }
}

proof fn lemma_trimming_is_clear(s: Seq<char>, c: char)
    requires
        is_clear(s),
    ensures
        is_clear(trim_start(s, c)),
    decreases s.len(),
{
    if s.len() > 0 && s[0] == c {
        lemma_trimming_is_clear(s.drop_first(), c);
    }
}

proof fn lemma_clock_is_clear(seconds: int)
    ensures
        is_clear(clock_text(seconds)),
{
    lemma_int_text_is_clear(quotient(seconds, 3600));
    lemma_int_text_is_clear(quotient(remainder(seconds, 3600), 60));
    lemma_int_text_is_clear(remainder(seconds, 60));
}

proof fn lemma_date_is_clear(date: CivilDate)
    ensures
        is_clear(date_text(date)),
{
    let year = date.year as int;
    if year < 0 {
        lemma_digits_are_clear((-year) as nat);
    } else {
        lemma_digits_are_clear(year as nat);
    }
    assert(is_clear(year_text(year)));
    lemma_int_text_is_clear(date.month as int);
    lemma_int_text_is_clear(date.day as int);
}

/// Digits in groups, with a sign and decimal places, have no percent sign.
proof fn lemma_grouped_decimal_is_clear(negative: bool, digits: Seq<char>, places: Seq<char>)
    requires
        all_digits(digits),
        all_digits(places),
    ensures
        is_clear(grouped_decimal(negative, digits, places)),
{
    assert forall|k: int| 0 <= k < digits.len() implies #[trigger] digits[k] != '%' by {
        assert('0' <= digits[k]);
    }
    assert forall|k: int| 0 <= k < places.len() implies #[trigger] places[k] != '%' by {
        assert('0' <= places[k]);
    }
    lemma_grouping_is_clear(digits);
}

/// Numbers, truth values, points in time and empty cells show no percent sign, so only texts and
/// errors mark a percentage row.
pub proof fn law_only_texts_mark(row: Seq<ValueView>, column: int)
    requires
        is_marked(row, column),
        row[column - 1].valid(),
    ensures
        row[column - 1] is String || row[column - 1] is Error,
{
    let text = shown(row[column - 1]);
    reveal_strlit("true");
    reveal_strlit("false");
    reveal_strlit("Date[");
    match row[column - 1] {
        ValueView::Int(i) => {
            lemma_int_text_is_clear(i);
            lemma_trimming_is_clear(int_text(i), '-');
            lemma_grouping_is_clear(trim_start(int_text(i), '-'));
            assert(is_clear(text));
        },
        ValueView::Float(f) => {
            law_shown_floats_have_two_places(f);
            if is_not_finite(text) {
                lemma_words_are_not_grouped(text);
            } else {
                let (negative, digits, places) = choose|
                    negative: bool,
                    digits: Seq<char>,
                    places: Seq<char>,
                |
                    text == #[trigger] grouped_decimal(negative, digits, places) && all_digits(
                        digits,
                    ) && all_digits(places);
                lemma_grouped_decimal_is_clear(negative, digits, places);
            }
            assert(is_clear(text));
        },
        ValueView::DateTime(d) => {
            lemma_int_text_is_clear(d.days);
            lemma_date_is_clear(serial_date(d.days));
            lemma_clock_is_clear(
                if d.seconds < 0 {
                    0
                } else {
                    d.seconds
                },
            );
            assert(is_clear("Date["@));
            assert(is_clear(text));
        },
        ValueView::Bool(b) => {
            assert(is_clear(text));
        },
        _ => {},
    }
}

}
