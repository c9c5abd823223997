//! What the texts of dates and times stand for.

use vstd::prelude::*;

use crate::calendar::{
    clock_text, date_text, days_before_month, four_digits, is_leap, law_supported_days_have_dates,
    quotient, remainder, serial_date, serial_day, serial_in_span, serial_is_date, year_text,
    CivilDate,
};
use crate::cell::{can_export, can_show, exported, shown, SerialView, ValueView};
use crate::number_laws::{integer, is_written_integer, lemma_decimal, lemma_integer_text, natural};
use crate::text::{all_digits, decimal, digit, int_text, two_columns};
use crate::time_laws::law_clock_adds_up;

verus! {

broadcast use vstd::string::group_string_axioms;

/// The number that the two decimal digits at position `k` stand for.
pub open spec fn pair_at(text: Seq<char>, k: int) -> int {
    10 * (text[k] as int - 48) + (text[k + 1] as int - 48)
}

/// Whether a text is an integer in at least two columns, with a zero in front if it needs one.
pub open spec fn is_in_columns(text: Seq<char>, number: int) -> bool {
    if 0 <= number <= 9 {
        text.len() == 2 && text[0] == '0' && text[1] as int - 48 == number
    } else {
        is_written_integer(text, number)
    }
}

/// Whether three texts are the hours, minutes and seconds of a time of day: their numbers add up
/// to it, those of minutes and seconds are less than 60, and all have its sign.
pub open spec fn are_clock_parts(
    hours: Seq<char>,
    minutes: Seq<char>,
    seconds: Seq<char>,
    time: int,
) -> bool {
    exists|h: int, m: int, s: int|
        {
            &&& #[trigger] is_in_columns(hours, h)
            &&& #[trigger] is_in_columns(minutes, m)
            &&& #[trigger] is_in_columns(seconds, s)
            &&& 3600 * h + 60 * m + s == time
            &&& -60 < m < 60
            &&& -60 < s < 60
            &&& time >= 0 ==> h >= 0 && m >= 0 && s >= 0
            &&& time <= 0 ==> h <= 0 && m <= 0 && s <= 0
        }
}

/// Whether a text is a time of day: hours, minutes and seconds with colons between them.
pub open spec fn is_clock(text: Seq<char>, time: int) -> bool {
    exists|hours: Seq<char>, minutes: Seq<char>, seconds: Seq<char>|
        {
            &&& #[trigger] are_clock_parts(hours, minutes, seconds, time)
            &&& text == hours + seq![':'] + minutes + seq![':'] + seconds
        }
}

/// An integer in two columns is written so.
proof fn lemma_columns(n: int)
    ensures
        is_in_columns(two_columns(n), n),
        0 <= n <= 99 ==> two_columns(n) == seq![digit(n / 10), digit(n % 10)],
{
    reveal_with_fuel(decimal, 2);
    lemma_integer_text(n);
}

/// A time of day reads back from its text.
pub proof fn law_clock_reads_back(time: int)
    ensures
        is_clock(clock_text(time), time),
{
    let h = quotient(time, 3600);
    let m = quotient(remainder(time, 3600), 60);
    let s = remainder(time, 60);
    law_clock_adds_up(time);
    lemma_columns(h);
    lemma_columns(m);
    lemma_columns(s);
    let (hours, minutes, seconds) = (two_columns(h), two_columns(m), two_columns(s));
    assert(are_clock_parts(hours, minutes, seconds, time));
    assert(clock_text(time) == hours + seq![':'] + minutes + seq![':'] + seconds);
}

/// A time within a day is written in eight characters: two digits each for the hours, the minutes
/// and the seconds, with colons between them. The three numbers add up to it.
pub proof fn law_clock_of_a_day_reads_back(time: int)
    requires
        0 <= time <= 86400,
    ensures
        ({
            let text = clock_text(time);
            let (h, m, s) = (pair_at(text, 0), pair_at(text, 3), pair_at(text, 6));
            &&& text.len() == 8
            &&& all_digits(seq![text[0], text[1], text[3], text[4], text[6], text[7]])
            &&& text[2] == ':'
            &&& text[5] == ':'
            &&& 0 <= m < 60
            &&& 0 <= s < 60
            &&& 3600 * h + 60 * m + s == time
        }),
{
    let h = quotient(time, 3600);
    let m = quotient(remainder(time, 3600), 60);
    let s = remainder(time, 60);
    law_clock_adds_up(time);
    lemma_columns(h);
    lemma_columns(m);
    lemma_columns(s);
    let text = clock_text(time);
    assert(text == seq![
        digit(h / 10),
        digit(h % 10),
        ':',
        digit(m / 10),
        digit(m % 10),
        ':',
        digit(s / 10),
        digit(s % 10),
    ]);
}

/// Whether a text is a year: four digits, and more with a sign in front.
pub open spec fn is_year(text: Seq<char>, year: int) -> bool {
    if 0 <= year <= 9999 {
        &&& text.len() == 4
        &&& all_digits(text)
        &&& 100 * pair_at(text, 0) + pair_at(text, 2) == year
    } else {
        &&& text.len() >= 5
        &&& text[0] == if year < 0 {
            '-'
        } else {
            '+'
        }
        &&& all_digits(text.skip(1))
        &&& natural(text.skip(1)) == if year < 0 {
            -year
        } else {
            year
        }
        &&& text.len() > 5 ==> text[1] != '0'
    }
}

/// Whether a text is a date: the year, and the month and the day in two digits each, with hyphens
/// between them.
pub open spec fn is_date(text: Seq<char>, date: CivilDate) -> bool {
    let n = text.len() - 6;
    &&& n >= 4
    &&& is_year(text.take(n), date.year as int)
    &&& text[n] == '-'
    &&& text[n + 3] == '-'
    &&& all_digits(seq![text[n + 1], text[n + 2], text[n + 4], text[n + 5]])
    &&& pair_at(text, n + 1) == date.month
    &&& pair_at(text, n + 4) == date.day
}

/// The text of a year is a year.
proof fn lemma_year_text(year: int)
    ensures
        is_year(year_text(year), year),
{
    let text = year_text(year);
    let size: nat = if year < 0 {
        (-year) as nat
    } else {
        year as nat
    };
    let digits = decimal(size);
    let four = four_digits(size);
    if size <= 9999 {
        reveal_with_fuel(decimal, 4);
        assert(four == seq![
            digit(size as int / 1000),
            digit(size as int / 100 % 10),
            digit(size as int / 10 % 10),
            digit(size as int % 10),
        ]);
    } else {
        lemma_decimal(size);
        lemma_integer_text(size as int);
        lemma_long_decimal(size);
        assert(four == digits);
    }
    if !(0 <= year <= 9999) {
        assert(text.skip(1) == four);
        if size <= 9999 {
            lemma_four_digits_count(four);
        }
    }
}

/// A number of more than four digits has more than four digits.
proof fn lemma_long_decimal(n: nat)
    requires
        n > 9999,
    ensures
        decimal(n).len() > 4,
{
    reveal_with_fuel(decimal, 5);
}

/// What four digits stand for.
proof fn lemma_four_digits_count(s: Seq<char>)
    requires
        s.len() == 4,
        all_digits(s),
    ensures
        natural(s) == 100 * pair_at(s, 0) + pair_at(s, 2),
{
    reveal_with_fuel(natural, 5);
    let three = s.drop_last();
    let two = three.drop_last();
    let one = two.drop_last();
    assert('0' <= s[0] && '0' <= s[1] && '0' <= s[2] && '0' <= s[3]);
    assert(three.last() == s[2]);
    assert(two.last() == s[1]);
    assert(one.last() == s[0]);
    assert(one.drop_last().len() == 0);
}

/// A date reads back from its text: the year, the month and the day.
pub proof fn law_date_reads_back(date: CivilDate)
    requires
        1 <= date.month <= 12,
        1 <= date.day <= 31,
    ensures
        is_date(date_text(date), date),
{
    let text = date_text(date);
    let year = year_text(date.year as int);
    lemma_year_text(date.year as int);
    lemma_columns(date.month as int);
    lemma_columns(date.day as int);
    let n = year.len() as int;
    assert(text.len() == n + 6);
    assert(text.take(n) == year);
    let (m, d) = (date.month as int, date.day as int);
    assert(text.skip(n) == seq![
        '-',
        digit(m / 10),
        digit(m % 10),
        '-',
        digit(d / 10),
        digit(d % 10),
    ]);
    assert(text[n] == text.skip(n)[0]);
    assert(text[n + 1] == text.skip(n)[1]);
    assert(text[n + 2] == text.skip(n)[2]);
    assert(text[n + 3] == text.skip(n)[3]);
    assert(text[n + 4] == text.skip(n)[4]);
    assert(text[n + 5] == text.skip(n)[5]);
}

/// The number of days from 1 March of year 0 to a date of the Gregorian calendar, with the years
/// counted from March on, so that a leap day is the last day of its year.
pub open spec fn days_from_march(date: CivilDate) -> int {
    let year = if date.month > 2 {
        date.year as int
    } else {
        date.year - 1
    };
    let month = if date.month > 2 {
        date.month - 3
    } else {
        date.month + 9
    };
    365 * year + year / 4 - year / 100 + year / 400 + (153 * month + 2) / 5 + date.day - 1
}

/// The number of days of a month.
pub open spec fn month_length(year: int, month: int) -> int {
    if month == 2 {
        if year % 400 == 0 || year % 4 == 0 && year % 100 != 0 {
            29
        } else {
            28
        }
    } else if (if month < 8 {
        month % 2
    } else {
        1 - month % 2
    }) == 1 {
        31
    } else {
        30
    }
}

/// The days before a month, counted from March on.
proof fn lemma_days_before_month(year: int, month: int)
    requires
        1 <= month <= 12,
    ensures
        days_before_month(year, month) == if month <= 2 {
            31 * (month - 1)
        } else {
            59 + (if is_leap(year) {
                1int
            } else {
                0
            }) + (153 * (month - 3) + 2) / 5
        },
{
    reveal_with_fuel(days_before_month, 13);
}

/// The leap days up to a year.
proof fn lemma_leap_days(year: int)
    ensures
        year / 4 - year / 100 + year / 400 == (year - 1) / 4 - (year - 1) / 100 + (year - 1) / 400
            + if is_leap(year) {
            1int
        } else {
            0
        },
{
    lemma_quotient_grows(year, 4);
    lemma_quotient_grows(year, 100);
    lemma_quotient_grows(year, 400);
    assert(year % 400 == 0 ==> year % 100 == 0);
    assert(year % 100 == 0 ==> year % 4 == 0);
}

/// A quotient grows by one at the multiples of its divisor.
proof fn lemma_quotient_grows(n: int, d: int)
    requires
        d > 1,
    ensures
        n / d == (n - 1) / d + if n % d == 0 {
            1int
        } else {
            0
        },
{
    let q = n / d;
    let r = n % d;
    vstd::arithmetic::div_mod::lemma_fundamental_div_mod(n, d);
    if r == 0 {
        assert((n - 1) == (q - 1) * d + (d - 1)) by (nonlinear_arith)
            requires
                n == d * q + r,
                r == 0,
        ;
        vstd::arithmetic::div_mod::lemma_fundamental_div_mod_converse(n - 1, d, q - 1, d - 1);
    } else {
        assert((n - 1) == q * d + (r - 1)) by (nonlinear_arith)
            requires
                n == d * q + r,
        ;
        vstd::arithmetic::div_mod::lemma_fundamental_div_mod_converse(n - 1, d, q, r - 1);
    }
}

/// The dates that are supported are the days of the Gregorian calendar from the year -262143 to
/// the year 262142.
pub proof fn law_supported_dates_are_days(date: CivilDate)
    ensures
        date.valid() <==> {
            &&& -262_143 <= date.year <= 262_142
            &&& 1 <= date.month <= 12
            &&& 1 <= date.day <= month_length(date.year as int, date.month as int)
        },
{
}

/// The day numbers of two dates lie as far apart as the dates.
proof fn lemma_days_from_march(date: CivilDate)
    requires
        1 <= date.month <= 12,
    ensures
        date.day_number() == days_from_march(date) - 305,
{
    lemma_days_before_month(date.year as int, date.month as int);
    lemma_leap_days(date.year as int);
}

/// The date of a serial number is the day of the Gregorian calendar that lies so many days behind
/// 31 December 1899, one less for numbers beyond 60. It is there exactly from the first day of the
/// year -262143 to the last of the year 262142.
pub proof fn law_serial_numbers_are_days(serial: int)
    ensures
        serial_is_date(serial) <==> -96_439_724 <= serial <= 95_051_805,
        serial_is_date(serial) ==> {
            let date = serial_date(serial);
            let start = CivilDate { year: 1899, month: 12, day: 31 };
            &&& 1 <= date.month <= 12
            &&& 1 <= date.day <= month_length(date.year as int, date.month as int)
            &&& days_from_march(date) - days_from_march(start) == if serial > 60 {
                serial - 1
            } else {
                serial
            }
        },
{
    let start = CivilDate { year: 1899, month: 12, day: 31 };
    lemma_days_from_march(start);
    if serial_is_date(serial) {
        law_supported_days_have_dates(serial_day(serial));
        lemma_days_from_march(serial_date(serial));
    }
}

/// Which values can be shown and exported: all but points in time that are too far away.
pub proof fn law_reach_of_dates(value: ValueView)
    ensures
        can_show(value) <==> match value {
            ValueView::DateTime(d) => -106_751_991_167 <= d.days <= 106_751_991_168,
            _ => true,
        },
        can_export(value) <==> match value {
            ValueView::DateTime(d) => -96_439_724 <= d.days <= 95_051_805,
            _ => true,
        },
        value matches ValueView::DateTime(d) ==> (serial_in_span(d.days) <==> -106_751_991_167
            <= d.days <= 106_751_991_168),
{
    if let ValueView::DateTime(d) = value {
        law_serial_numbers_are_days(d.days);
    }
}

/// Whether a text is a date and behind it, if there is a time, a space and the time of day.
pub open spec fn is_moment(text: Seq<char>, date: CivilDate, time: Option<int>) -> bool {
    match time {
        Some(time) => exists|n: int|
            {
                &&& 0 <= n < text.len()
                &&& #[trigger] text[n] == ' '
                &&& is_date(text.take(n), date)
                &&& is_clock(text.skip(n + 1), time)
            },
        None => is_date(text, date),
    }
}

/// A point in time is shown as its date and, if there is one to show, its time of day, which is
/// midnight before the epoch. Days beyond the calendar are shown by their number.
pub proof fn law_shown_dates_read_back(d: SerialView)
    ensures
        ({
            let text = shown(ValueView::DateTime(d));
            let time = if d.seconds < 0 {
                0
            } else {
                d.seconds
            };
            if -96_439_724 <= d.days <= 95_051_805 {
                is_moment(
                    text,
                    serial_date(d.days),
                    if d.shows_time {
                        Some(time)
                    } else {
                        None
                    },
                )
            } else {
                &&& text.len() > 6
                &&& text.take(5) == seq!['D', 'a', 't', 'e', '[']
                &&& text.last() == ']'
                &&& is_written_integer(text.subrange(5, text.len() - 1), d.days)
            }
        }),
{
    let text = shown(ValueView::DateTime(d));
    law_serial_numbers_are_days(d.days);
    if serial_is_date(d.days) {
        let date = date_text(serial_date(d.days));
        let n = date.len() as int;
        let time = if d.seconds < 0 {
            0
        } else {
            d.seconds
        };
        law_date_reads_back(serial_date(d.days));
        if d.shows_time {
            law_clock_reads_back(time);
            assert(text.take(n) == date);
            assert(text.skip(n + 1) == clock_text(time));
            assert(text[n] == ' ');
        }
    } else {
        reveal_strlit("Date[");
        lemma_integer_text(d.days);
        assert(text.take(5) == "Date["@);
        assert(text.subrange(5, text.len() - 1) == int_text(d.days));
    }
}

/// A point in time is exported as its date and, if there is one to export, its time of day, which
/// has a sign before the epoch.
pub proof fn law_exported_dates_read_back(d: SerialView)
    requires
        -96_439_724 <= d.days <= 95_051_805,
    ensures
        is_moment(
            exported(ValueView::DateTime(d)),
            serial_date(d.days),
            if d.exports_time {
                Some(d.seconds)
            } else {
                None
            },
        ),
{
    let text = exported(ValueView::DateTime(d));
    law_serial_numbers_are_days(d.days);
    let date = date_text(serial_date(d.days));
    let n = date.len() as int;
    law_date_reads_back(serial_date(d.days));
    if d.exports_time {
        law_clock_reads_back(d.seconds);
        assert(text.take(n) == date);
        assert(text.skip(n + 1) == clock_text(d.seconds));
        assert(text[n] == ' ');
    }
}

}
