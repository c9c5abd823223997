//! What holds of dates and times as they are shown.

use vstd::prelude::*;

use crate::calendar::{
    clock_text, date_text, law_supported_days_have_dates, lemma_dates_in_order, quotient,
    remainder, serial_date, serial_day, serial_is_date, year_text, CivilDate,
};
use crate::cell::{exported_time, shown_time, SerialView};
use crate::text::{decimal, digit, two_columns};

verus! {

/// Whether two texts agree before position `k`, and the first ends there or has the lesser
/// character.
pub open spec fn parts_at(s: Seq<char>, t: Seq<char>, k: int) -> bool {
    &&& 0 <= k <= s.len()
    &&& k < t.len()
    &&& s.take(k) == t.take(k)
    &&& k == s.len() || (s[k] as u32) < (t[k] as u32)
}

/// Whether a text sorts before another, character by character.
pub open spec fn precedes(s: Seq<char>, t: Seq<char>) -> bool {
    exists|k: int| parts_at(s, t, k)
}

/// Whether the date with this serial number has a year of four digits.
pub open spec fn has_plain_year(serial: int) -> bool {
    &&& serial_is_date(serial)
    &&& 0 <= serial_date(serial).year <= 9999
}

/// Texts of one length keep their order behind the same text, whatever follows them.
proof fn lemma_order_is_kept(
    front: Seq<char>,
    s: Seq<char>,
    t: Seq<char>,
    behind_s: Seq<char>,
    behind_t: Seq<char>,
)
    requires
        s.len() == t.len(),
        precedes(s, t),
    ensures
        precedes(front + s + behind_s, front + t + behind_t),
{
    let k = choose|k: int| parts_at(s, t, k);
    let a = front + s + behind_s;
    let b = front + t + behind_t;
    let at = front.len() + k;
    assert forall|i: int| 0 <= i < at implies a[i] == b[i] by {
        if i >= front.len() {
            assert(s.take(k)[i - front.len()] == t.take(k)[i - front.len()]);
        }
    }
    assert(a.take(at) == b.take(at));
    assert(parts_at(a, b, at));
}

/// A text sorts before itself with something behind it.
proof fn lemma_prefix_precedes(s: Seq<char>, behind: Seq<char>)
    requires
        behind.len() > 0,
    ensures
        precedes(s, s + behind),
{
    assert(s.take(s.len() as int) == (s + behind).take(s.len() as int));
    assert(parts_at(s, s + behind, s.len() as int));
}

/// Numbers in two columns sort as they count.
proof fn lemma_columns_in_order(m: int, n: int)
    requires
        0 <= m <= 99,
        0 <= n <= 99,
    ensures
        two_columns(m).len() == 2,
        two_columns(n).len() == 2,
        m < n ==> precedes(two_columns(m), two_columns(n)),
{
    reveal_with_fuel(decimal, 2);
    assert(two_columns(m) == seq![digit(m / 10), digit(m % 10)]);
    assert(two_columns(n) == seq![digit(n / 10), digit(n % 10)]);
    if m < n {
        let k: int = if m / 10 < n / 10 {
            0
        } else {
            1
        };
        assert(two_columns(m).take(k) == two_columns(n).take(k));
        assert(parts_at(two_columns(m), two_columns(n), k));
    }
}

/// A year of four digits is written as two numbers in two columns.
proof fn lemma_year_digits(n: int)
    requires
        0 <= n <= 9999,
    ensures
        year_text(n) == two_columns(n / 100) + two_columns(n % 100),
        year_text(n).len() == 4,
{
    reveal_with_fuel(decimal, 4);
    assert(year_text(n) == seq![
        digit(n / 1000),
        digit(n / 100 % 10),
        digit(n / 10 % 10),
        digit(n % 10),
    ]);
}

/// Years of four digits sort as they count.
proof fn lemma_years_sort(m: int, n: int)
    requires
        0 <= m < n <= 9999,
    ensures
        precedes(year_text(m), year_text(n)),
{
    let none = Seq::<char>::empty();
    lemma_year_digits(m);
    lemma_year_digits(n);
    lemma_columns_in_order(m / 100, n / 100);
    lemma_columns_in_order(m % 100, n % 100);
    let (first_m, last_m) = (two_columns(m / 100), two_columns(m % 100));
    let (first_n, last_n) = (two_columns(n / 100), two_columns(n % 100));
    if m / 100 < n / 100 {
        lemma_order_is_kept(none, first_m, first_n, last_m, last_n);
        assert(year_text(m) == none + first_m + last_m);
        assert(year_text(n) == none + first_n + last_n);
    } else {
        lemma_order_is_kept(first_m, last_m, last_n, none, none);
        assert(year_text(m) == first_m + last_m + none);
        assert(year_text(n) == first_n + last_n + none);
    }
}

/// Dates with years of four digits sort as they follow each other.
proof fn lemma_dates_sort(a: CivilDate, b: CivilDate)
    requires
        a.valid(),
        b.valid(),
        0 <= a.year <= 9999,
        0 <= b.year <= 9999,
    ensures
        date_text(a).len() == date_text(b).len(),
        a.day_number() < b.day_number() ==> precedes(date_text(a), date_text(b)),
{
    let none = Seq::<char>::empty();
    lemma_year_digits(a.year as int);
    lemma_year_digits(b.year as int);
    lemma_columns_in_order(a.month as int, b.month as int);
    lemma_columns_in_order(a.day as int, b.day as int);
    let (year_a, month_a, day_a) = (
        year_text(a.year as int),
        two_columns(a.month as int),
        two_columns(a.day as int),
    );
    let (year_b, month_b, day_b) = (
        year_text(b.year as int),
        two_columns(b.month as int),
        two_columns(b.day as int),
    );
    if a.day_number() < b.day_number() {
        if b.year < a.year || b.year == a.year && (b.month < a.month || b.month == a.month && b.day
            < a.day) {
            lemma_dates_in_order(b, a);
        }
        if a.year < b.year {
            lemma_years_sort(a.year as int, b.year as int);
            let behind_a = seq!['-'] + month_a.push('-') + day_a;
            let behind_b = seq!['-'] + month_b.push('-') + day_b;
            lemma_order_is_kept(none, year_a, year_b, behind_a, behind_b);
            assert(date_text(a) == none + year_a + behind_a);
            assert(date_text(b) == none + year_b + behind_b);
        } else if a.month < b.month {
            let behind_a = seq!['-'] + day_a;
            let behind_b = seq!['-'] + day_b;
            lemma_order_is_kept(year_a.push('-'), month_a, month_b, behind_a, behind_b);
            assert(date_text(a) == year_a.push('-') + month_a + behind_a);
            assert(date_text(b) == year_b.push('-') + month_b + behind_b);
        } else {
            let front = year_a.push('-') + month_a.push('-');
            lemma_order_is_kept(front, day_a, day_b, none, none);
            assert(date_text(a) == front + day_a + none);
            assert(date_text(b) == front + day_b + none);
        }
    }
}

/// Dates sort as their serial numbers do, shown or exported, with a time of day or without, as
/// long as their years have four digits. The one exception is the pair of numbers that stand for
/// the same day.
pub proof fn law_dates_sort_as_serial_numbers(a: SerialView, b: SerialView)
    requires
        has_plain_year(a.days),
        has_plain_year(b.days),
        a.days < b.days,
    ensures
        if a.days == 60 && b.days == 61 {
            serial_date(a.days) == serial_date(b.days)
        } else {
            &&& precedes(shown_time(a), shown_time(b))
            &&& precedes(exported_time(a), exported_time(b))
        },
{
    if !(a.days == 60 && b.days == 61) {
        law_supported_days_have_dates(serial_day(a.days));
        law_supported_days_have_dates(serial_day(b.days));
        let date_a = date_text(serial_date(a.days));
        let date_b = date_text(serial_date(b.days));
        lemma_dates_sort(serial_date(a.days), serial_date(b.days));
        let none = Seq::<char>::empty();
        let shown_a = shown_time(a).skip(date_a.len() as int);
        let shown_b = shown_time(b).skip(date_b.len() as int);
        lemma_order_is_kept(none, date_a, date_b, shown_a, shown_b);
        assert(shown_time(a) == none + date_a + shown_a);
        assert(shown_time(b) == none + date_b + shown_b);
        let exported_a = exported_time(a).skip(date_a.len() as int);
        let exported_b = exported_time(b).skip(date_b.len() as int);
        lemma_order_is_kept(none, date_a, date_b, exported_a, exported_b);
        assert(exported_time(a) == none + date_a + exported_a);
        assert(exported_time(b) == none + date_b + exported_b);
    }
}

/// The hours, minutes and seconds of a time of day add up to it, and there are less than 60
/// minutes and less than 60 seconds, all with the sign of the whole.
pub proof fn law_clock_adds_up(seconds: int)
    ensures
        ({
            let h = quotient(seconds, 3600);
            let m = quotient(remainder(seconds, 3600), 60);
            let s = remainder(seconds, 60);
            &&& 3600 * h + 60 * m + s == seconds
            &&& -60 < m < 60
            &&& -60 < s < 60
            &&& seconds >= 0 ==> h >= 0 && m >= 0 && s >= 0
            &&& seconds <= 0 ==> h <= 0 && m <= 0 && s <= 0
        }),
{
    let size = if seconds < 0 {
        -seconds
    } else {
        seconds
    };
    let h = size / 3600;
    let m = (size - 3600 * h) / 60;
    let s = size - 3600 * h - 60 * m;
    assert(0 <= s < 60);
    assert(size == 60 * (60 * h + m) + s);
    assert(size / 60 == 60 * h + m);
}

/// Times of day sort as they pass.
proof fn lemma_clocks_sort(a: int, b: int)
    requires
        0 <= a < b <= 86400,
    ensures
        clock_text(a).len() == clock_text(b).len(),
        precedes(clock_text(a), clock_text(b)),
{
    let none = Seq::<char>::empty();
    law_clock_adds_up(a);
    law_clock_adds_up(b);
    let (hour_a, minute_a, second_a) = (
        quotient(a, 3600),
        quotient(remainder(a, 3600), 60),
        remainder(a, 60),
    );
    let (hour_b, minute_b, second_b) = (
        quotient(b, 3600),
        quotient(remainder(b, 3600), 60),
        remainder(b, 60),
    );
    lemma_columns_in_order(hour_a, hour_b);
    lemma_columns_in_order(minute_a, minute_b);
    lemma_columns_in_order(second_a, second_b);
    let (h_a, m_a, s_a) = (two_columns(hour_a), two_columns(minute_a), two_columns(second_a));
    let (h_b, m_b, s_b) = (two_columns(hour_b), two_columns(minute_b), two_columns(second_b));
    if hour_a < hour_b {
        let behind_a = seq![':'] + m_a.push(':') + s_a;
        let behind_b = seq![':'] + m_b.push(':') + s_b;
        lemma_order_is_kept(none, h_a, h_b, behind_a, behind_b);
        assert(clock_text(a) == none + h_a + behind_a);
        assert(clock_text(b) == none + h_b + behind_b);
    } else if minute_a < minute_b {
        let behind_a = seq![':'] + s_a;
        let behind_b = seq![':'] + s_b;
        lemma_order_is_kept(h_a.push(':'), m_a, m_b, behind_a, behind_b);
        assert(clock_text(a) == h_a.push(':') + m_a + behind_a);
        assert(clock_text(b) == h_b.push(':') + m_b + behind_b);
    } else {
        let front = h_a.push(':') + m_a.push(':');
        lemma_order_is_kept(front, s_a, s_b, none, none);
        assert(clock_text(a) == front + s_a + none);
        assert(clock_text(b) == front + s_b + none);
    }
}

/// Within a day, what is shown sorts as the time of day passes, and a date without a time of day
/// comes first.
pub proof fn law_times_sort_within_a_day(a: SerialView, b: SerialView)
    requires
        serial_is_date(a.days),
        serial_day(a.days) == serial_day(b.days),
        b.shows_time,
        a.shows_time ==> 0 <= a.seconds < b.seconds <= 86400,
    ensures
        precedes(shown_time(a), shown_time(b)),
{
    let date = date_text(serial_date(a.days));
    if a.shows_time {
        let none = Seq::<char>::empty();
        let front = date.push(' ');
        lemma_clocks_sort(a.seconds, b.seconds);
        lemma_order_is_kept(front, clock_text(a.seconds), clock_text(b.seconds), none, none);
        assert(shown_time(a) == front + clock_text(a.seconds) + none);
        assert(shown_time(b) == front + clock_text(b.seconds) + none);
    } else {
        let behind = shown_time(b).skip(date.len() as int);
        assert(shown_time(b) == date + behind);
        lemma_prefix_precedes(date, behind);
    }
}

}
