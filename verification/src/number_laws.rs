//! What holds of numbers in text and of their thousands separators.

use vstd::prelude::*;

use crate::cell::{exported, shown, ValueView};
use crate::text::{
    all_digits, decimal, group_number, group_signed, group_thousands, int_text, trim_start, until,
};

verus! {

broadcast use vstd::string::group_string_axioms;

/// The number that a text of decimal digits stands for.
pub open spec fn natural(s: Seq<char>) -> nat
    decreases s.len(),
{
    if s.len() == 0 {
        0
    } else {
        10 * natural(s.drop_last()) + (s.last() as nat - 48) as nat
    }
}

/// The integer that a decimal text stands for.
pub open spec fn integer(s: Seq<char>) -> int {
    if s.len() > 0 && s[0] == '-' {
        -(natural(s.drop_first()) as int)
    } else {
        natural(s) as int
    }
}

/// Decimal digits are digits, and stand for their number.
pub proof fn lemma_decimal(n: nat)
    ensures
        decimal(n).len() > 0,
        all_digits(decimal(n)),
        natural(decimal(n)) == n,
    decreases n,
{
    if n >= 10 {
        lemma_decimal(n / 10);
        assert(decimal(n).drop_last() == decimal(n / 10));
    } else {
        assert(decimal(n).drop_last() == Seq::<char>::empty());
        assert(natural(decimal(n).drop_last()) == 0);
    }
}

/// Whether a text is an integer in decimal: a minus sign exactly if it is negative, and the digits
/// of its magnitude without needless zeros.
pub open spec fn is_written_integer(text: Seq<char>, number: int) -> bool {
    let digits = if number < 0 {
        text.skip(1)
    } else {
        text
    };
    &&& number < 0 ==> text.len() > 0 && text[0] == '-'
    &&& digits.len() > 0
    &&& all_digits(digits)
    &&& digits.len() > 1 ==> digits[0] != '0'
    &&& natural(digits) == if number < 0 {
        -number
    } else {
        number
    }
}

/// Decimal digits have no needless zeros.
proof fn lemma_decimal_starts(n: nat)
    ensures
        decimal(n).len() > 0,
        n > 0 ==> decimal(n)[0] != '0',
        decimal(n).len() > 1 ==> n > 0,
    decreases n,
{
    if n >= 10 {
        lemma_decimal_starts(n / 10);
        assert(decimal(n)[0] == decimal(n / 10)[0]);
    }
}

/// The decimal text of an integer is that integer in decimal.
pub proof fn lemma_integer_text(i: int)
    ensures
        is_written_integer(int_text(i), i),
{
    let magnitude: nat = if i < 0 {
        (-i) as nat
    } else {
        i as nat
    };
    lemma_decimal(magnitude);
    lemma_decimal_starts(magnitude);
    if i < 0 {
        assert(int_text(i).skip(1) == decimal(magnitude));
    }
}

/// An exported integer reads back as itself.
pub proof fn law_exported_integers_read_back(i: int)
    ensures
        integer(exported(ValueView::Int(i))) == i,
{
    let magnitude: nat = if i < 0 {
        (-i) as nat
    } else {
        i as nat
    };
    lemma_decimal(magnitude);
    if i < 0 {
        assert(int_text(i).drop_first() == decimal(magnitude));
    } else {
        assert(decimal(magnitude)[0] != '-');
    }
}

/// A text without a character.
pub open spec fn without(s: Seq<char>, c: char) -> Seq<char>
    decreases s.len(),
{
    if s.len() == 0 {
        s
    } else if s.last() == c {
        without(s.drop_last(), c)
    } else {
        without(s.drop_last(), c).push(s.last())
    }
}

proof fn lemma_without_joins(a: Seq<char>, b: Seq<char>, c: char)
    ensures
        without(a + b, c) == without(a, c) + without(b, c),
    decreases b.len(),
{
    if b.len() == 0 {
        assert(a + b == a);
    } else {
        lemma_without_joins(a, b.drop_last(), c);
        assert((a + b).drop_last() == a + b.drop_last());
    }
}

proof fn lemma_without_missing(s: Seq<char>, c: char)
    requires
        !s.contains(c),
    ensures
        without(s, c) == s,
    decreases s.len(),
{
    if s.len() > 0 {
        assert(s.contains(s.last()));
        assert forall|k: int| 0 <= k < s.len() - 1 implies s.drop_last()[k] != c by {
            assert(s.contains(s[k]));
        }
        lemma_without_missing(s.drop_last(), c);
        assert(s.drop_last().push(s.last()) == s);
    }
}

proof fn lemma_part_misses(s: Seq<char>, from: int, to: int, c: char)
    requires
        0 <= from <= to <= s.len(),
        !s.contains(c),
    ensures
        !s.subrange(from, to).contains(c),
{
    let part = s.subrange(from, to);
    if part.contains(c) {
        let k = choose|k: int| 0 <= k < part.len() && part[k] == c;
        assert(s[from + k] == c);
    }
}

/// Separators are all that grouping adds.
proof fn lemma_grouping_adds_commas(s: Seq<char>)
    requires
        !s.contains(','),
    ensures
        without(group_thousands(s), ',') == s,
    decreases s.len(),
{
    if s.len() <= 3 {
        lemma_without_missing(s, ',');
    } else {
        let head = s.take(s.len() - 3);
        let tail = s.skip(s.len() - 3);
        lemma_part_misses(s, 0, s.len() - 3, ',');
        lemma_part_misses(s, s.len() - 3, s.len() as int, ',');
        assert(tail == s.subrange(s.len() - 3, s.len() as int));
        assert(head == s.subrange(0, s.len() - 3));
        lemma_grouping_adds_commas(head);
        lemma_without_missing(tail, ',');
        let grouped = group_thousands(head);
        lemma_without_joins(grouped.push(','), tail, ',');
        assert(grouped.push(',').drop_last() == grouped);
        assert(head + tail == s);
    }
}

/// The commas that grouping adds stand before every third character, counted from the right, and
/// nowhere else.
pub proof fn law_commas_stand_before_threes(s: Seq<char>, p: int)
    requires
        !s.contains(','),
        0 <= p < group_thousands(s).len(),
    ensures
        group_thousands(s)[p] == ',' <==> (group_thousands(s).len() - p) % 4 == 0,
    decreases s.len(),
{
    if s.len() <= 3 {
        assert(s.contains(s[p]));
    } else {
        let head = s.take(s.len() - 3);
        let tail = s.skip(s.len() - 3);
        let grouped = group_thousands(head);
        lemma_part_misses(s, 0, s.len() - 3, ',');
        assert(head == s.subrange(0, s.len() - 3));
        if p < grouped.len() {
            law_commas_stand_before_threes(head, p);
        } else if p > grouped.len() {
            assert(group_thousands(s)[p] == s[p - grouped.len() - 1 + s.len() - 3]);
            assert(s.contains(s[p - grouped.len() - 1 + s.len() - 3]));
        }
    }
}

/// Whether a text has no comma, at most one minus sign in front, and at most one point.
pub open spec fn is_plain_number(s: Seq<char>) -> bool {
    &&& !s.contains(',')
    &&& !has_two_signs(s)
    &&& forall|k: int, l: int|
        0 <= k < l < s.len() ==> #[trigger] s[k] != '.' || #[trigger] s[l] != '.'
}

/// Whether a text starts with two minus signs.
pub open spec fn has_two_signs(s: Seq<char>) -> bool {
    s.len() > 1 && s[0] == '-' && s[1] == '-'
}

/// Without its separators a grouped whole number is the number.
pub proof fn lemma_grouped_whole_number(s: Seq<char>)
    requires
        !s.contains(','),
        !has_two_signs(s),
    ensures
        without(group_signed(s), ',') == s,
{
    if s.len() > 0 && s[0] == '-' {
        let digits = s.drop_first();
        assert(trim_start(digits, '-') == digits) by {
            if digits.len() > 0 {
                assert(digits[0] == s[1]);
            }
        }
        assert(trim_start(s, '-') == digits);
        lemma_part_misses(s, 1, s.len() as int, ',');
        assert(digits == s.subrange(1, s.len() as int));
        lemma_grouping_adds_commas(digits);
        lemma_without_joins(seq!['-'], group_thousands(digits), ',');
        assert(!seq!['-'].contains(','));
        lemma_without_missing(seq!['-'], ',');
        assert(seq!['-'] + digits == s);
    } else {
        assert(trim_start(s, '-') == s);
        lemma_grouping_adds_commas(s);
    }
}

/// What stands before the first `c` is the start of the text, up to a `c` or to its end.
pub proof fn lemma_until_is_start(s: Seq<char>, c: char)
    ensures
        until(s, c).len() <= s.len(),
        until(s, c) == s.take(until(s, c).len() as int),
        until(s, c).len() < s.len() ==> s[until(s, c).len() as int] == c,
    decreases s.len(),
{
    if s.len() > 0 && s[0] != c {
        lemma_until_is_start(s.drop_first(), c);
        assert(until(s, c) =~= s.take(until(s, c).len() as int));
    }
}

/// Without its separators a grouped number is the number.
pub proof fn law_grouping_keeps_the_number(s: Seq<char>)
    requires
        is_plain_number(s),
    ensures
        without(group_number(s), ',') == s,
{
    let whole = until(s, '.');
    lemma_until_is_start(s, '.');
    if whole.len() == s.len() {
        lemma_grouped_whole_number(s);
    } else {
        let rest = s.skip(whole.len() as int + 1);
        let fraction = until(rest, '.');
        lemma_until_is_start(rest, '.');
        if fraction.len() < rest.len() {
            assert(s[whole.len() as int] == '.');
            assert(s[whole.len() as int + 1 + fraction.len() as int] == rest[fraction.len() as int]);
        }
        assert(fraction == rest);
        lemma_part_misses(s, 0, whole.len() as int, ',');
        assert(whole == s.subrange(0, whole.len() as int));
        lemma_grouped_whole_number(whole);
        lemma_part_misses(s, whole.len() as int + 1, s.len() as int, ',');
        assert(rest == s.subrange(whole.len() as int + 1, s.len() as int));
        lemma_without_missing(rest, ',');
        let grouped = group_signed(whole);
        lemma_without_joins(grouped.push('.'), rest, ',');
        assert(grouped.push('.').drop_last() == grouped);
        assert(whole.push('.') + rest == s);
    }
}

/// Without its separators, an integer is shown as it is exported.
pub proof fn law_shown_integers_only_add_commas(i: int)
    ensures
        without(shown(ValueView::Int(i)), ',') == exported(ValueView::Int(i)),
{
    let text = int_text(i);
    let magnitude: nat = if i < 0 {
        (-i) as nat
    } else {
        i as nat
    };
    lemma_decimal(magnitude);
    let digits = decimal(magnitude);
    assert(!has_two_signs(text)) by {
        if i < 0 {
            assert(text[1] == digits[0]);
        } else {
            assert('0' <= digits[0]);
        }
    }
    assert(!text.contains(',')) by {
        if text.contains(',') {
            let k = choose|k: int| 0 <= k < text.len() && text[k] == ',';
            if i < 0 && k > 0 {
                assert(text[k] == digits[k - 1]);
            }
        }
    }
    lemma_grouped_whole_number(text);
}

}
