//! Characters, digits and thousands separators.

use vstd::prelude::*;
use vstd::string::StringExecFns;

verus! {

broadcast use vstd::string::group_string_axioms;

/// Appending one character to a `String`: `String::push` keeps what was there and puts the
/// character behind it.
pub assume_specification[ std::string::String::push ](s: &mut std::string::String, c: char)
    ensures
        final(s)@ == old(s)@.push(c),
;

/// The views of a sequence of strings.
pub open spec fn texts(strings: Seq<String>) -> Seq<Seq<char>> {
    Seq::new(strings.len(), |i: int| strings[i]@)
}

/// The character of a decimal digit.
pub open spec fn digit(d: int) -> char {
    (48 + d) as char
}

/// The decimal digits of a natural number, the most significant first.
pub open spec fn decimal(n: nat) -> Seq<char>
    decreases n,
{
    if n < 10 {
        seq![digit(n as int)]
    } else {
        decimal(n / 10).push(digit((n % 10) as int))
    }
}

/// An integer in decimal, with a minus sign if it is negative.
pub open spec fn int_text(i: int) -> Seq<char> {
    if i < 0 {
        seq!['-'] + decimal((-i) as nat)
    } else {
        decimal(i as nat)
    }
}

/// An integer in at least two columns: one digit gets a zero in front of it.
pub open spec fn two_columns(i: int) -> Seq<char> {
    if 0 <= i < 10 {
        seq!['0'] + int_text(i)
    } else {
        int_text(i)
    }
}

/// A comma in front of every group of three characters, counted from the right.
pub open spec fn group_thousands(s: Seq<char>) -> Seq<char>
    decreases s.len(),
{
    if s.len() <= 3 {
        s
    } else {
        group_thousands(s.take(s.len() - 3)).push(',') + s.skip(s.len() - 3)
    }
}

/// A text without the characters `c` at its start.
pub open spec fn trim_start(s: Seq<char>, c: char) -> Seq<char>
    decreases s.len(),
{
    if s.len() > 0 && s[0] == c {
        trim_start(s.drop_first(), c)
    } else {
        s
    }
}

/// What stands before the first `c`, the whole text if there is none.
pub open spec fn until(s: Seq<char>, c: char) -> Seq<char>
    decreases s.len(),
{
    if s.len() == 0 || s[0] == c {
        Seq::empty()
    } else {
        seq![s[0]] + until(s.drop_first(), c)
    }
}

/// A whole number with its digits in groups of three and its sign kept in front.
pub open spec fn group_signed(s: Seq<char>) -> Seq<char> {
    let grouped = group_thousands(trim_start(s, '-'));
    if s.len() > 0 && s[0] == '-' {
        seq!['-'] + grouped
    } else {
        grouped
    }
}

/// A decimal number with the digits before its point in groups of three. What follows the point
/// is kept up to a second point.
pub open spec fn group_number(s: Seq<char>) -> Seq<char> {
    let whole = until(s, '.');
    if whole.len() == s.len() {
        group_signed(s)
    } else {
        group_signed(whole).push('.') + until(s.skip(whole.len() as int + 1), '.')
    }
}

/// Whether a text has only decimal digits.
pub open spec fn all_digits(s: Seq<char>) -> bool {
    forall|k: int| 0 <= k < s.len() ==> '0' <= #[trigger] s[k] && s[k] <= '9'
}

/// A text without a minus sign in front of it.
pub open spec fn without_sign(s: Seq<char>) -> Seq<char> {
    if s.len() > 0 && s[0] == '-' {
        s.drop_first()
    } else {
        s
    }
}

/// How many decimal places a text has, if it is a decimal number: digits, with at most one minus
/// sign in front, and behind a point the decimal places, if it has any.
pub open spec fn decimal_places(s: Seq<char>) -> Option<nat> {
    let number = without_sign(s);
    let whole = until(number, '.');
    let places = number.skip(whole.len() as int + 1);
    if whole.len() == 0 || !all_digits(whole) {
        None
    } else if whole.len() == number.len() {
        Some(0)
    } else if places.len() == 0 || !all_digits(places) {
        None
    } else {
        Some(places.len())
    }
}

/// The characters of a text.
pub fn chars_of(s: &str) -> (chars: Vec<char>)
    ensures
        chars@ == s@,
{
    let mut chars: Vec<char> = Vec::new();
    for c in it: s.chars()
        invariant
            it.seq() == s@,
            chars@ == s@.take(it.index() as int),
    {
        chars.push(c);
    }
    chars
}

/// Appends `chars[start..end]` to `out`.
pub fn push_chars(out: &mut String, chars: &[char], start: usize, end: usize)
    requires
        start <= end <= chars@.len(),
    ensures
        final(out)@ == old(out)@ + chars@.subrange(start as int, end as int),
{
    let mut k: usize = start;
    while k < end
        invariant
            start <= k <= end <= chars@.len(),
            out@ == old(out)@ + chars@.subrange(start as int, k as int),
        decreases end - k,
    {
        out.push(chars[k]);
        k += 1;
    }
}

/// Appends the decimal digits of `n` to `out`.
pub fn push_decimal(out: &mut String, n: u128)
    ensures
        final(out)@ == old(out)@ + decimal(n as nat),
    decreases n,
{
    if n >= 10 {
        push_decimal(out, n / 10);
    }
    let d: u8 = (n % 10) as u8;
    out.push((48u8 + d) as char);
}

/// Appends an integer in decimal to `out`.
pub fn push_int(out: &mut String, i: i64)
    ensures
        final(out)@ == old(out)@ + int_text(i as int),
{
    let wide: i128 = i as i128;
    if wide < 0 {
        out.push('-');
        push_decimal(out, (-wide) as u128);
    } else {
        push_decimal(out, wide as u128);
    }
}

/// Appends an integer in at least two columns to `out`.
pub fn push_two_columns(out: &mut String, i: i64)
    ensures
        final(out)@ == old(out)@ + two_columns(i as int),
{
    if 0 <= i && i < 10 {
        out.push('0');
    }
    push_int(out, i);
}

/// What stands before the first `c`, found by position.
proof fn lemma_until(s: Seq<char>, c: char, end: int)
    requires
        0 <= end <= s.len(),
        forall|k: int| 0 <= k < end ==> s[k] != c,
        end < s.len() ==> s[end] == c,
    ensures
        until(s, c) == s.take(end),
    decreases s.len(),
{
    if end > 0 {
        lemma_until(s.drop_first(), c, end - 1);
        assert(s.take(end) == seq![s[0]] + s.drop_first().take(end - 1));
    }
}

/// The position of the first `c` in `chars` from `start` on, or the length of `chars`.
pub fn find_char(chars: &[char], start: usize, c: char) -> (end: usize)
    requires
        start <= chars@.len(),
    ensures
        start <= end <= chars@.len(),
        end < chars@.len() ==> chars@[end as int] == c,
        until(chars@.skip(start as int), c) == chars@.subrange(start as int, end as int),
{
    let mut end: usize = start;
    while end < chars.len() && chars[end] != c
        invariant
            start <= end <= chars@.len(),
            forall|k: int| start <= k < end ==> chars@[k] != c,
        decreases chars@.len() - end,
    {
        end += 1;
    }
    proof {
        let tail = chars@.skip(start as int);
        lemma_until(tail, c, end - start);
        assert(tail.take(end - start) == chars@.subrange(start as int, end as int));
    }
    end
}

/// A text without the characters `c` at its start, found by position.
proof fn lemma_trim_start(s: Seq<char>, c: char, start: int)
    requires
        0 <= start <= s.len(),
        forall|k: int| 0 <= k < start ==> s[k] == c,
        start < s.len() ==> s[start] != c,
    ensures
        trim_start(s, c) == s.skip(start),
    decreases s.len(),
{
    if start > 0 {
        lemma_trim_start(s.drop_first(), c, start - 1);
        assert(s.drop_first().skip(start - 1) == s.skip(start));
    } else {
        assert(s.skip(0) == s);
    }
}

/// The position of the first character of `chars[start..end]` that is not `c`, or `end`.
pub fn skip_char(chars: &[char], start: usize, end: usize, c: char) -> (first: usize)
    requires
        start <= end <= chars@.len(),
    ensures
        start <= first <= end,
        trim_start(chars@.subrange(start as int, end as int), c) == chars@.subrange(
            first as int,
            end as int,
        ),
{
    let mut first: usize = start;
    while first < end && chars[first] == c
        invariant
            start <= first <= end <= chars@.len(),
            forall|k: int| start <= k < first ==> chars@[k] == c,
        decreases end - first,
    {
        first += 1;
    }
    proof {
        let part = chars@.subrange(start as int, end as int);
        lemma_trim_start(part, c, first - start);
        assert(part.skip(first - start) == chars@.subrange(first as int, end as int));
    }
    first
}

/// Appends `chars[start..end]` to `out` with a comma in front of every group of three.
pub fn push_grouped(out: &mut String, chars: &[char], start: usize, end: usize)
    requires
        start <= end <= chars@.len(),
    ensures
        final(out)@ == old(out)@ + group_thousands(chars@.subrange(start as int, end as int)),
{
    let ghost before = out@;
    let rest: usize = (end - start) % 3;
    let first: usize = if end - start <= 3 {
        end - start
    } else if rest == 0 {
        3
    } else {
        rest
    };
    let mut k: usize = start + first;
    push_chars(out, chars, start, k);
    while k < end
        invariant
            start <= k <= end <= chars@.len(),
            (end - k) % 3 == 0,
            k < end ==> k > start,
            out@ == before + group_thousands(chars@.subrange(start as int, k as int)),
        decreases end - k,
    {
        out.push(',');
        push_chars(out, chars, k, k + 3);
        proof {
            let next = chars@.subrange(start as int, k + 3);
            assert(next.take(next.len() - 3) == chars@.subrange(start as int, k as int));
            assert(next.skip(next.len() - 3) == chars@.subrange(k as int, k + 3));
        }
        k += 3;
    }
}

/// Appends the whole number `chars[start..end]` to `out` with its digits in groups of three.
pub fn push_group_signed(out: &mut String, chars: &[char], start: usize, end: usize)
    requires
        start <= end <= chars@.len(),
    ensures
        final(out)@ == old(out)@ + group_signed(chars@.subrange(start as int, end as int)),
{
    let negative = start < end && chars[start] == '-';
    let first: usize = skip_char(chars, start, end, '-');
    if negative {
        out.push('-');
    }
    push_grouped(out, chars, first, end);
}

/// Appends the decimal number `s` to `out` with the digits before its point in groups of three.
pub fn push_group_number(out: &mut String, s: &str)
    ensures
        final(out)@ == old(out)@ + group_number(s@),
{
    let chars: Vec<char> = chars_of(s);
    let dot: usize = find_char(chars.as_slice(), 0, '.');
    assert(s@.skip(0) == s@);
    push_group_signed(out, chars.as_slice(), 0, dot);
    if dot < chars.len() {
        out.push('.');
        let end: usize = find_char(chars.as_slice(), dot + 1, '.');
        push_chars(out, chars.as_slice(), dot + 1, end);
    } else {
        assert(s@.subrange(0, dot as int) == s@);
    }
}

/// Whether a text holds the character `c`.
pub fn contains_char(s: &str, c: char) -> (found: bool)
    ensures
        found == s@.contains(c),
{
    let chars: Vec<char> = chars_of(s);
    let at: usize = find_char(chars.as_slice(), 0, c);
    proof {
        assert(s@.skip(0) == s@);
        if at == s@.len() && s@.contains(c) {
            lemma_until_misses(s@, c);
            assert(s@.subrange(0, at as int) == s@);
        }
    }
    at < chars.len()
}

/// Whether `chars[start..end]` are all digits.
pub fn are_digits(chars: &[char], start: usize, end: usize) -> (are: bool)
    requires
        start <= end <= chars@.len(),
    ensures
        are == all_digits(chars@.subrange(start as int, end as int)),
{
    let ghost part = chars@.subrange(start as int, end as int);
    let mut k: usize = start;
    while k < end
        invariant
            start <= k <= end <= chars@.len(),
            part == chars@.subrange(start as int, end as int),
            forall|j: int| 0 <= j < k - start ==> '0' <= #[trigger] part[j] && part[j] <= '9',
        decreases end - k,
    {
        assert(part[k - start] == chars@[k as int]);
        if chars[k] < '0' || chars[k] > '9' {
            return false;
        }
        k += 1;
    }
    true
}

/// How many decimal places a text has, if it is a decimal number.
pub fn count_decimal_places(s: &str) -> (count: Option<usize>)
    ensures
        match count {
            Some(count) => decimal_places(s@) == Some(count as nat),
            None => decimal_places(s@) is None,
        },
{
    let chars: Vec<char> = chars_of(s);
    let start: usize = if chars.len() > 0 && chars[0] == '-' {
        1
    } else {
        0
    };
    let end: usize = find_char(chars.as_slice(), start, '.');
    let ghost number = without_sign(s@);
    proof {
        assert(number == s@.skip(start as int));
        assert(s@.subrange(start as int, end as int).len() == end - start);
        if end < s@.len() {
            assert(number.skip(end - start + 1) == s@.subrange(end + 1, s@.len() as int));
        }
    }
    if start == end || !are_digits(chars.as_slice(), start, end) {
        None
    } else if end == chars.len() {
        Some(0)
    } else if end + 1 == chars.len() || !are_digits(chars.as_slice(), end + 1, chars.len()) {
        None
    } else {
        Some(chars.len() - end - 1)
    }
}

/// What stands before the first `c` holds no `c`.
pub proof fn lemma_until_misses(s: Seq<char>, c: char)
    ensures
        !until(s, c).contains(c),
    decreases s.len(),
{
    if s.len() > 0 && s[0] != c {
        lemma_until_misses(s.drop_first(), c);
        let tail = until(s.drop_first(), c);
        assert forall|k: int| 0 <= k < until(s, c).len() implies until(s, c)[k] != c by {
            if k > 0 {
                assert(until(s, c)[k] == tail[k - 1]);
            }
        }
    }
}

/// Whether two texts hold the same characters.
pub fn same_text(a: &str, b: &str) -> (same: bool)
    ensures
        same == (a@ == b@),
{
    let left: Vec<char> = chars_of(a);
    let right: Vec<char> = chars_of(b);
    if left.len() != right.len() {
        return false;
    }
    let mut k: usize = 0;
    while k < left.len()
        invariant
            k <= left@.len() == right@.len(),
            left@.take(k as int) == right@.take(k as int),
            left@ == a@,
            right@ == b@,
        decreases left@.len() - k,
    {
        if left[k] != right[k] {
            return false;
        }
        assert(left@.take(k + 1) == left@.take(k as int).push(left@[k as int]));
        assert(right@.take(k + 1) == right@.take(k as int).push(right@[k as int]));
        k += 1;
    }
    assert(left@.take(k as int) == left@);
    assert(right@.take(k as int) == right@);
    true
}

/// A letter from A to Z in lower case, every other character as it is.
pub open spec fn lower(c: char) -> char {
    if 'A' <= c && c <= 'Z' {
        (c as u8 + 32) as char
    } else {
        c
    }
}

/// Whether two texts differ at most in the case of letters from A to Z.
pub open spec fn same_but_for_case(a: Seq<char>, b: Seq<char>) -> bool {
    a.len() == b.len() && forall|i: int| 0 <= i < a.len() ==> lower(#[trigger] a[i]) == lower(b[i])
}

/// A letter from A to Z in lower case, every other character as it is.
fn to_lower(c: char) -> (result: char)
    ensures
        result == lower(c),
{
    if 'A' <= c && c <= 'Z' {
        (c as u8 + 32) as char
    } else {
        c
    }
}

/// Whether two texts differ at most in the case of letters from A to Z.
pub fn same_text_but_for_case(a: &str, b: &str) -> (same: bool)
    ensures
        same == same_but_for_case(a@, b@),
{
    let left: Vec<char> = chars_of(a);
    let right: Vec<char> = chars_of(b);
    if left.len() != right.len() {
        return false;
    }
    let mut k: usize = 0;
    while k < left.len()
        invariant
            k <= left@.len() == right@.len(),
            forall|i: int| 0 <= i < k ==> lower(#[trigger] left@[i]) == lower(right@[i]),
            left@ == a@,
            right@ == b@,
        decreases left@.len() - k,
    {
        if to_lower(left[k]) != to_lower(right[k]) {
            assert(lower(a@[k as int]) != lower(b@[k as int]));
            return false;
        }
        k += 1;
    }
    true
}

}
