//! How CSV texts can be put together and written otherwise, and what is then read from them.

use vstd::prelude::*;

use crate::csv::{
    after_return, csv_records, ends_record, prepend_all, records_from, without_marks,
};
use crate::csv_laws::{law_readable_text_has_records, lemma_shift};
use crate::csv_writing::is_line_end;

verus! {

/// What `s` holds from position `i` on, with the line end `end` in place of every `"\n"`, `"\r"`
/// and `"\r\n"` that ends a record. `quoted` says whether `i` stands between quotes, and `blank`
/// whether the current field is empty so far.
pub open spec fn with_ends_from(
    s: Seq<char>,
    i: int,
    quoted: bool,
    blank: bool,
    end: Seq<char>,
) -> Seq<char>
    decreases s.len() - i,
{
    if i >= s.len() {
        Seq::empty()
    } else if quoted {
        if s[i] != '"' {
            seq![s[i]] + with_ends_from(s, i + 1, true, false, end)
        } else if i + 1 < s.len() && s[i + 1] == '"' {
            seq!['"', '"'] + with_ends_from(s, i + 2, true, false, end)
        } else {
            seq!['"'] + with_ends_from(s, i + 1, false, blank, end)
        }
    } else if s[i] == '"' && blank {
        seq!['"'] + with_ends_from(s, i + 1, true, blank, end)
    } else if s[i] == ',' {
        seq![','] + with_ends_from(s, i + 1, false, true, end)
    } else if s[i] == '\n' {
        end + with_ends_from(s, i + 1, false, true, end)
    } else if s[i] == '\r' {
        end + with_ends_from(s, after_return(s, i), false, true, end)
    } else {
        seq![s[i]] + with_ends_from(s, i + 1, false, false, end)
    }
}

/// A CSV text with the line end `end` behind its records. Line ends between quotes stay.
pub open spec fn with_ends(s: Seq<char>, end: Seq<char>) -> Seq<char> {
    with_ends_from(s, 0, false, true, end)
}

/// A piece of a text at position `j`, and what follows it.
proof fn lemma_piece(t: Seq<char>, j: int, piece: Seq<char>, next: Seq<char>)
    requires
        0 <= j <= t.len(),
        t.skip(j) == piece + next,
        piece.len() > 0,
    ensures
        t.len() == j + piece.len() + next.len(),
        t.skip(j + piece.len()) == next,
        t[j] == piece[0],
        piece.len() > 1 ==> t[j + 1] == piece[1],
        piece.len() == 1 && next.len() > 0 ==> t[j + 1] == next[0],
        next.len() == 0 ==> t.last() == piece.last(),
{
    let rest = t.skip(j);
    assert(rest.len() == t.len() - j);
    assert(t[j] == rest[0]);
    if rest.len() > 1 {
        assert(t[j + 1] == rest[1]);
    }
    assert(t.skip(j + piece.len()) == rest.skip(piece.len() as int));
    assert(rest.skip(piece.len() as int) == next);
    assert(t.last() == rest.last());
}

/// What stands behind a line end or a quote that closes a field is no line feed, unless that is
/// how line ends are written, and no quote, unless one stood there.
proof fn lemma_first_behind(s: Seq<char>, i: int, blank: bool, end: Seq<char>)
    requires
        0 <= i < s.len(),
        is_line_end(end),
    ensures
        ({
            let text = with_ends_from(s, i, false, blank, end);
            &&& text.len() > 0
            &&& end == seq!['\r'] ==> text[0] != '\n'
            &&& s[i] != '"' ==> text[0] != '"'
        }),
{
}

/// Other line ends change nothing of what is read from a position on.
proof fn lemma_ends(
    s: Seq<char>,
    i: int,
    t: Seq<char>,
    j: int,
    quoted: bool,
    field: Seq<char>,
    row: Seq<Seq<char>>,
    end: Seq<char>,
)
    requires
        0 <= i,
        0 <= j <= t.len(),
        is_line_end(end),
        t.skip(j) == with_ends_from(s, i, quoted, field.len() == 0, end),
        i >= s.len() && !quoted && field.len() == 0 && row.len() == 0 ==> ends_record(s)
            == ends_record(t),
    ensures
        records_from(t, j, quoted, field, row) == records_from(s, i, quoted, field, row),
    decreases s.len() - i,
{
    let none = Seq::<Seq<char>>::empty();
    let blank = field.len() == 0;
    if i >= s.len() {
        assert(t.skip(j).len() == 0);
    } else if quoted {
        if s[i] != '"' {
            lemma_piece(t, j, seq![s[i]], with_ends_from(s, i + 1, true, false, end));
            lemma_ends(s, i + 1, t, j + 1, true, field.push(s[i]), row, end);
        } else if i + 1 < s.len() && s[i + 1] == '"' {
            lemma_piece(t, j, seq!['"', '"'], with_ends_from(s, i + 2, true, false, end));
            lemma_ends(s, i + 2, t, j + 2, true, field.push('"'), row, end);
        } else {
            lemma_piece(t, j, seq!['"'], with_ends_from(s, i + 1, false, blank, end));
            if i + 1 < s.len() {
                lemma_first_behind(s, i + 1, blank, end);
            }
            lemma_ends(s, i + 1, t, j + 1, false, field, row, end);
        }
    } else if s[i] == '"' && blank {
        lemma_piece(t, j, seq!['"'], with_ends_from(s, i + 1, true, blank, end));
        lemma_ends(s, i + 1, t, j + 1, true, field, row, end);
    } else if s[i] == ',' {
        lemma_piece(t, j, seq![','], with_ends_from(s, i + 1, false, true, end));
        lemma_ends(s, i + 1, t, j + 1, false, Seq::empty(), row.push(field), end);
    } else if s[i] == '\n' || s[i] == '\r' {
        let at = if s[i] == '\n' {
            i + 1
        } else {
            after_return(s, i)
        };
        lemma_piece(t, j, end, with_ends_from(s, at, false, true, end));
        if at < s.len() {
            lemma_first_behind(s, at, true, end);
        }
        lemma_ends(s, at, t, j + end.len(), false, Seq::empty(), none, end);
    } else {
        lemma_piece(t, j, seq![s[i]], with_ends_from(s, i + 1, false, false, end));
        lemma_ends(s, i + 1, t, j + 1, false, field.push(s[i]), row, end);
    }
}

/// The three line ends read alike: whichever of them ends the records of a text, the same is read
/// from it, and a text that cannot be read stays so.
pub proof fn law_line_ends_read_alike(s: Seq<char>, end: Seq<char>)
    requires
        is_line_end(end),
    ensures
        csv_records(with_ends(s, end)) == csv_records(s),
{
    let t = with_ends(s, end);
    assert(t.skip(0) == t);
    if s.len() > 0 {
        assert(t.len() > 0);
        lemma_ends(s, 0, t, 0, false, Seq::empty(), Seq::empty(), end);
    }
}

/// The records of a CSV text with its byte order marks.
pub open spec fn marked_records(s: Seq<char>) -> Option<Seq<Seq<Seq<char>>>> {
    if s.len() == 0 {
        Some(Seq::empty())
    } else {
        records_from(s, 0, false, Seq::empty(), Seq::empty())
    }
}

/// Whether the text `a` ends a record of `a + b` where `a` ends.
pub open spec fn ends_before(a: Seq<char>, b: Seq<char>) -> bool {
    &&& ends_record(a)
    &&& b.len() > 0 && b[0] == '\n' ==> a.last() == '\n'
}

/// What is read of a text that ends a record, and then of the text behind it.
proof fn lemma_join(
    a: Seq<char>,
    b: Seq<char>,
    i: int,
    quoted: bool,
    field: Seq<char>,
    row: Seq<Seq<char>>,
)
    requires
        0 <= i <= a.len(),
        ends_before(a, b),
        b.len() > 0,
        i == a.len() ==> quoted || field.len() == 0 && row.len() == 0,
    ensures
        records_from(a, i, quoted, field, row) matches Some(first) ==> records_from(
            a + b,
            i,
            quoted,
            field,
            row,
        ) == prepend_all(first, marked_records(b)),
    decreases a.len() - i,
{
    let none = Seq::<Seq<char>>::empty();
    let t = a + b;
    if i == a.len() {
        if !quoted {
            lemma_shift(a, b, 0, false, field, row);
            assert(field == Seq::<char>::empty());
            assert(row == none);
            if let Some(more) = marked_records(b) {
                assert(Seq::<Seq<Seq<char>>>::empty() + more == more);
            }
        }
    } else {
        assert(t[i] == a[i]);
        if i + 1 < t.len() {
            assert(t[i + 1] == if i + 1 < a.len() {
                a[i + 1]
            } else {
                b[0]
            });
        }
        if quoted {
            if a[i] != '"' {
                lemma_join(a, b, i + 1, true, field.push(a[i]), row);
            } else if i + 1 < a.len() && a[i + 1] == '"' {
                lemma_join(a, b, i + 2, true, field.push('"'), row);
            } else {
                lemma_join(a, b, i + 1, false, field, row);
            }
        } else if a[i] == '"' && field.len() == 0 {
            lemma_join(a, b, i + 1, true, field, row);
        } else if a[i] == ',' {
            lemma_join(a, b, i + 1, false, Seq::empty(), row.push(field));
        } else if a[i] == '\n' || a[i] == '\r' {
            let next = if a[i] == '\n' {
                i + 1
            } else {
                after_return(a, i)
            };
            lemma_join(a, b, next, false, Seq::empty(), none);
            if let Some(first) = records_from(a, next, false, Seq::empty(), none) {
                if let Some(more) = marked_records(b) {
                    let record = row.push(field);
                    assert(seq![record] + (first + more) == (seq![record] + first) + more);
                }
            }
        } else {
            lemma_join(a, b, i + 1, false, field.push(a[i]), row);
        }
    }
}

/// A text behind another that ends with a line end adds its records to those of the other, and
/// makes it unreadable if it is so itself. Byte order marks are left out only at the very start.
pub proof fn law_texts_join(a: Seq<char>, b: Seq<char>)
    requires
        ends_before(a, b),
        csv_records(a) is Some,
    ensures
        csv_records(a + b) == prepend_all(csv_records(a)->0, marked_records(b)),
        marked_records(b) matches Some(more) ==> without_marks(more) == more ==> csv_records(a + b)
            == prepend_all(csv_records(a)->0, csv_records(b)),
        marked_records(b) is None <==> csv_records(b) is None,
{
    law_readable_text_has_records(a);
    let first = records_from(a, 0, false, Seq::empty(), Seq::empty())->0;
    if b.len() == 0 {
        assert(a + b == a);
        assert(csv_records(a)->0 + Seq::<Seq<Seq<char>>>::empty() == csv_records(a)->0);
    } else {
        lemma_join(a, b, 0, false, Seq::empty(), Seq::empty());
        if let Some(more) = marked_records(b) {
            assert(without_marks(first + more) == without_marks(first) + more);
        }
    }
}

/// A quote behind a text that cannot be read from a position on makes it readable.
proof fn lemma_closed(
    s: Seq<char>,
    i: int,
    quoted: bool,
    field: Seq<char>,
    row: Seq<Seq<char>>,
)
    requires
        0 <= i <= s.len(),
        records_from(s, i, quoted, field, row) is None,
    ensures
        records_from(s.push('"'), i, quoted, field, row) is Some,
    decreases s.len() - i,
{
    let none = Seq::<Seq<char>>::empty();
    let t = s.push('"');
    if i == s.len() {
        assert(records_from(t, i + 1, false, field, row) is Some);
    } else {
        assert(t[i] == s[i]);
        assert(t[i + 1] == if i + 1 < s.len() {
            s[i + 1]
        } else {
            '"'
        });
        if quoted {
            if s[i] != '"' {
                lemma_closed(s, i + 1, true, field.push(s[i]), row);
            } else if i + 1 < s.len() && s[i + 1] == '"' {
                lemma_closed(s, i + 2, true, field.push('"'), row);
            } else {
                lemma_closed(s, i + 1, false, field, row);
            }
        } else if s[i] == '"' && field.len() == 0 {
            lemma_closed(s, i + 1, true, field, row);
        } else if s[i] == ',' {
            lemma_closed(s, i + 1, false, Seq::empty(), row.push(field));
        } else if s[i] == '\n' {
            lemma_closed(s, i + 1, false, Seq::empty(), none);
        } else if s[i] == '\r' {
            lemma_closed(s, after_return(s, i), false, Seq::empty(), none);
        } else {
            lemma_closed(s, i + 1, false, field.push(s[i]), row);
        }
    }
}

/// One closing quote mends every text that cannot be read: an open quote is all that a text can
/// be refused for.
pub proof fn law_closing_quote_mends(s: Seq<char>)
    requires
        csv_records(s) is None,
    ensures
        csv_records(s.push('"')) is Some,
{
    lemma_closed(s, 0, false, Seq::empty(), Seq::empty());
}

}
