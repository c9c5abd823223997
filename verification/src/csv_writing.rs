//! How records are written as CSV text, and that they read back from it.

use vstd::prelude::*;

use crate::csv::{after_return, csv_records, ends_record, records_from, without_marks};
use crate::text::trim_start;

verus! {

/// Whether a field can stand in CSV text as it is.
pub open spec fn is_bare(field: Seq<char>) -> bool {
    forall|k: int|
        0 <= k < field.len() ==> #[trigger] field[k] != ',' && field[k] != '"' && field[k] != '\n'
            && field[k] != '\r'
}

/// A text with every quote doubled.
pub open spec fn doubled(s: Seq<char>) -> Seq<char>
    decreases s.len(),
{
    if s.len() == 0 {
        Seq::empty()
    } else if s[0] == '"' {
        seq!['"', '"'] + doubled(s.drop_first())
    } else {
        seq![s[0]] + doubled(s.drop_first())
    }
}

/// A field in CSV text: as it is where it can be, else between quotes.
pub open spec fn field_text(field: Seq<char>) -> Seq<char> {
    if is_bare(field) {
        field
    } else {
        seq!['"'] + doubled(field) + seq!['"']
    }
}

/// A record in CSV text: its fields with commas between them.
pub open spec fn record_text(record: Seq<Seq<char>>) -> Seq<char>
    decreases record.len(),
{
    if record.len() == 0 {
        Seq::empty()
    } else if record.len() == 1 {
        field_text(record[0])
    } else {
        field_text(record[0]).push(',') + record_text(record.drop_first())
    }
}

/// Records in CSV text, with the line end `end` behind each of them. The line end behind the last
/// is there only if `closed`.
pub open spec fn records_text(
    records: Seq<Seq<Seq<char>>>,
    end: Seq<char>,
    closed: bool,
) -> Seq<char>
    decreases records.len(),
{
    if records.len() == 0 {
        Seq::empty()
    } else if records.len() == 1 && !closed {
        record_text(records[0])
    } else {
        record_text(records[0]) + end + records_text(records.drop_first(), end, closed)
    }
}

/// Whether a text is one of the line ends `"\n"`, `"\r"` and `"\r\n"`.
pub open spec fn is_line_end(end: Seq<char>) -> bool {
    end == seq!['\n'] || end == seq!['\r'] || end == seq!['\r', '\n']
}

/// Bare characters from position `i` on are read into the field.
proof fn lemma_bare(s: Seq<char>, i: int, field: Seq<char>, k: int, row: Seq<Seq<char>>)
    requires
        0 <= i,
        0 <= k <= field.len(),
        i + field.len() <= s.len(),
        s.subrange(i, i + field.len()) == field,
        is_bare(field),
    ensures
        records_from(s, i + k, false, field.take(k), row) == records_from(
            s,
            i + field.len(),
            false,
            field,
            row,
        ),
    decreases field.len() - k,
{
    if k < field.len() {
        lemma_bare(s, i, field, k + 1, row);
        assert(s[i + k] == s.subrange(i, i + field.len())[k]);
        assert(field.take(k).push(field[k]) == field.take(k + 1));
    } else {
        assert(field.take(k) == field);
    }
}

/// Doubled quotes and other characters between quotes are read into the field, up to the quote
/// that closes it.
pub proof fn lemma_quoted(
    s: Seq<char>,
    i: int,
    read: Seq<char>,
    rest: Seq<char>,
    row: Seq<Seq<char>>,
)
    requires
        0 <= i,
        i + doubled(rest).len() < s.len(),
        s.subrange(i, i + doubled(rest).len()) == doubled(rest),
        s[i + doubled(rest).len()] == '"',
        i + doubled(rest).len() + 1 < s.len() ==> s[i + doubled(rest).len() + 1] != '"',
    ensures
        records_from(s, i, true, read, row) == records_from(
            s,
            i + doubled(rest).len() + 1,
            false,
            read + rest,
            row,
        ),
    decreases rest.len(),
{
    let text = doubled(rest);
    if rest.len() == 0 {
        assert(read + rest == read);
    } else {
        let tail = rest.drop_first();
        let step: int = if rest[0] == '"' {
            2
        } else {
            1
        };
        assert(text.skip(step) == doubled(tail));
        assert(s.subrange(i + step, i + text.len()) == s.subrange(i, i + text.len()).skip(step));
        assert(s[i] == s.subrange(i, i + text.len())[0]);
        if rest[0] == '"' {
            assert(s[i + 1] == s.subrange(i, i + text.len())[1]);
        }
        lemma_quoted(s, i + step, read.push(rest[0]), tail, row);
        assert(read.push(rest[0]) + tail == read + rest);
    }
}

/// A field that was written is read, if what follows it is no quote.
proof fn lemma_field(s: Seq<char>, i: int, field: Seq<char>, row: Seq<Seq<char>>)
    requires
        0 <= i,
        i + field_text(field).len() <= s.len(),
        s.subrange(i, i + field_text(field).len()) == field_text(field),
        i + field_text(field).len() < s.len() ==> s[i + field_text(field).len()] != '"',
    ensures
        records_from(s, i, false, Seq::empty(), row) == records_from(
            s,
            i + field_text(field).len(),
            false,
            field,
            row,
        ),
{
    let text = field_text(field);
    if is_bare(field) {
        lemma_bare(s, i, field, 0, row);
        assert(field.take(0) == Seq::<char>::empty());
    } else {
        let inner = doubled(field);
        assert(s[i] == s.subrange(i, i + text.len())[0]);
        assert(s[i + inner.len() + 1] == s.subrange(i, i + text.len())[inner.len() as int + 1]);
        assert(s.subrange(i + 1, i + 1 + inner.len()) == s.subrange(i, i + text.len()).subrange(
            1,
            1 + inner.len() as int,
        ));
        assert(text.subrange(1, 1 + inner.len() as int) == inner);
        lemma_quoted(s, i + 1, Seq::empty(), field, row);
        assert(Seq::<char>::empty() + field == field);
    }
}

/// A record that was written is read up to its last field, if what follows it is no quote.
proof fn lemma_record(s: Seq<char>, i: int, record: Seq<Seq<char>>, row: Seq<Seq<char>>)
    requires
        0 <= i,
        record.len() > 0,
        i + record_text(record).len() <= s.len(),
        s.subrange(i, i + record_text(record).len()) == record_text(record),
        i + record_text(record).len() < s.len() ==> s[i + record_text(record).len()] != '"',
    ensures
        records_from(s, i, false, Seq::empty(), row) == records_from(
            s,
            i + record_text(record).len(),
            false,
            record.last(),
            row + record.drop_last(),
        ),
    decreases record.len(),
{
    let text = record_text(record);
    let first = field_text(record[0]);
    if record.len() == 1 {
        lemma_field(s, i, record[0], row);
        assert(row + record.drop_last() == row);
    } else {
        let tail = record.drop_first();
        assert(first == text.take(first.len() as int));
        assert(text[first.len() as int] == ',');
        assert(text.skip(first.len() as int + 1) == record_text(tail));
        assert(s.subrange(i, i + first.len()) == s.subrange(i, i + text.len()).take(
            first.len() as int,
        ));
        assert(s[i + first.len()] == s.subrange(i, i + text.len())[first.len() as int]);
        assert(s.subrange(i + first.len() + 1, i + text.len()) == s.subrange(
            i,
            i + text.len(),
        ).skip(first.len() as int + 1));
        lemma_field(s, i, record[0], row);
        lemma_record(s, i + first.len() + 1, tail, row.push(record[0]));
        assert(row.push(record[0]) + tail.drop_last() == row + record.drop_last());
    }
}

/// Written text does not start with a line feed, unless a line feed is its first line end.
proof fn lemma_first_char(records: Seq<Seq<Seq<char>>>, end: Seq<char>, closed: bool)
    requires
        is_line_end(end),
        end[0] == '\r',
        records_text(records, end, closed).len() > 0,
    ensures
        records_text(records, end, closed)[0] != '\n',
{
    let text = records_text(records, end, closed);
    let record = records[0];
    if record.len() > 0 {
        let first = field_text(record[0]);
        if first.len() > 0 {
            assert(text[0] == first[0]);
            if is_bare(record[0]) {
                assert(record[0][0] != '\n');
            }
        }
    }
}

/// Whether the last of written records can be seen: it has a line end, or text of its own.
pub open spec fn is_ended(records: Seq<Seq<Seq<char>>>, closed: bool) -> bool {
    closed || records.len() == 0 || record_text(records.last()).len() > 0
}

/// Records that were written are read.
proof fn lemma_records(
    s: Seq<char>,
    i: int,
    records: Seq<Seq<Seq<char>>>,
    end: Seq<char>,
    closed: bool,
)
    requires
        0 <= i <= s.len(),
        s.skip(i) == records_text(records, end, closed),
        is_line_end(end),
        forall|k: int| 0 <= k < records.len() ==> (#[trigger] records[k]).len() > 0,
        is_ended(records, closed),
        records.len() > 0 || i > 0 && (s[i - 1] == '\n' || s[i - 1] == '\r'),
    ensures
        records_from(s, i, false, Seq::empty(), Seq::empty()) == Some(records),
    decreases records.len(),
{
    let none = Seq::<Seq<char>>::empty();
    if records.len() == 0 {
        assert(i == s.len());
        assert(ends_record(s));
        assert(records == Seq::<Seq<Seq<char>>>::empty());
    } else {
        let record = records[0];
        let tail = records.drop_first();
        let text = record_text(record);
        let at = i + text.len();
        let whole = records_text(records, end, closed);
        assert(s.len() == i + whole.len());
        assert(s.subrange(i, at) == whole.take(text.len() as int)) by {
            assert(s.subrange(i, at) == s.skip(i).take(text.len() as int));
        }
        assert(whole.take(text.len() as int) == text);
        assert(none + record.drop_last() == record.drop_last());
        assert(record.drop_last().push(record.last()) == record);
        if records.len() == 1 && !closed {
            lemma_record(s, i, record, none);
            assert(record.last().len() > 0 || record.drop_last().len() > 0) by {
                if record.len() == 1 && record[0].len() == 0 {
                    assert(is_bare(record[0]));
                }
            }
            assert(seq![record] == records);
        } else {
            assert(s[at] == s.skip(i)[text.len() as int]);
            assert(whole[text.len() as int] == end[0]);
            lemma_record(s, i, record, none);
            let next = at + end.len();
            assert(s.skip(next) == s.skip(i).skip(text.len() as int + end.len() as int));
            assert(whole.skip(text.len() as int + end.len() as int) == records_text(
                tail,
                end,
                closed,
            ));
            assert(s[next - 1] == s.skip(i)[text.len() as int + end.len() as int - 1]);
            assert(whole[text.len() as int + end.len() as int - 1] == end.last());
            assert forall|k: int| 0 <= k < tail.len() implies (#[trigger] tail[k]).len() > 0 by {
                assert(tail[k] == records[k + 1]);
            }
            lemma_records(s, next, tail, end, closed);
            if end[0] == '\r' {
                if at + 1 < s.len() {
                    assert(s[at + 1] == s.skip(i)[text.len() as int + 1]);
                    if end.len() == 2 {
                        assert(whole[text.len() as int + 1] == end[1]);
                    } else {
                        lemma_first_char(tail, end, closed);
                        assert(s[at + 1] == s.skip(next)[0]);
                    }
                }
                assert(after_return(s, at) == next);
            }
            assert(seq![record] + tail == records);
        }
    }
}

/// Records read back as they were written: commas, quotes and line ends within a field come
/// back through the quotes around it, whichever line end is used between the records, and
/// whether or not the last record has one. Every record has a field, the last record without a
/// line end has some text, and the very first field starts with no byte order mark.
pub proof fn law_written_records_read_back(
    records: Seq<Seq<Seq<char>>>,
    end: Seq<char>,
    closed: bool,
)
    requires
        is_line_end(end),
        forall|k: int| 0 <= k < records.len() ==> (#[trigger] records[k]).len() > 0,
        is_ended(records, closed),
        records.len() > 0 && records[0][0].len() > 0 ==> records[0][0][0] != '\u{feff}',
    ensures
        csv_records(records_text(records, end, closed)) == Some(records),
{
    let s = records_text(records, end, closed);
    if records.len() == 0 {
        assert(records == Seq::<Seq<Seq<char>>>::empty());
    } else {
        assert(s.len() > 0);
        assert(s.skip(0) == s);
        lemma_records(s, 0, records, end, closed);
        let first = records[0];
        assert(trim_start(first[0], '\u{feff}') == first[0]);
        assert(first.update(0, first[0]) == first);
        assert(without_marks(records) == records);
    }
}

/// Between quotes, a text whose quotes are all doubled runs to the end without a closing quote.
pub proof fn lemma_never_closed(
    s: Seq<char>,
    i: int,
    read: Seq<char>,
    rest: Seq<char>,
    row: Seq<Seq<char>>,
)
    requires
        0 <= i <= s.len(),
        s.skip(i) == doubled(rest),
    ensures
        records_from(s, i, true, read, row) is None,
    decreases rest.len(),
{
    assert(s.skip(i).len() == s.len() - i);
    if rest.len() > 0 {
        let step: int = if rest[0] == '"' {
            2
        } else {
            1
        };
        assert(doubled(rest).skip(step) == doubled(rest.drop_first()));
        assert(s.skip(i + step) == s.skip(i).skip(step));
        assert(s[i] == s.skip(i)[0]);
        if rest[0] == '"' {
            assert(s[i + 1] == s.skip(i)[1]);
        }
        lemma_never_closed(s, i + step, read.push(rest[0]), rest.drop_first(), row);
    }
}

/// An open quote behind written records makes them unreadable.
proof fn lemma_open_quote(
    s: Seq<char>,
    i: int,
    records: Seq<Seq<Seq<char>>>,
    end: Seq<char>,
    field: Seq<char>,
)
    requires
        0 <= i <= s.len(),
        s.skip(i) == records_text(records, end, true) + seq!['"'] + doubled(field),
        is_line_end(end),
        forall|k: int| 0 <= k < records.len() ==> (#[trigger] records[k]).len() > 0,
    ensures
        records_from(s, i, false, Seq::empty(), Seq::empty()) is None,
    decreases records.len(),
{
    let none = Seq::<Seq<char>>::empty();
    let whole = s.skip(i);
    assert(whole.len() == s.len() - i);
    if records.len() == 0 {
        assert(s[i] == whole[0]);
        assert(s.skip(i + 1) == whole.skip(1));
        assert(whole.skip(1) == doubled(field));
        lemma_never_closed(s, i + 1, Seq::empty(), field, none);
    } else {
        let record = records[0];
        let tail = records.drop_first();
        let text = record_text(record);
        let at = i + text.len();
        assert(s.subrange(i, at) == whole.take(text.len() as int));
        assert(whole.take(text.len() as int) == text);
        assert(s[at] == whole[text.len() as int]);
        assert(whole[text.len() as int] == end[0]);
        lemma_record(s, i, record, none);
        let next = at + end.len();
        let rest = records_text(tail, end, true) + seq!['"'] + doubled(field);
        assert(s.skip(next) == whole.skip(text.len() as int + end.len() as int));
        assert(whole.skip(text.len() as int + end.len() as int) == rest);
        assert forall|k: int| 0 <= k < tail.len() implies (#[trigger] tail[k]).len() > 0 by {
            assert(tail[k] == records[k + 1]);
        }
        lemma_open_quote(s, next, tail, end, field);
        if end[0] == '\r' {
            assert(s[at + 1] == whole[text.len() as int + 1]);
            if end.len() == 2 {
                assert(whole[text.len() as int + 1] == end[1]);
            } else {
                assert(s[at + 1] == rest[0]);
                if records_text(tail, end, true).len() > 0 {
                    lemma_first_char(tail, end, true);
                }
            }
            assert(after_return(s, at) == next);
        }
    }
}

/// A quoted field that is never closed makes a text unreadable: an opening quote at the start
/// of a record, and behind it a text whose quotes are all doubled.
pub proof fn law_open_quote_is_refused(
    records: Seq<Seq<Seq<char>>>,
    end: Seq<char>,
    field: Seq<char>,
)
    requires
        is_line_end(end),
        forall|k: int| 0 <= k < records.len() ==> (#[trigger] records[k]).len() > 0,
    ensures
        csv_records(records_text(records, end, true) + seq!['"'] + doubled(field)) is None,
{
    let s = records_text(records, end, true) + seq!['"'] + doubled(field);
    assert(s.skip(0) == s);
    lemma_open_quote(s, 0, records, end, field);
}

}
