//! Every way in which CSV text can be written, and what is read from it.

use vstd::prelude::*;

use crate::csv::{
    after_return, csv_records, ends_record, prepend_all, records_from, without_marks,
};
use crate::csv_writing::{doubled, is_line_end, lemma_never_closed, lemma_quoted};
use crate::text::trim_start;

verus! {

/// How a field stands in CSV text: first, if `quoted`, the text `inner` between quotes, and then
/// the text `tail` as it is. Any field can be written between quotes, also one that is empty.
pub struct FieldText {
    pub quoted: bool,
    pub inner: Seq<char>,
    pub tail: Seq<char>,
}

impl FieldText {
    /// Whether the field can be told from what surrounds it: no comma and no line end stands
    /// outside quotes, and no quote where it would open or double one.
    pub open spec fn valid(self) -> bool {
        &&& forall|k: int|
            0 <= k < self.tail.len() ==> #[trigger] self.tail[k] != ',' && self.tail[k] != '\n'
                && self.tail[k] != '\r'
        &&& self.tail.len() > 0 ==> self.tail[0] != '"'
    }

    /// The field as it is written.
    pub open spec fn text(self) -> Seq<char> {
        if self.quoted {
            seq!['"'] + doubled(self.inner) + seq!['"'] + self.tail
        } else {
            self.tail
        }
    }

    /// What the field holds.
    pub open spec fn value(self) -> Seq<char> {
        if self.quoted {
            self.inner + self.tail
        } else {
            self.tail
        }
    }
}

/// A record as it is written, and the line end behind it.
pub struct LineText {
    pub fields: Seq<FieldText>,
    pub end: Seq<char>,
}

/// Fields with a comma behind each.
pub open spec fn listed(fields: Seq<FieldText>) -> Seq<char>
    decreases fields.len(),
{
    if fields.len() == 0 {
        Seq::empty()
    } else {
        listed(fields.drop_last()) + fields.last().text() + seq![',']
    }
}

/// The fields of a record, with commas between them.
pub open spec fn joined(fields: Seq<FieldText>) -> Seq<char> {
    if fields.len() == 0 {
        Seq::empty()
    } else {
        listed(fields.drop_last()) + fields.last().text()
    }
}

/// Records with their line ends.
pub open spec fn lines_text(lines: Seq<LineText>) -> Seq<char>
    decreases lines.len(),
{
    if lines.len() == 0 {
        Seq::empty()
    } else {
        lines_text(lines.drop_last()) + joined(lines.last().fields) + lines.last().end
    }
}

/// Whether all fields can be told from what surrounds them.
pub open spec fn are_fields(fields: Seq<FieldText>) -> bool {
    forall|j: int| 0 <= j < fields.len() ==> (#[trigger] fields[j]).valid()
}

/// Whether every record has a field and a line end of its own: a `"\r"` is not followed by a `"\n"`
/// that ends an empty record.
pub open spec fn are_lines(lines: Seq<LineText>) -> bool {
    &&& forall|k: int|
        0 <= k < lines.len() ==> {
            &&& (#[trigger] lines[k]).fields.len() > 0
            &&& are_fields(lines[k].fields)
            &&& is_line_end(lines[k].end)
        }
    &&& forall|k: int|
        0 < k < lines.len() && lines[k - 1].end == seq!['\r'] && joined(
            (#[trigger] lines[k]).fields,
        ).len() == 0 ==> lines[k].end != seq!['\n']
}

/// What the fields of a record hold.
pub open spec fn field_values(fields: Seq<FieldText>) -> Seq<Seq<char>> {
    Seq::new(fields.len(), |j: int| fields[j].value())
}

/// What the fields of records hold.
pub open spec fn line_values(lines: Seq<LineText>) -> Seq<Seq<Seq<char>>> {
    Seq::new(lines.len(), |k: int| field_values(lines[k].fields))
}

/// Characters outside quotes are read into the field.
proof fn lemma_tail(
    s: Seq<char>,
    i: int,
    read: Seq<char>,
    tail: Seq<char>,
    row: Seq<Seq<char>>,
)
    requires
        0 <= i,
        i + tail.len() <= s.len(),
        s.subrange(i, i + tail.len()) == tail,
        forall|k: int|
            0 <= k < tail.len() ==> #[trigger] tail[k] != ',' && tail[k] != '\n' && tail[k]
                != '\r',
        read.len() > 0 || tail.len() == 0 || tail[0] != '"',
    ensures
        records_from(s, i, false, read, row) == records_from(
            s,
            i + tail.len(),
            false,
            read + tail,
            row,
        ),
    decreases tail.len(),
{
    if tail.len() == 0 {
        assert(read + tail == read);
    } else {
        let rest = tail.drop_first();
        assert(s[i] == s.subrange(i, i + tail.len())[0]);
        assert(s.subrange(i + 1, i + tail.len()) == s.subrange(i, i + tail.len()).skip(1));
        assert(tail.skip(1) == rest);
        assert forall|k: int| 0 <= k < rest.len() implies #[trigger] rest[k] != ',' && rest[k]
            != '\n' && rest[k] != '\r' by {
            assert(rest[k] == tail[k + 1]);
        }
        lemma_tail(s, i + 1, read.push(tail[0]), rest, row);
        assert(read.push(tail[0]) + rest == read + tail);
    }
}

/// A field is read, if what follows it is no quote.
proof fn lemma_field_text(s: Seq<char>, i: int, field: FieldText, row: Seq<Seq<char>>)
    requires
        0 <= i,
        field.valid(),
        i + field.text().len() <= s.len(),
        s.subrange(i, i + field.text().len()) == field.text(),
        i + field.text().len() < s.len() ==> s[i + field.text().len()] != '"',
    ensures
        records_from(s, i, false, Seq::empty(), row) == records_from(
            s,
            i + field.text().len(),
            false,
            field.value(),
            row,
        ),
{
    let none = Seq::<char>::empty();
    let text = field.text();
    let tail = field.tail;
    if field.quoted {
        let inner = doubled(field.inner);
        let at = i + inner.len() + 2;
        let part = s.subrange(i, i + text.len());
        assert(s[i] == part[0]);
        assert(s[at - 1] == part[inner.len() as int + 1]);
        assert(s.subrange(i + 1, at - 1) == part.subrange(1, 1 + inner.len() as int));
        assert(text.subrange(1, 1 + inner.len() as int) == inner);
        assert(s.subrange(at, at + tail.len()) == part.skip(inner.len() as int + 2));
        assert(text.skip(inner.len() as int + 2) == tail);
        if tail.len() > 0 {
            assert(s[at] == s.subrange(at, at + tail.len())[0]);
        }
        lemma_quoted(s, i + 1, none, field.inner, row);
        assert(none + field.inner == field.inner);
        lemma_tail(s, at, field.inner, tail, row);
    } else {
        lemma_tail(s, i, none, tail, row);
        assert(none + tail == tail);
    }
}

/// Fields with a comma behind each are read.
proof fn lemma_listed(s: Seq<char>, i: int, fields: Seq<FieldText>)
    requires
        0 <= i,
        are_fields(fields),
        i + listed(fields).len() <= s.len(),
        s.subrange(i, i + listed(fields).len()) == listed(fields),
    ensures
        records_from(s, i, false, Seq::empty(), Seq::empty()) == records_from(
            s,
            i + listed(fields).len(),
            false,
            Seq::empty(),
            field_values(fields),
        ),
    decreases fields.len(),
{
    let none = Seq::<Seq<char>>::empty();
    if fields.len() == 0 {
        assert(field_values(fields) == none);
    } else {
        let before = fields.drop_last();
        let front = listed(before);
        let text = fields.last().text();
        let part = s.subrange(i, i + listed(fields).len());
        let at = i + front.len();
        assert(s.subrange(i, at) == part.take(front.len() as int));
        assert(part.take(front.len() as int) == front);
        assert(s.subrange(at, at + text.len()) == part.subrange(
            front.len() as int,
            front.len() as int + text.len() as int,
        ));
        assert(part.subrange(front.len() as int, front.len() as int + text.len() as int) == text);
        assert(s[at + text.len()] == part[front.len() as int + text.len() as int]);
        lemma_listed(s, i, before);
        lemma_field_text(s, at, fields.last(), field_values(before));
        assert(field_values(before).push(fields.last().value()) == field_values(fields));
    }
}

/// The fields of a record are read up to the last, if what follows them is no quote.
proof fn lemma_joined(s: Seq<char>, i: int, fields: Seq<FieldText>)
    requires
        0 <= i,
        fields.len() > 0,
        are_fields(fields),
        i + joined(fields).len() <= s.len(),
        s.subrange(i, i + joined(fields).len()) == joined(fields),
        i + joined(fields).len() < s.len() ==> s[i + joined(fields).len()] != '"',
    ensures
        records_from(s, i, false, Seq::empty(), Seq::empty()) == records_from(
            s,
            i + joined(fields).len(),
            false,
            fields.last().value(),
            field_values(fields.drop_last()),
        ),
        field_values(fields.drop_last()).push(fields.last().value()) == field_values(fields),
{
    let before = fields.drop_last();
    let front = listed(before);
    let text = fields.last().text();
    let part = s.subrange(i, i + joined(fields).len());
    let at = i + front.len();
    assert(s.subrange(i, at) == part.take(front.len() as int));
    assert(part.take(front.len() as int) == front);
    assert(s.subrange(at, at + text.len()) == part.skip(front.len() as int));
    assert(part.skip(front.len() as int) == text);
    lemma_listed(s, i, before);
    lemma_field_text(s, at, fields.last(), field_values(before));
    assert(field_values(before).push(fields.last().value()) == field_values(fields));
}

/// The first character of fields is no line feed.
proof fn lemma_fields_start(fields: Seq<FieldText>)
    requires
        are_fields(fields),
    ensures
        listed(fields).len() > 0 ==> listed(fields)[0] != '\n',
        joined(fields).len() > 0 ==> joined(fields)[0] != '\n',
    decreases fields.len(),
{
    if fields.len() > 0 {
        lemma_fields_start(fields.drop_last());
        let last = fields.last();
        assert(last.valid());
        if last.text().len() > 0 {
            if last.quoted {
                assert(last.text()[0] == '"');
            } else {
                assert(last.tail[0] != '\n');
            }
        }
    }
}

/// Records with line ends are read, and then what follows them.
proof fn lemma_lines(s: Seq<char>, i: int, lines: Seq<LineText>)
    requires
        0 <= i,
        are_lines(lines),
        i + lines_text(lines).len() <= s.len(),
        s.subrange(i, i + lines_text(lines).len()) == lines_text(lines),
        lines.len() > 0 && lines.last().end == seq!['\r'] && i + lines_text(lines).len() < s.len()
            ==> s[i + lines_text(lines).len()] != '\n',
    ensures
        records_from(s, i, false, Seq::empty(), Seq::empty()) == prepend_all(
            line_values(lines),
            records_from(s, i + lines_text(lines).len(), false, Seq::empty(), Seq::empty()),
        ),
    decreases lines.len(),
{
    let none = Seq::<Seq<char>>::empty();
    let whole = lines_text(lines);
    let behind = records_from(s, i + whole.len(), false, Seq::empty(), none);
    if lines.len() == 0 {
        if let Some(more) = behind {
            assert(line_values(lines) + more == more);
        }
    } else {
        let before = lines.drop_last();
        let line = lines.last();
        let front = lines_text(before);
        let text = joined(line.fields);
        let part = s.subrange(i, i + whole.len());
        let at = i + front.len();
        let to = at + text.len();
        assert forall|k: int| 0 <= k < before.len() implies #[trigger] before[k] == lines[k] by {}
        assert(are_lines(before));
        assert(s.subrange(i, at) == part.take(front.len() as int));
        assert(part.take(front.len() as int) == front);
        assert(s.subrange(at, to) == part.subrange(
            front.len() as int,
            front.len() as int + text.len() as int,
        ));
        assert(part.subrange(front.len() as int, front.len() as int + text.len() as int) == text);
        assert(s[to] == part[front.len() as int + text.len() as int]);
        assert(s[to] == line.end[0]);
        if line.end.len() == 2 {
            assert(s[to + 1] == part[front.len() as int + text.len() as int + 1]);
        }
        if before.len() > 0 && before.last().end == seq!['\r'] {
            assert(before.last() == lines[lines.len() - 2]);
            assert(lines[lines.len() - 1] == line);
            lemma_fields_start(line.fields);
            if text.len() > 0 {
                assert(s[at] == s.subrange(at, to)[0]);
            }
        }
        lemma_lines(s, i, before);
        lemma_joined(s, at, line.fields);
        assert(line_values(before).push(field_values(line.fields)) == line_values(lines));
        if let Some(more) = behind {
            let record = field_values(line.fields);
            assert(line_values(before) + (seq![record] + more) == line_values(lines) + more);
        }
    }
}

/// Byte order marks in front of a text, and the text without them.
proof fn lemma_marks(s: Seq<char>, mark: char) -> (n: nat)
    ensures
        s == Seq::new(n, |i: int| mark) + trim_start(s, mark),
        trim_start(s, mark).len() > 0 ==> trim_start(s, mark)[0] != mark,
    decreases s.len(),
{
    if s.len() > 0 && s[0] == mark {
        let m = lemma_marks(s.drop_first(), mark);
        let n: nat = m + 1;
        let rest = trim_start(s.drop_first(), mark);
        assert(s == Seq::new(n, |i: int| mark) + rest) by {
            assert(s.drop_first() == Seq::new(m, |i: int| mark) + rest);
            assert(s == seq![s[0]] + s.drop_first());
        }
        n
    } else {
        assert(s == Seq::new(0, |i: int| mark) + s);
        0
    }
}

/// Whether `n` byte order marks and a text that starts with none make a text.
pub open spec fn is_marked_with(n: nat, rest: Seq<char>, whole: Seq<char>) -> bool {
    &&& whole == Seq::new(n, |i: int| '\u{feff}') + rest
    &&& rest.len() > 0 ==> rest[0] != '\u{feff}'
}

/// Whether records hold what lines were written to hold, but for byte order marks at the start of
/// the very first field, which are left out.
pub open spec fn are_read_from(records: Seq<Seq<Seq<char>>>, lines: Seq<LineText>) -> bool {
    &&& records.len() == lines.len()
    &&& forall|k: int|
        0 <= k < lines.len() ==> (#[trigger] records[k]).len() == lines[k].fields.len()
    &&& forall|k: int, j: int|
        0 <= k < lines.len() && 0 <= j < lines[k].fields.len() && (k > 0 || j > 0)
            ==> #[trigger] records[k][j] == lines[k].fields[j].value()
    &&& lines.len() > 0 ==> exists|n: nat|
        is_marked_with(n, records[0][0], lines[0].fields[0].value())
}

/// Without their byte order marks, the values of lines are what is read from them.
proof fn lemma_values_are_read(lines: Seq<LineText>)
    requires
        forall|k: int| 0 <= k < lines.len() ==> (#[trigger] lines[k]).fields.len() > 0,
    ensures
        are_read_from(without_marks(line_values(lines)), lines),
{
    let values = line_values(lines);
    let records = without_marks(values);
    if lines.len() > 0 {
        let first = lines[0].fields[0].value();
        assert(lines[0].fields.len() > 0);
        assert(values[0][0] == first);
        let n = lemma_marks(first, '\u{feff}');
        assert(records[0][0] == trim_start(first, '\u{feff}'));
        assert(is_marked_with(n, records[0][0], first));
        assert forall|k: int, j: int|
            0 <= k < lines.len() && 0 <= j < lines[k].fields.len() && (k > 0 || j
                > 0) implies #[trigger] records[k][j] == lines[k].fields[j].value() by {
            assert(values[k][j] == lines[k].fields[j].value());
        }
        assert forall|k: int| 0 <= k < lines.len() implies (#[trigger] records[k]).len()
            == lines[k].fields.len() by {
            assert(values[k].len() == lines[k].fields.len());
        }
    }
}

/// However records are written, they are read as what they hold: with quotes around any fields,
/// also around those that need none and around empty ones, with the quotes within them doubled,
/// with more text behind the closing quote, with quotes that stand within a field, and with any
/// mixture of line ends. Only byte order marks at the very start are left out.
pub proof fn law_written_lines_read_back(lines: Seq<LineText>)
    requires
        are_lines(lines),
    ensures
        csv_records(lines_text(lines)) matches Some(records) && are_read_from(records, lines),
{
    let s = lines_text(lines);
    let none = Seq::<Seq<char>>::empty();
    if lines.len() > 0 {
        let line = lines.last();
        assert(lines[lines.len() - 1] == line);
        assert(s.subrange(0, s.len() as int) == s);
        lemma_lines(s, 0, lines);
        assert(s.last() == line.end.last());
        assert(ends_record(s));
        assert(records_from(s, s.len() as int, false, Seq::empty(), none) == Some(
            Seq::<Seq<Seq<char>>>::empty(),
        ));
        assert(line_values(lines) + Seq::<Seq<Seq<char>>>::empty() == line_values(lines));
        lemma_values_are_read(lines);
    }
}

/// The last record needs no line end, if it has some text.
pub proof fn law_last_line_needs_no_end(lines: Seq<LineText>, last: Seq<FieldText>)
    requires
        are_lines(lines),
        last.len() > 0,
        are_fields(last),
        joined(last).len() > 0,
    ensures
        csv_records(lines_text(lines) + joined(last)) matches Some(records) && are_read_from(
            records,
            lines.push((LineText { fields: last, end: Seq::empty() })),
        ),
{
    let none = Seq::<Seq<char>>::empty();
    let front = lines_text(lines);
    let text = joined(last);
    let s = front + text;
    let all = lines.push(LineText { fields: last, end: Seq::empty() });
    assert(s.subrange(0, front.len() as int) == front);
    assert(s.subrange(front.len() as int, s.len() as int) == text);
    lemma_fields_start(last);
    lemma_lines(s, 0, lines);
    lemma_joined(s, front.len() as int, last);
    let value = last.last().value();
    let row = field_values(last.drop_last());
    assert(value.len() > 0 || row.len() > 0 || !ends_record(s)) by {
        if value.len() == 0 && row.len() == 0 {
            assert(listed(last.drop_last()).len() == 0);
            assert(text == last.last().text());
            assert(last.last().quoted);
            assert(s.last() == text.last());
            assert(text.last() == '"');
        }
    }
    assert(line_values(all) == line_values(lines) + seq![field_values(last)]);
    lemma_values_are_read(all);
}

/// A text that ends between quotes cannot be read, whatever stands before the opening quote.
pub proof fn law_unclosed_field_is_refused(
    lines: Seq<LineText>,
    fields: Seq<FieldText>,
    inner: Seq<char>,
)
    requires
        are_lines(lines),
        are_fields(fields),
    ensures
        csv_records(lines_text(lines) + listed(fields) + seq!['"'] + doubled(inner)) is None,
{
    let front = lines_text(lines);
    let middle = listed(fields);
    let s = front + middle + seq!['"'] + doubled(inner);
    let at = (front.len() + middle.len()) as int;
    assert(s.subrange(0, front.len() as int) == front);
    assert(s.subrange(front.len() as int, at) == middle);
    assert(s[at] == '"');
    assert(s.skip(at + 1) == doubled(inner));
    lemma_fields_start(fields);
    lemma_lines(s, 0, lines);
    lemma_listed(s, front.len() as int, fields);
    lemma_never_closed(s, at + 1, Seq::empty(), inner, field_values(fields));
}

/// A field written as two quotes is the empty field, wherever it stands in its record.
pub proof fn law_two_quotes_are_an_empty_field(
    before: Seq<FieldText>,
    after: Seq<FieldText>,
    end: Seq<char>,
)
    requires
        are_fields(before),
        are_fields(after),
        is_line_end(end),
    ensures
        ({
            let empty = FieldText { quoted: true, inner: Seq::empty(), tail: Seq::empty() };
            let line = LineText { fields: before.push(empty) + after, end };
            &&& empty.text() == seq!['"', '"']
            &&& csv_records(lines_text(seq![line])) matches Some(records) && {
                &&& records.len() == 1
                &&& records[0].len() == before.len() + 1 + after.len()
                &&& records[0][before.len() as int] == Seq::<char>::empty()
            }
        }),
{
    let empty = FieldText { quoted: true, inner: Seq::empty(), tail: Seq::empty() };
    let line = LineText { fields: before.push(empty) + after, end };
    assert(empty.text() == seq!['"', '"']);
    assert(are_fields(line.fields)) by {
        assert forall|j: int| 0 <= j < line.fields.len() implies (
        #[trigger] line.fields[j]).valid() by {
            if j < before.len() {
                assert(line.fields[j] == before[j]);
            } else if j > before.len() {
                assert(line.fields[j] == after[j - before.len() - 1]);
            }
        }
    }
    let lines = seq![line];
    assert(are_lines(lines));
    law_written_lines_read_back(lines);
    let records = csv_records(lines_text(lines))->0;
    assert(line.fields[before.len() as int] == empty);
    assert(empty.value() == Seq::<char>::empty());
    assert(records[0].len() == lines[0].fields.len());
    if before.len() == 0 {
        let n = choose|n: nat| is_marked_with(n, records[0][0], lines[0].fields[0].value());
        assert(records[0][0].len() == 0);
    } else {
        assert(records[0][before.len() as int] == lines[0].fields[before.len() as int].value());
    }
}

}
