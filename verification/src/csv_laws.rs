//! What holds of the records of every CSV text.

use vstd::prelude::*;

use crate::csv::{
    after_return, csv_records, ends_record, prepend, records_from, width_of, without_marks,
};
use crate::text::trim_start;

verus! {

/// Whether there are records, and each of them has a field.
pub open spec fn have_fields(records: Seq<Seq<Seq<char>>>) -> bool {
    &&& records.len() > 0
    &&& forall|k: int| 0 <= k < records.len() ==> (#[trigger] records[k]).len() > 0
}

/// What is read from a position on has records with fields. Where all has been read there may be
/// no further record.
proof fn lemma_records_have_fields(
    s: Seq<char>,
    i: int,
    quoted: bool,
    field: Seq<char>,
    row: Seq<Seq<char>>,
)
    requires
        0 <= i,
    ensures
        records_from(s, i, quoted, field, row) matches Some(records) ==> {
            &&& i < s.len() || field.len() > 0 || row.len() > 0 || !ends_record(s)
                ==> have_fields(records)
            &&& records.len() > 0 ==> have_fields(records)
        },
    decreases s.len() - i,
{
    let none = Seq::<Seq<char>>::empty();
    if i < s.len() {
        if quoted {
            if s[i] != '"' {
                lemma_records_have_fields(s, i + 1, true, field.push(s[i]), row);
            } else if i + 1 < s.len() && s[i + 1] == '"' {
                lemma_records_have_fields(s, i + 2, true, field.push('"'), row);
            } else {
                lemma_records_have_fields(s, i + 1, false, field, row);
            }
        } else if s[i] == '"' && field.len() == 0 {
            lemma_records_have_fields(s, i + 1, true, field, row);
        } else if s[i] == ',' {
            lemma_records_have_fields(s, i + 1, false, Seq::empty(), row.push(field));
        } else if s[i] == '\n' || s[i] == '\r' {
            let next = if s[i] == '\n' {
                i + 1
            } else {
                after_return(s, i)
            };
            lemma_records_have_fields(s, next, false, Seq::empty(), none);
            if let Some(rest) = records_from(s, next, false, Seq::empty(), none) {
                let records = seq![row.push(field)] + rest;
                assert forall|k: int| 0 <= k < records.len() implies (#[trigger] records[k]).len()
                    > 0 by {
                    if k > 0 {
                        assert(records[k] == rest[k - 1]);
                    }
                }
            }
        } else {
            lemma_records_have_fields(s, i + 1, false, field.push(s[i]), row);
        }
    }
}

/// A CSV text that is not empty has a record if it can be read, and every record has a field. So
/// its sheet is at least one column wide.
pub proof fn law_readable_text_has_records(s: Seq<char>)
    requires
        s.len() > 0,
    ensures
        csv_records(s) matches Some(records) ==> have_fields(records) && width_of(records) > 0,
{
    let none = Seq::<Seq<char>>::empty();
    lemma_records_have_fields(s, 0, false, Seq::empty(), none);
    if let Some(raw) = records_from(s, 0, false, Seq::empty(), none) {
        let records = without_marks(raw);
        assert forall|k: int| 0 <= k < records.len() implies (#[trigger] records[k]).len() > 0 by {
            assert(raw[k].len() > 0);
        }
        assert(records.last() == records[records.len() - 1]);
    }
}

/// What is read behind another text in front of a text is what is read from the text.
pub proof fn lemma_shift(
    front: Seq<char>,
    s: Seq<char>,
    i: int,
    quoted: bool,
    field: Seq<char>,
    row: Seq<Seq<char>>,
)
    requires
        0 <= i,
        s.len() > 0,
    ensures
        records_from(front + s, front.len() + i, quoted, field, row) == records_from(
            s,
            i,
            quoted,
            field,
            row,
        ),
    decreases s.len() - i,
{
    let none = Seq::<Seq<char>>::empty();
    let t = front + s;
    assert(t.last() == s.last());
    if i < s.len() {
        assert(t[front.len() + i] == s[i]);
        if i + 1 < s.len() {
            assert(t[front.len() + i + 1] == s[i + 1]);
        }
        if quoted {
            if s[i] != '"' {
                lemma_shift(front, s, i + 1, true, field.push(s[i]), row);
            } else if i + 1 < s.len() && s[i + 1] == '"' {
                lemma_shift(front, s, i + 2, true, field.push('"'), row);
            } else {
                lemma_shift(front, s, i + 1, false, field, row);
            }
        } else if s[i] == '"' && field.len() == 0 {
            lemma_shift(front, s, i + 1, true, field, row);
        } else if s[i] == ',' {
            lemma_shift(front, s, i + 1, false, Seq::empty(), row.push(field));
        } else if s[i] == '\n' {
            lemma_shift(front, s, i + 1, false, Seq::empty(), none);
        } else if s[i] == '\r' {
            lemma_shift(front, s, after_return(s, i), false, Seq::empty(), none);
        } else {
            lemma_shift(front, s, i + 1, false, field.push(s[i]), row);
        }
    }
}

/// Records with a character in front of the very first field.
spec fn marked(mark: char, records: Seq<Seq<Seq<char>>>) -> Seq<Seq<Seq<char>>> {
    records.update(0, mark_row(mark, records[0]))
}

/// A record with a character in front of its first field.
spec fn mark_row(mark: char, row: Seq<Seq<char>>) -> Seq<Seq<char>> {
    row.update(0, seq![mark] + row[0])
}

/// Whether the second result is the first with a character in front of the very first field, or
/// neither could be read.
spec fn is_marked_result(
    mark: char,
    plain: Option<Seq<Seq<Seq<char>>>>,
    with_mark: Option<Seq<Seq<Seq<char>>>>,
) -> bool {
    match plain {
        Some(records) => records.len() > 0 && records[0].len() > 0 && with_mark == Some(
            marked(mark, records),
        ),
        None => with_mark is None,
    }
}

proof fn lemma_marked_prepend(
    mark: char,
    record: Seq<Seq<char>>,
    records: Option<Seq<Seq<Seq<char>>>>,
)
    requires
        record.len() > 0,
    ensures
        is_marked_result(
            mark,
            prepend(record, records),
            prepend(mark_row(mark, record), records),
        ),
{
    if let Some(rest) = records {
        assert(marked(mark, seq![record] + rest) =~= seq![mark_row(mark, record)] + rest);
    }
}

/// A character in front of the first field of the current record stays there.
proof fn lemma_marked_row(
    mark: char,
    s: Seq<char>,
    i: int,
    quoted: bool,
    field: Seq<char>,
    row: Seq<Seq<char>>,
)
    requires
        0 <= i,
        row.len() > 0,
    ensures
        is_marked_result(
            mark,
            records_from(s, i, quoted, field, row),
            records_from(s, i, quoted, field, mark_row(mark, row)),
        ),
    decreases s.len() - i,
{
    let none = Seq::<Seq<char>>::empty();
    let with_mark = mark_row(mark, row);
    assert(mark_row(mark, row.push(field)) =~= with_mark.push(field));
    if i >= s.len() {
        assert(marked(mark, seq![row.push(field)]) =~= seq![with_mark.push(field)]);
    } else if quoted {
        if s[i] != '"' {
            lemma_marked_row(mark, s, i + 1, true, field.push(s[i]), row);
        } else if i + 1 < s.len() && s[i + 1] == '"' {
            lemma_marked_row(mark, s, i + 2, true, field.push('"'), row);
        } else {
            lemma_marked_row(mark, s, i + 1, false, field, row);
        }
    } else if s[i] == '"' && field.len() == 0 {
        lemma_marked_row(mark, s, i + 1, true, field, row);
    } else if s[i] == ',' {
        lemma_marked_row(mark, s, i + 1, false, Seq::empty(), row.push(field));
    } else if s[i] == '\n' {
        lemma_marked_prepend(
            mark,
            row.push(field),
            records_from(s, i + 1, false, Seq::empty(), none),
        );
    } else if s[i] == '\r' {
        lemma_marked_prepend(
            mark,
            row.push(field),
            records_from(s, after_return(s, i), false, Seq::empty(), none),
        );
    } else {
        lemma_marked_row(mark, s, i + 1, false, field.push(s[i]), row);
    }
}

/// A character in front of a first field that is not quoted stays there.
proof fn lemma_marked_field(mark: char, s: Seq<char>, i: int, field: Seq<char>)
    requires
        0 <= i,
        field.len() > 0 || i < s.len() && s[i] != '"',
    ensures
        is_marked_result(
            mark,
            records_from(s, i, false, field, Seq::empty()),
            records_from(s, i, false, seq![mark] + field, Seq::empty()),
        ),
    decreases s.len() - i,
{
    let none = Seq::<Seq<char>>::empty();
    let with_mark = seq![mark] + field;
    assert(mark_row(mark, none.push(field)) =~= none.push(with_mark));
    if i >= s.len() {
        assert(marked(mark, seq![none.push(field)]) =~= seq![none.push(with_mark)]);
    } else if s[i] == ',' {
        lemma_marked_row(mark, s, i + 1, false, Seq::empty(), none.push(field));
    } else if s[i] == '\n' {
        lemma_marked_prepend(
            mark,
            none.push(field),
            records_from(s, i + 1, false, Seq::empty(), none),
        );
    } else if s[i] == '\r' {
        lemma_marked_prepend(
            mark,
            none.push(field),
            records_from(s, after_return(s, i), false, Seq::empty(), none),
        );
    } else {
        assert(with_mark.push(s[i]) =~= seq![mark] + field.push(s[i]));
        lemma_marked_field(mark, s, i + 1, field.push(s[i]));
    }
}

/// A byte order mark in front of a CSV text changes nothing of what is read from it. The text is
/// not empty and does not start with a quote, which behind the mark would stand for itself.
pub proof fn law_byte_order_mark_is_ignored(s: Seq<char>)
    requires
        s.len() > 0,
        s[0] != '"',
    ensures
        csv_records(seq!['\u{feff}'] + s) == csv_records(s),
{
    let mark = '\u{feff}';
    let none = Seq::<Seq<char>>::empty();
    let t = seq![mark] + s;
    assert(records_from(t, 0, false, Seq::empty(), none) == records_from(
        t,
        1,
        false,
        seq![mark],
        none,
    )) by {
        assert(Seq::<char>::empty().push(mark) =~= seq![mark]);
    }
    lemma_shift(seq![mark], s, 0, false, seq![mark], none);
    lemma_marked_field(mark, s, 0, Seq::empty());
    assert(seq![mark] + Seq::<char>::empty() =~= seq![mark]);
    if let Some(records) = records_from(s, 0, false, Seq::empty(), none) {
        let first = records[0][0];
        let longer = seq![mark] + first;
        assert(longer.drop_first() =~= first);
        assert(trim_start(longer, mark) == trim_start(first, mark));
        assert(without_marks(marked(mark, records)) =~= without_marks(records)) by {
            assert(mark_row(mark, records[0]).update(0, trim_start(longer, mark))
                =~= records[0].update(0, trim_start(first, mark)));
        }
    }
}

}
