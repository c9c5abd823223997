//! The cells of a sheet: what a file holds in them and what is shown of it.

use calamine::CellType;
use vstd::prelude::*;
use vstd::string::StringExecFns;

use crate::calendar::{
    clock_text, date_of_serial, date_text, is_serial_in_span, lemma_dates_are_in_span, push_clock,
    push_date, push_formatted_date, serial_date, serial_in_span, serial_is_date,
};
use crate::text::{
    chars_of, count_decimal_places, decimal_places, group_number, group_signed, int_text,
    push_group_number, push_group_signed, push_int, same_text,
};

verus! {

broadcast use vstd::string::group_string_axioms;

/// A floating-point number, by the texts that stand for it.
#[derive(Debug, PartialEq)]
pub struct FloatText {
    /// Whether the number has no fractional part.
    pub whole: bool,
    /// The number rounded to no decimal places.
    pub rounded: String,
    /// The number rounded to two decimal places.
    pub hundredths: String,
    /// The shortest text that reads back as the number.
    pub shortest: String,
    /// A hundred times the number, rounded to one decimal place.
    pub percent: String,
}

/// The mathematical value of a [`FloatText`].
pub struct FloatView {
    pub whole: bool,
    pub rounded: Seq<char>,
    pub hundredths: Seq<char>,
    pub shortest: Seq<char>,
    pub percent: Seq<char>,
}

/// Whether a text stands for a number that has no decimal places to show.
pub open spec fn is_not_finite(s: Seq<char>) -> bool {
    s == "NaN"@ || s == "inf"@ || s == "-inf"@
}

impl FloatView {
    /// Whether the texts have the form of texts of a number: decimals with the places that each
    /// of them is rounded to, or words for a number that is not finite, which is not whole. A
    /// hundred times the number need not be finite where the number is.
    pub open spec fn valid(self) -> bool {
        &&& {
            ||| {
                &&& decimal_places(self.rounded) == Some(0nat)
                &&& decimal_places(self.hundredths) == Some(2nat)
                &&& decimal_places(self.shortest) is Some
            }
            ||| {
                &&& !self.whole
                &&& is_not_finite(self.rounded)
                &&& self.hundredths == self.rounded
                &&& self.shortest == self.rounded
            }
        }
        &&& decimal_places(self.percent) == Some(1nat) || is_not_finite(self.percent)
    }
}

/// Whether a text stands for a number that is not finite.
fn stands_for_no_finite_number(s: &str) -> (stands: bool)
    ensures
        stands == is_not_finite(s@),
{
    same_text(s, "NaN") || same_text(s, "inf") || same_text(s, "-inf")
}

/// Whether a text is a decimal number with `places` decimal places.
fn has_places(s: &str, places: usize) -> (has: bool)
    ensures
        has == (decimal_places(s@) == Some(places as nat)),
{
    match count_decimal_places(s) {
        Some(count) => count == places,
        None => false,
    }
}

impl FloatText {
    /// Whether the texts have the form of texts of a number.
    pub fn is_valid(&self) -> (valid: bool)
        ensures
            valid == self@.valid(),
    {
        let finite: bool = has_places(self.rounded.as_str(), 0) && has_places(
            self.hundredths.as_str(),
            2,
        ) && count_decimal_places(self.shortest.as_str()).is_some();
        let endless: bool = !self.whole && stands_for_no_finite_number(self.rounded.as_str())
            && same_text(self.hundredths.as_str(), self.rounded.as_str()) && same_text(
            self.shortest.as_str(),
            self.rounded.as_str(),
        );
        (finite || endless) && (has_places(self.percent.as_str(), 1)
            || stands_for_no_finite_number(self.percent.as_str()))
    }
}

impl View for FloatText {
    type V = FloatView;

    open spec fn view(&self) -> FloatView {
        FloatView {
            whole: self.whole,
            rounded: self.rounded@,
            hundredths: self.hundredths@,
            shortest: self.shortest@,
            percent: self.percent@,
        }
    }
}

impl Clone for FloatText {
    fn clone(&self) -> (copy: Self)
        ensures
            copy@ == self@,
    {
        FloatText {
            whole: self.whole,
            rounded: self.rounded.clone(),
            hundredths: self.hundredths.clone(),
            shortest: self.shortest.clone(),
            percent: self.percent.clone(),
        }
    }
}

/// A point in time, as a spreadsheet counts it: whole days and a fraction of a day.
#[derive(Debug, PartialEq)]
pub struct SerialTime {
    /// The shortest text of the serial number.
    pub text: String,
    /// The serial number rounded down to a whole day.
    pub days: i64,
    /// The fraction of the day in seconds, rounded; from -86400 to 86400, with the sign of the
    /// serial number.
    pub seconds: i64,
    /// Whether the fraction is more than a millionth of a day, up or down.
    pub shows_time: bool,
    /// Whether the fraction is no less than a ten-millionth of a day, up or down.
    pub exports_time: bool,
}

/// The mathematical value of a [`SerialTime`].
pub struct SerialView {
    pub text: Seq<char>,
    pub days: int,
    pub seconds: int,
    pub shows_time: bool,
    pub exports_time: bool,
}

impl SerialView {
    /// Whether the parts belong to one serial number: no more seconds than a day has, with the
    /// sign of the number, and none if the fraction is too small to be shown. A fraction that is
    /// shown is exported.
    pub open spec fn valid(self) -> bool {
        &&& decimal_places(self.text) is Some || is_not_finite(self.text)
        &&& -86400 <= self.seconds <= 86400
        &&& self.days >= 0 ==> self.seconds >= 0
        &&& self.days < 0 ==> self.seconds <= 0
        &&& !self.shows_time ==> self.seconds == 0
        &&& self.shows_time ==> self.exports_time
    }
}

impl SerialTime {
    /// Whether the parts belong to one serial number.
    pub fn is_valid(&self) -> (valid: bool)
        ensures
            valid == self@.valid(),
    {
        let text: bool = count_decimal_places(self.text.as_str()).is_some()
            || stands_for_no_finite_number(self.text.as_str());
        let seconds: bool = if self.days >= 0 {
            0 <= self.seconds && self.seconds <= 86400
        } else {
            -86400 <= self.seconds && self.seconds <= 0
        };
        text && seconds && (self.shows_time || self.seconds == 0) && (!self.shows_time
            || self.exports_time)
    }
}

impl View for SerialTime {
    type V = SerialView;

    open spec fn view(&self) -> SerialView {
        SerialView {
            text: self.text@,
            days: self.days as int,
            seconds: self.seconds as int,
            shows_time: self.shows_time,
            exports_time: self.exports_time,
        }
    }
}

impl Clone for SerialTime {
    fn clone(&self) -> (copy: Self)
        ensures
            copy@ == self@,
    {
        SerialTime {
            text: self.text.clone(),
            days: self.days,
            seconds: self.seconds,
            shows_time: self.shows_time,
            exports_time: self.exports_time,
        }
    }
}

/// The errors that a formula can leave in a cell.
#[derive(Debug, Clone, Copy, PartialEq, Eq)]
pub enum CellError {
    Div0,
    NA,
    Name,
    Null,
    Num,
    Ref,
    Value,
    GettingData,
}

/// The name of a cell error.
pub open spec fn cell_error_name(error: CellError) -> Seq<char> {
    match error {
        CellError::Div0 => "Div0"@,
        CellError::NA => "NA"@,
        CellError::Name => "Name"@,
        CellError::Null => "Null"@,
        CellError::Num => "Num"@,
        CellError::Ref => "Ref"@,
        CellError::Value => "Value"@,
        CellError::GettingData => "GettingData"@,
    }
}

impl CellError {
    /// The name of the error.
    pub fn name(self) -> (name: &'static str)
        ensures
            name@ == cell_error_name(self),
    {
        match self {
            CellError::Div0 => "Div0",
            CellError::NA => "NA",
            CellError::Name => "Name",
            CellError::Null => "Null",
            CellError::Num => "Num",
            CellError::Ref => "Ref",
            CellError::Value => "Value",
            CellError::GettingData => "GettingData",
        }
    }
}

/// What a file holds in a cell.
#[derive(Debug, PartialEq)]
pub enum Cell {
    Empty,
    String(String),
    Int(i64),
    Float(FloatText),
    Bool(bool),
    Error(CellError),
    DateTime(SerialTime),
    /// A date or time in ISO 8601.
    DateTimeIso(String),
    /// A duration in ISO 8601.
    DurationIso(String),
}

/// The mathematical value of a [`Cell`].
pub enum CellView {
    Empty,
    String(Seq<char>),
    Int(int),
    Float(FloatView),
    Bool(bool),
    Error(CellError),
    DateTime(SerialView),
    DateTimeIso(Seq<char>),
    DurationIso(Seq<char>),
}

impl View for Cell {
    type V = CellView;

    open spec fn view(&self) -> CellView {
        match self {
            Cell::Empty => CellView::Empty,
            Cell::String(s) => CellView::String(s@),
            Cell::Int(i) => CellView::Int(*i as int),
            Cell::Float(f) => CellView::Float(f@),
            Cell::Bool(b) => CellView::Bool(*b),
            Cell::Error(e) => CellView::Error(*e),
            Cell::DateTime(d) => CellView::DateTime(d@),
            Cell::DateTimeIso(s) => CellView::DateTimeIso(s@),
            Cell::DurationIso(s) => CellView::DurationIso(s@),
        }
    }
}

impl Default for Cell {
    fn default() -> (cell: Self)
        ensures
            cell@ == CellView::Empty,
    {
        Cell::Empty
    }
}

impl Clone for Cell {
    fn clone(&self) -> (copy: Self)
        ensures
            copy@ == self@,
    {
        match self {
            Cell::Empty => Cell::Empty,
            Cell::String(s) => Cell::String(s.clone()),
            Cell::Int(i) => Cell::Int(*i),
            Cell::Float(f) => Cell::Float(f.clone()),
            Cell::Bool(b) => Cell::Bool(*b),
            Cell::Error(e) => Cell::Error(*e),
            Cell::DateTime(d) => Cell::DateTime(d.clone()),
            Cell::DateTimeIso(s) => Cell::DateTimeIso(s.clone()),
            Cell::DurationIso(s) => Cell::DurationIso(s.clone()),
        }
    }
}

impl CellType for Cell {

}

/// A cell value, as sheets and tables hold it.
#[derive(Debug)]
pub enum CellValue {
    Empty,
    String(String),
    Int(i64),
    Float(FloatText),
    Bool(bool),
    Error(String),
    DateTime(SerialTime),
}

/// The mathematical value of a [`CellValue`].
pub enum ValueView {
    Empty,
    String(Seq<char>),
    Int(int),
    Float(FloatView),
    Bool(bool),
    Error(Seq<char>),
    DateTime(SerialView),
}

impl ValueView {
    /// Whether the parts of the value belong together.
    pub open spec fn valid(self) -> bool {
        match self {
            ValueView::Float(f) => f.valid(),
            ValueView::DateTime(d) => d.valid(),
            _ => true,
        }
    }
}

impl View for CellValue {
    type V = ValueView;

    open spec fn view(&self) -> ValueView {
        match self {
            CellValue::Empty => ValueView::Empty,
            CellValue::String(s) => ValueView::String(s@),
            CellValue::Int(i) => ValueView::Int(*i as int),
            CellValue::Float(f) => ValueView::Float(f@),
            CellValue::Bool(b) => ValueView::Bool(*b),
            CellValue::Error(e) => ValueView::Error(e@),
            CellValue::DateTime(d) => ValueView::DateTime(d@),
        }
    }
}

impl Clone for CellValue {
    fn clone(&self) -> (copy: Self)
        ensures
            copy@ == self@,
    {
        match self {
            CellValue::Empty => CellValue::Empty,
            CellValue::String(s) => CellValue::String(s.clone()),
            CellValue::Int(i) => CellValue::Int(*i),
            CellValue::Float(f) => CellValue::Float(f.clone()),
            CellValue::Bool(b) => CellValue::Bool(*b),
            CellValue::Error(e) => CellValue::Error(e.clone()),
            CellValue::DateTime(d) => CellValue::DateTime(d.clone()),
        }
    }
}

/// A truth value as text.
pub open spec fn bool_text(b: bool) -> Seq<char> {
    if b {
        "true"@
    } else {
        "false"@
    }
}

/// A number that is shown without a thousands separator: without decimal places if it is whole.
pub open spec fn plain_float(f: FloatView) -> Seq<char> {
    if f.whole {
        f.rounded
    } else {
        f.shortest
    }
}

/// What is shown of a point in time. The time of day is left out if there is next to none, and
/// a day that no calendar reaches is shown by its number.
pub open spec fn shown_time(d: SerialView) -> Seq<char> {
    if !serial_is_date(d.days) {
        "Date["@ + int_text(d.days).push(']')
    } else if d.shows_time {
        date_text(serial_date(d.days)).push(' ') + clock_text(
            if d.seconds < 0 {
                0
            } else {
                d.seconds
            },
        )
    } else {
        date_text(serial_date(d.days))
    }
}

/// What is exported of a point in time.
pub open spec fn exported_time(d: SerialView) -> Seq<char> {
    if d.exports_time {
        date_text(serial_date(d.days)).push(' ') + clock_text(d.seconds)
    } else {
        date_text(serial_date(d.days))
    }
}

/// What is shown of a value: numbers have thousands separators, and at most two decimal places.
pub open spec fn shown(value: ValueView) -> Seq<char> {
    match value {
        ValueView::Empty => Seq::empty(),
        ValueView::String(s) => s,
        ValueView::Int(i) => group_signed(int_text(i)),
        ValueView::Float(f) => group_number(
            if f.whole {
                f.rounded
            } else {
                f.hundredths
            },
        ),
        ValueView::Bool(b) => bool_text(b),
        ValueView::Error(e) => "ERROR: "@ + e,
        ValueView::DateTime(d) => shown_time(d),
    }
}

/// What is exported of a value.
pub open spec fn exported(value: ValueView) -> Seq<char> {
    match value {
        ValueView::Empty => Seq::empty(),
        ValueView::String(s) => s,
        ValueView::Int(i) => int_text(i),
        ValueView::Float(f) => plain_float(f),
        ValueView::Bool(b) => bool_text(b),
        ValueView::Error(e) => seq!['#'] + e,
        ValueView::DateTime(d) => exported_time(d),
    }
}

/// Whether a value can be shown: all can, but for days that no time span reaches.
pub open spec fn can_show(value: ValueView) -> bool {
    value matches ValueView::DateTime(d) ==> serial_in_span(d.days)
}

/// Whether a value can be exported: all can, but for days that no calendar reaches.
pub open spec fn can_export(value: ValueView) -> bool {
    value matches ValueView::DateTime(d) ==> serial_is_date(d.days)
}

/// Appends a truth value to `out`.
pub(crate) fn push_bool(out: &mut String, b: bool)
    ensures
        final(out)@ == old(out)@ + bool_text(b),
{
    if b {
        out.append("true");
    } else {
        out.append("false");
    }
}

impl CellValue {
    /// Whether there is nothing in the cell.
    pub fn is_empty(&self) -> (empty: bool)
        ensures
            empty == (self@ is Empty),
    {
        matches!(self, CellValue::Empty)
    }

    /// Whether the cell holds a number.
    pub fn is_numeric(&self) -> (numeric: bool)
        ensures
            numeric == (self@ is Int || self@ is Float),
    {
        matches!(self, CellValue::Int(_) | CellValue::Float(_))
    }

    /// Whether the value can be shown: all can, but for days that no time span reaches.
    pub fn can_be_shown(&self) -> (can: bool)
        ensures
            can == can_show(self@),
    {
        match self {
            CellValue::DateTime(d) => is_serial_in_span(d.days),
            _ => true,
        }
    }

    /// Whether the value can be exported: all can, but for days that no calendar reaches.
    pub fn can_be_exported(&self) -> (can: bool)
        ensures
            can == can_export(self@),
    {
        match self {
            CellValue::DateTime(d) => {
                proof {
                    if serial_is_date(d.days as int) {
                        lemma_dates_are_in_span(d.days as int);
                    }
                }
                is_serial_in_span(d.days) && date_of_serial(d.days).is_some()
            },
            _ => true,
        }
    }

    /// The unformatted value, for export and the clipboard.
    pub fn to_raw_string(&self) -> (text: String)
        requires
            can_export(self@),
        ensures
            text@ == exported(self@),
    {
        let mut text = String::new();
        match self {
            CellValue::Empty => {},
            CellValue::String(s) => {
                text.append(s.as_str());
            },
            CellValue::Int(i) => {
                push_int(&mut text, *i);
            },
            CellValue::Float(f) => {
                if f.whole {
                    text.append(f.rounded.as_str());
                } else {
                    text.append(f.shortest.as_str());
                }
            },
            CellValue::Bool(b) => {
                push_bool(&mut text, *b);
            },
            CellValue::Error(e) => {
                text.push('#');
                text.append(e.as_str());
            },
            CellValue::DateTime(d) => {
                proof {
                    lemma_dates_are_in_span(d.days as int);
                }
                if let Some(date) = date_of_serial(d.days) {
                    push_formatted_date(&mut text, date);
                    if d.exports_time {
                        text.push(' ');
                        push_clock(&mut text, d.seconds);
                    }
                }
            },
        }
        text
    }

    /// The value as it is shown.
    pub fn to_string(&self) -> (text: String)
        requires
            can_show(self@),
        ensures
            text@ == shown(self@),
    {
        let mut text = String::new();
        match self {
            CellValue::Empty => {},
            CellValue::String(s) => {
                text.append(s.as_str());
            },
            CellValue::Int(i) => {
                let mut digits = String::new();
                push_int(&mut digits, *i);
                let chars: Vec<char> = chars_of(digits.as_str());
                push_group_signed(&mut text, chars.as_slice(), 0, chars.len());
                assert(chars@.subrange(0, chars@.len() as int) == chars@);
            },
            CellValue::Float(f) => {
                if f.whole {
                    push_group_number(&mut text, f.rounded.as_str());
                } else {
                    push_group_number(&mut text, f.hundredths.as_str());
                }
            },
            CellValue::Bool(b) => {
                push_bool(&mut text, *b);
            },
            CellValue::Error(e) => {
                text.append("ERROR: ");
                text.append(e.as_str());
            },
            CellValue::DateTime(d) => {
                match date_of_serial(d.days) {
                    Some(date) => {
                        push_date(&mut text, date);
                        if d.shows_time {
                            text.push(' ');
                            push_clock(
                                &mut text,
                                if d.seconds < 0 {
                                    0
                                } else {
                                    d.seconds
                                },
                            );
                        }
                    },
                    None => {
                        text.append("Date[");
                        push_int(&mut text, d.days);
                        text.push(']');
                    },
                }
            },
        }
        text
    }
}

}
