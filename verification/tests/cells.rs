use xleak::calendar::{date_of_serial, is_serial_in_span, CivilDate};
use xleak::cell::{Cell, CellError, CellValue, FloatText, SerialTime};
use xleak::display::{
    format_cell_for_display, marker_columns_can_be_shown, row_uses_percentage_display,
};
use xleak::sheet::SheetData;

fn float(val: f64) -> FloatText {
    FloatText {
        whole: val.fract() == 0.0,
        rounded: format!("{val:.0}"),
        hundredths: format!("{val:.2}"),
        shortest: val.to_string(),
        percent: format!("{:.1}", val * 100.0),
    }
}

fn serial(val: f64) -> SerialTime {
    SerialTime {
        text: val.to_string(),
        days: val.floor() as i64,
        seconds: (val.fract() * 86400.0).round() as i64,
        shows_time: val.fract().abs() > 0.000001,
        exports_time: !(val.fract().abs() < 0.0000001),
    }
}

fn date_time(val: f64) -> CellValue {
    CellValue::DateTime(serial(val))
}

#[test]
fn test_cellvalue_display_integer() {
    let val = CellValue::Int(1234567);
    assert_eq!(val.to_string(), "1,234,567");
}

#[test]
fn test_cellvalue_display_negative_integer() {
    let val = CellValue::Int(-1234567);
    assert_eq!(val.to_string(), "-1,234,567");
}

#[test]
fn test_cellvalue_display_float() {
    let val = CellValue::Float(float(1234567.89));
    assert_eq!(val.to_string(), "1,234,567.89");
}

#[test]
fn test_row_uses_percentage_display() {
    let row = vec![
        CellValue::String("Gross margin %".to_string()),
        CellValue::Empty,
        CellValue::Float(float(0.222)),
    ];
    assert!(row_uses_percentage_display(&row, &[1, 2]));
    assert!(!row_uses_percentage_display(&row, &[2]));
}

#[test]
fn test_format_cell_for_display_percentage_row() {
    let row = vec![
        CellValue::String("Margin".to_string()),
        CellValue::String("%".to_string()),
        CellValue::Float(float(0.222)),
    ];
    assert_eq!(format_cell_for_display(&row[2], &row, &[1, 2]), "22.2%");
}

#[test]
fn test_cellvalue_display_float_whole_number() {
    let val = CellValue::Float(float(1000.0));
    assert_eq!(val.to_string(), "1,000");
}

#[test]
fn test_cellvalue_display_boolean() {
    assert_eq!(CellValue::Bool(true).to_string(), "true");
    assert_eq!(CellValue::Bool(false).to_string(), "false");
}

#[test]
fn test_cellvalue_display_string() {
    let val = CellValue::String("Hello, World!".to_string());
    assert_eq!(val.to_string(), "Hello, World!");
}

#[test]
fn test_cellvalue_display_empty() {
    let val = CellValue::Empty;
    assert_eq!(val.to_string(), "");
}

#[test]
fn test_cellvalue_display_error() {
    let val = CellValue::Error("DIV/0!".to_string());
    assert_eq!(val.to_string(), "ERROR: DIV/0!");
}

#[test]
fn test_cellvalue_to_raw_string_integer() {
    let val = CellValue::Int(1234567);
    assert_eq!(val.to_raw_string(), "1234567");
}

#[test]
fn test_cellvalue_to_raw_string_float() {
    let val = CellValue::Float(float(123.45));
    assert_eq!(val.to_raw_string(), "123.45");
}

#[test]
fn test_cellvalue_is_empty() {
    assert!(CellValue::Empty.is_empty());
    assert!(!CellValue::Int(0).is_empty());
    assert!(!CellValue::String("".to_string()).is_empty());
}

#[test]
fn test_cellvalue_is_numeric() {
    assert!(CellValue::Int(123).is_numeric());
    assert!(CellValue::Float(float(123.45)).is_numeric());
    assert!(!CellValue::String("123".to_string()).is_numeric());
    assert!(!CellValue::Empty.is_numeric());
}

#[test]
fn test_datetime_display() {
    let val = date_time(1.0);
    let display = val.to_string();
    assert!(display.contains("1900") || display.contains("1899"));
}

#[test]
fn test_datetime_with_time() {
    let val = date_time(1.5);
    let display = val.to_string();
    assert!(display.contains(":"));
    assert!(display.len() > 10);
}

#[test]
fn integers_are_grouped_in_threes() {
    assert_eq!(CellValue::Int(0).to_string(), "0");
    assert_eq!(CellValue::Int(999).to_string(), "999");
    assert_eq!(CellValue::Int(-999).to_string(), "-999");
    assert_eq!(CellValue::Int(1000).to_string(), "1,000");
    assert_eq!(CellValue::Int(-123456).to_string(), "-123,456");
    assert_eq!(CellValue::Int(i64::MAX).to_string(), "9,223,372,036,854,775,807");
    assert_eq!(CellValue::Int(i64::MIN).to_string(), "-9,223,372,036,854,775,808");
}

#[test]
fn shown_integers_only_add_commas() {
    for i in [0, 7, -7, 1000, -1000, 123456789, i64::MIN, i64::MAX] {
        let value = CellValue::Int(i);
        assert_eq!(value.to_string().replace(',', ""), value.to_raw_string());
        assert_eq!(value.to_raw_string(), i.to_string());
    }
}

#[test]
fn floats_are_grouped_before_the_point() {
    assert_eq!(CellValue::Float(float(-1234.5)).to_string(), "-1,234.50");
    assert_eq!(CellValue::Float(float(0.125)).to_string(), "0.12");
    assert_eq!(CellValue::Float(float(-123.456)).to_string(), "-123.46");
    assert_eq!(CellValue::Float(float(1e15)).to_string(), "1,000,000,000,000,000");
    assert_eq!(CellValue::Float(float(f64::NAN)).to_string(), "NaN");
    assert_eq!(CellValue::Float(float(f64::NEG_INFINITY)).to_string(), "-inf");
}

#[test]
fn whole_floats_are_exported_without_decimals() {
    assert_eq!(CellValue::Float(float(1000.0)).to_raw_string(), "1000");
    assert_eq!(CellValue::Float(float(-2.0)).to_raw_string(), "-2");
}

#[test]
fn plain_values_are_exported_as_they_are() {
    assert_eq!(CellValue::Empty.to_raw_string(), "");
    assert_eq!(CellValue::String("a,b".to_string()).to_raw_string(), "a,b");
    assert_eq!(CellValue::Bool(true).to_raw_string(), "true");
    assert_eq!(CellValue::Bool(false).to_raw_string(), "false");
    assert_eq!(CellValue::Error("Div0".to_string()).to_raw_string(), "#Div0");
}

#[test]
fn dates_follow_the_serial_numbers() {
    assert_eq!(date_time(0.0).to_string(), "1899-12-31");
    assert_eq!(date_time(1.0).to_string(), "1900-01-01");
    assert_eq!(date_time(59.0).to_string(), "1900-02-28");
    assert_eq!(date_time(60.0).to_string(), "1900-03-01");
    assert_eq!(date_time(61.0).to_string(), "1900-03-01");
    assert_eq!(date_time(45292.0).to_string(), "2024-01-01");
    assert_eq!(date_time(45292.0).to_raw_string(), "2024-01-01");
}

#[test]
fn times_follow_the_fraction_of_the_day() {
    assert_eq!(date_time(1.5).to_string(), "1900-01-01 12:00:00");
    assert_eq!(date_time(1.5).to_raw_string(), "1900-01-01 12:00:00");
    assert_eq!(date_time(45292.75).to_string(), "2024-01-01 18:00:00");
    assert_eq!(date_time(2.0 + 3661.0 / 86400.0).to_string(), "1900-01-02 01:01:01");
    assert_eq!(date_time(2.0 + 86399.9 / 86400.0).to_string(), "1900-01-02 24:00:00");
}

#[test]
fn times_before_the_epoch_keep_their_sign_in_export_only() {
    assert_eq!(date_time(-0.5).to_string(), "1899-12-30 00:00:00");
    assert_eq!(date_time(-0.5).to_raw_string(), "1899-12-30 -12:00:00");
    assert_eq!(date_time(-3661.0 / 86400.0).to_raw_string(), "1899-12-30 -1:-1:-1");
}

#[test]
fn tiny_fractions_are_no_time() {
    assert_eq!(date_time(0.0000005).to_string(), "1899-12-31");
    assert_eq!(date_time(0.0000005).to_raw_string(), "1899-12-31 00:00:00");
    assert_eq!(date_time(0.00000005).to_raw_string(), "1899-12-31");
}

#[test]
fn years_beyond_four_digits_have_a_sign() {
    assert_eq!(date_time(2958466.0).to_string(), "+10000-01-01");
    assert_eq!(date_time(2958466.0).to_raw_string(), "+10000-01-01");
    assert_eq!(date_time(-693961.0).to_string(), "-0001-12-31");
    assert_eq!(date_time(-693961.0).to_raw_string(), "-0001-12-31");
    assert_eq!(date_time(-693594.0).to_string(), "0001-01-01");
}

#[test]
fn days_beyond_the_calendar_are_shown_by_number() {
    let far = date_time(200_000_000.0);
    assert!(far.can_be_shown());
    assert!(!far.can_be_exported());
    assert_eq!(far.to_string(), "Date[200000000]");
    assert_eq!(date_time(-200_000_000.0).to_string(), "Date[-200000000]");
    assert!(date_time(1.0).can_be_exported());
    assert!(CellValue::Empty.can_be_shown());
    assert!(CellValue::Empty.can_be_exported());
}

#[test]
fn days_beyond_a_time_span_cannot_be_shown() {
    assert!(is_serial_in_span(106_751_991_168));
    assert!(!is_serial_in_span(106_751_991_169));
    assert!(is_serial_in_span(-106_751_991_167));
    assert!(!is_serial_in_span(-106_751_991_168));
    assert!(!is_serial_in_span(i64::MAX));
    assert!(!is_serial_in_span(i64::MIN));
    assert_eq!(date_of_serial(106_751_991_168), None);
    assert_eq!(date_of_serial(-106_751_991_167), None);
    assert!(!date_time(1e300).can_be_shown());
    assert!(!date_time(1e300).can_be_exported());
}

#[test]
fn the_first_and_the_last_date_are_reached() {
    let last = CivilDate { year: 262142, month: 12, day: 31 };
    let first = CivilDate { year: -262143, month: 1, day: 1 };
    assert_eq!(date_of_serial(95_051_805), Some(last));
    assert_eq!(date_of_serial(95_051_806), None);
    assert_eq!(date_of_serial(-96_439_724), Some(first));
    assert_eq!(date_of_serial(-96_439_725), None);
    assert_eq!(
        date_of_serial(45352),
        Some(CivilDate { year: 2024, month: 3, day: 1 })
    );
}

#[test]
fn integers_of_percentage_rows_are_percentages() {
    let row = vec![CellValue::String("%".to_string()), CellValue::Int(3)];
    assert_eq!(format_cell_for_display(&row[1], &row, &[1]), "300.0%");
    assert_eq!(format_cell_for_display(&CellValue::Int(0), &row, &[1]), "0.0%");
    assert_eq!(format_cell_for_display(&CellValue::Int(-42), &row, &[1]), "-4200.0%");
    assert_eq!(format_cell_for_display(&row[1], &row, &[2]), "3");
    assert_eq!(format_cell_for_display(&row[0], &row, &[1]), "%");
}

#[test]
fn large_percentages_are_rounded_as_doubles_are() {
    let row = vec![CellValue::String("%".to_string())];
    let mut numbers = vec![
        i64::MAX,
        i64::MIN,
        i64::MIN + 1,
        9_007_199_254_740_991,
        9_007_199_254_740_992,
        9_007_199_254_740_993,
        9_007_199_254_740_995,
        -9_007_199_254_740_993,
        90_071_992_547_409,
        90_071_992_547_410,
        123_456_789_012_345_678,
    ];
    let mut n: i64 = 1;
    for _ in 0..500 {
        n = n.wrapping_mul(6_364_136_223_846_793_005).wrapping_add(1_442_695_040_888_963_407);
        numbers.push(n);
        numbers.push(n >> 7);
    }
    for i in numbers {
        let expected = format!("{:.1}%", (i as f64) * 100.0);
        assert_eq!(format_cell_for_display(&CellValue::Int(i), &row, &[1]), expected);
    }
}

#[test]
fn missing_columns_mark_no_row() {
    let row = vec![CellValue::String("5%".to_string())];
    assert!(!row_uses_percentage_display(&row, &[]));
    assert!(!row_uses_percentage_display(&row, &[0]));
    assert!(!row_uses_percentage_display(&row, &[2, usize::MAX]));
    assert!(row_uses_percentage_display(&row, &[0, 2, 1]));
    assert!(!row_uses_percentage_display(&[CellValue::Int(5)], &[1]));
    assert!(row_uses_percentage_display(&[CellValue::Error("%".to_string())], &[1]));
}

#[test]
fn markers_are_searched_up_to_the_first_sign() {
    let row = vec![CellValue::String("%".to_string()), date_time(1e300)];
    assert!(marker_columns_can_be_shown(&row, &[1, 2]));
    assert!(!marker_columns_can_be_shown(&row, &[2, 1]));
    assert!(marker_columns_can_be_shown(&row, &[3, 0]));
    assert!(row_uses_percentage_display(&row, &[1, 2]));
}

#[test]
fn headers_show_cells_plainly() {
    let header = |cell: Cell| SheetData::cell_to_string(&cell);
    assert_eq!(header(Cell::Empty), "");
    assert_eq!(header(Cell::String("Name".to_string())), "Name");
    assert_eq!(header(Cell::Int(-2024)), "-2024");
    assert_eq!(header(Cell::Float(float(2024.0))), "2024");
    assert_eq!(header(Cell::Float(float(1234.5))), "1234.5");
    assert_eq!(header(Cell::Bool(true)), "true");
    assert_eq!(header(Cell::Error(CellError::Div0)), "ERROR: Div0");
    assert_eq!(header(Cell::DateTime(serial(45292.5))), "Date(45292.5)");
    assert_eq!(header(Cell::DateTimeIso("2024-01-01".to_string())), "2024-01-01");
    assert_eq!(header(Cell::DurationIso("PT1H".to_string())), "PT1H");
}

#[test]
fn cells_become_values() {
    let value = |cell: Cell| SheetData::datatype_to_cellvalue(&cell);
    assert!(matches!(value(Cell::Empty), CellValue::Empty));
    assert!(matches!(value(Cell::String("a".to_string())), CellValue::String(s) if s == "a"));
    assert!(matches!(value(Cell::Int(4)), CellValue::Int(4)));
    assert!(matches!(value(Cell::Float(float(0.5))), CellValue::Float(f) if f == float(0.5)));
    assert!(matches!(value(Cell::Bool(true)), CellValue::Bool(true)));
    assert!(matches!(value(Cell::DateTime(serial(2.0))), CellValue::DateTime(d) if d == serial(2.0)));
    assert!(matches!(value(Cell::DateTimeIso("i".to_string())), CellValue::String(s) if s == "i"));
    assert!(matches!(value(Cell::DurationIso("p".to_string())), CellValue::String(s) if s == "p"));
}

#[test]
fn errors_are_kept_by_the_names_of_their_kinds() {
    let pairs = [
        (CellError::Div0, calamine::CellErrorType::Div0),
        (CellError::NA, calamine::CellErrorType::NA),
        (CellError::Name, calamine::CellErrorType::Name),
        (CellError::Null, calamine::CellErrorType::Null),
        (CellError::Num, calamine::CellErrorType::Num),
        (CellError::Ref, calamine::CellErrorType::Ref),
        (CellError::Value, calamine::CellErrorType::Value),
        (CellError::GettingData, calamine::CellErrorType::GettingData),
    ];
    for (error, kind) in pairs {
        let name = format!("{kind:?}");
        assert_eq!(error.name(), name);
        let value = SheetData::datatype_to_cellvalue(&Cell::Error(error));
        assert_eq!(value.to_string(), format!("ERROR: {name}"));
        assert_eq!(value.to_raw_string(), format!("#{name}"));
    }
}

/// Numbers of every size, whole and not, and those that are not finite.
fn numbers() -> Vec<f64> {
    vec![
        0.0, -0.0, 0.1, -0.004, 0.005, 1.0, -1.5, 59.999_999_9, 1234.5, -1_234_567.891, 45292.5,
        1e15, 1e21, 1e300, -1e307, 2f64.powi(70), f64::MAX, f64::MIN, f64::MIN_POSITIVE, f64::EPSILON,
        f64::NAN, f64::INFINITY, f64::NEG_INFINITY,
    ]
}

#[test]
fn the_texts_of_numbers_are_valid() {
    for number in numbers() {
        assert!(float(number).is_valid(), "{number:?}");
        assert!(serial(number).is_valid(), "{number:?}");
    }
}

#[test]
fn texts_of_another_form_are_not_valid() {
    for text in ["", "-", "--1", "+1", "1.0", "1,000", "x", "inf ", "1e5", "."] {
        let mut number = float(1.5);
        number.rounded = text.to_string();
        assert!(!number.is_valid(), "{text}");
    }
    for text in ["", "1", "1.5", "1.500", ".50", "1.", "1.5x", "1..0", "NaN", "1.50%"] {
        let mut number = float(1.5);
        number.hundredths = text.to_string();
        assert!(!number.is_valid(), "{text}");
    }
    let mut number = float(1.5);
    number.shortest = "one".to_string();
    assert!(!number.is_valid());
    let mut number = float(1.5);
    number.percent = "150".to_string();
    assert!(!number.is_valid());
    let mut number = float(f64::NAN);
    number.whole = true;
    assert!(!number.is_valid());
}

#[test]
fn parts_of_different_times_are_not_valid() {
    let mut time = serial(2.5);
    time.seconds = 86401;
    assert!(!time.is_valid());
    let mut time = serial(2.5);
    time.seconds = -43200;
    assert!(!time.is_valid());
    let mut time = serial(-2.5);
    time.seconds = 43200;
    assert!(!time.is_valid());
    let mut time = serial(2.5);
    time.shows_time = false;
    assert!(!time.is_valid());
    let mut time = serial(2.5);
    time.exports_time = false;
    assert!(!time.is_valid());
    let mut time = serial(2.5);
    time.text = "noon".to_string();
    assert!(!time.is_valid());
}

#[test]
fn shown_floats_have_two_places_or_none() {
    for number in numbers() {
        let shown = CellValue::Float(float(number)).to_string();
        let plain = shown.replace(',', "");
        if number.fract() == 0.0 {
            assert_eq!(plain, format!("{number:.0}"));
            assert_eq!(plain, CellValue::Float(float(number)).to_raw_string());
        } else {
            assert_eq!(plain, format!("{number:.2}"));
        }
    }
}

#[test]
fn only_texts_and_errors_mark_a_percentage_row() {
    for number in numbers() {
        let row = [CellValue::Float(float(number)), date_time(1.5), CellValue::Int(-5)];
        assert!(!row_uses_percentage_display(&row, &[1, 2, 3]));
    }
    let row = [CellValue::Error("50%".to_string()), CellValue::String("%".to_string())];
    assert!(row_uses_percentage_display(&row, &[1]));
    assert!(row_uses_percentage_display(&row, &[2]));
}

#[test]
fn percentages_have_one_place() {
    let row = [CellValue::String("%".to_string()), CellValue::Float(float(0.1256))];
    assert_eq!(format_cell_for_display(&row[1], &row, &[1]), "12.6%");
    let large = CellValue::Float(float(1e307));
    assert_eq!(format_cell_for_display(&large, &row, &[1]), "inf%");
}

#[test]
fn dates_sort_as_their_serial_numbers() {
    let serials = [-693594.0, -1.0, 0.0, 1.0, 59.0, 60.0, 62.0, 366.5, 367.25, 45292.0, 2958465.75];
    for pair in serials.windows(2) {
        let (before, after) = (date_time(pair[0]), date_time(pair[1]));
        assert!(before.to_string() < after.to_string(), "{pair:?}");
        assert!(before.to_raw_string() < after.to_raw_string(), "{pair:?}");
    }
    assert_eq!(date_time(60.0).to_string(), date_time(61.0).to_string());
}

#[test]
fn times_sort_within_a_day() {
    let times = [45292.0, 45292.1, 45292.25, 45292.5, 45292.51, 45292.999];
    for pair in times.windows(2) {
        assert!(date_time(pair[0]).to_string() < date_time(pair[1]).to_string(), "{pair:?}");
    }
}

#[test]
fn a_time_that_is_too_small_to_show_is_exported_as_midnight() {
    let value = date_time(45292.0000005);
    assert_eq!(value.to_string(), "2024-01-01");
    assert_eq!(value.to_raw_string(), "2024-01-01 00:00:00");
    let value = date_time(45292.5);
    assert_eq!(value.to_string(), value.to_raw_string());
}
