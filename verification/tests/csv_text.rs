use xleak::cell::Cell;
use xleak::csv::{
    csv_content_to_range, ensure_csv_sheet_name, parse_csv_records, records_fit_in_range,
};
use xleak::error::WorkbookError;

fn records(content: &str) -> Vec<Vec<String>> {
    match parse_csv_records(content) {
        Ok(records) => records,
        Err(error) => panic!("{}", error.message()),
    }
}

fn written(field: &str) -> String {
    if field.contains([',', '"', '\n', '\r']) {
        format!("\"{}\"", field.replace('"', "\"\""))
    } else {
        field.to_string()
    }
}

#[test]
fn test_parse_csv_records_handles_quotes_and_newlines() {
    let rows = parse_csv_records("Name,Note\nAlice,\"Hello, CSV\"\nBob,\"Line 1\nLine 2\"\n")
        .expect("CSV should parse");

    assert_eq!(rows.len(), 3);
    assert_eq!(rows[1], vec!["Alice", "Hello, CSV"]);
    assert_eq!(rows[2], vec!["Bob", "Line 1\nLine 2"]);
}

#[test]
fn empty_text_has_no_records() {
    assert!(records("").is_empty());
}

#[test]
fn line_ends_end_records() {
    for end in ["\n", "\r", "\r\n"] {
        let open = format!("a,b{end}c,d");
        let closed = format!("a,b{end}c,d{end}");
        assert_eq!(records(&open), vec![vec!["a", "b"], vec!["c", "d"]]);
        assert_eq!(records(&closed), records(&open));
    }
    assert_eq!(records("a\n\rb"), vec![vec!["a"], vec![""], vec!["b"]]);
    assert_eq!(records("\n"), vec![vec![""]]);
    assert_eq!(records("\r\n\r\n"), vec![vec![""], vec![""]]);
}

#[test]
fn the_last_field_may_be_empty() {
    assert_eq!(records("a,"), vec![vec!["a", ""]]);
    assert_eq!(records(","), vec![vec!["", ""]]);
    assert_eq!(records("\"\""), vec![vec![""]]);
    assert_eq!(records("a\n\"\""), vec![vec!["a"], vec![""]]);
}

#[test]
fn quotes_open_only_at_the_start_of_a_field() {
    assert_eq!(records("a\"b\",c"), vec![vec!["a\"b\"", "c"]]);
    assert_eq!(records("\"a\"b"), vec![vec!["ab"]]);
    assert_eq!(records("\"a\"\"b\""), vec![vec!["a\"b"]]);
    assert_eq!(records("\"\"\"\""), vec![vec!["\""]]);
}

#[test]
fn open_quotes_are_refused() {
    for content in ["\"", "\"a", "a,\"b\n", "x\n\"a\"\"", "\"a\r\n"] {
        let error = parse_csv_records(content).unwrap_err();
        assert!(matches!(error, WorkbookError::UnterminatedQuote));
        assert_eq!(error.message(), "Invalid CSV: unterminated quoted field");
    }
}

#[test]
fn byte_order_marks_are_ignored() {
    assert_eq!(records("\u{feff}a,b"), vec![vec!["a", "b"]]);
    assert_eq!(records("\u{feff}\u{feff}a"), vec![vec!["a"]]);
    assert_eq!(records("\u{feff}"), vec![vec![""]]);
    assert_eq!(records("a,\u{feff}b"), vec![vec!["a", "\u{feff}b"]]);
    assert_eq!(records("\u{feff}\"a\""), vec![vec!["\"a\""]]);
    assert_eq!(records("\u{feff}x\ny,\"z\""), records("x\ny,\"z\""));
}

#[test]
fn written_records_read_back() {
    let table = vec![
        vec!["plain", "with, comma", "with \"quotes\""],
        vec!["", "two\nlines", "\r"],
        vec!["\""],
        vec!["", ""],
        vec!["\u{e9}\u{4e2d}\u{1f600}", "last"],
    ];
    for end in ["\n", "\r", "\r\n"] {
        let lines: Vec<String> = table
            .iter()
            .map(|record| record.iter().map(|f| written(f)).collect::<Vec<_>>().join(","))
            .collect();
        assert_eq!(records(&lines.join(end)), table);
        assert_eq!(records(&format!("{}{end}", lines.join(end))), table);
    }
}

#[test]
fn readable_text_has_records_with_fields() {
    for content in ["a", "\n", "\r", ",", "\"\"", "\"\"\n", "a,\n\n,b"] {
        let rows = records(content);
        assert!(!rows.is_empty());
        assert!(rows.iter().all(|row| !row.is_empty()));
    }
}

#[test]
fn short_records_are_filled_up() {
    let range = csv_content_to_range("a,b,c\nd\n,e\n").unwrap();
    assert_eq!(range.get_size(), (3, 3));
    let text = |s: &str| Cell::String(s.to_string());
    let rows: Vec<&[Cell]> = range.rows().collect();
    assert_eq!(rows[0], [text("a"), text("b"), text("c")]);
    assert_eq!(rows[1], [text("d"), Cell::Empty, Cell::Empty]);
    assert_eq!(rows[2], [Cell::Empty, text("e"), Cell::Empty]);
}

#[test]
fn empty_text_makes_an_empty_range() {
    let range = csv_content_to_range("").unwrap();
    assert!(range.is_empty());
    assert_eq!(range.get_size(), (0, 0));
}

#[test]
fn unreadable_text_makes_no_range() {
    assert!(matches!(
        csv_content_to_range("\"a"),
        Err(WorkbookError::UnterminatedQuote)
    ));
}

#[test]
fn small_tables_fit_in_a_range() {
    assert!(records_fit_in_range(&records("a,b\nc\n")));
    assert!(records_fit_in_range(&Vec::new()));
}

#[test]
fn wide_and_long_tables_do_not_fit_in_a_range() {
    let mut table: Vec<Vec<String>> = vec![Vec::new(); 70_000];
    table[3] = vec![String::new(); 70_000];
    assert!(!records_fit_in_range(&table));
}

#[test]
fn only_the_sheet_of_the_file_is_there() {
    assert!(ensure_csv_sheet_name("data", "data").is_ok());
    let error = ensure_csv_sheet_name("Data", "data").unwrap_err();
    assert_eq!(error.message(), "Sheet 'Data' not found. Available sheets: data");
}

#[test]
fn line_ends_read_alike() {
    let expected = records("a,\"x\r\ny\"\n\n\"b\"\"\n\",c\nd\n");
    for end in ["\n", "\r", "\r\n"] {
        let content = format!("a,\"x\r\ny\"{end}{end}\"b\"\"\n\",c{end}d{end}");
        assert_eq!(records(&content), expected);
    }
    for end in ["\n", "\r", "\r\n"] {
        assert!(parse_csv_records(&format!("a{end}\"b{end}")).is_err());
    }
}

#[test]
fn a_text_behind_a_line_end_adds_its_records() {
    for front in ["a,b\n", "\n", "\u{feff}a\r\n", "a\r"] {
        for behind in ["", "c", "c,\"d\ne\"\nf\n", "\u{feff}c", ",\n"] {
            let mut expected = records(front);
            if behind == "\u{feff}c" {
                expected.push(vec!["\u{feff}c".to_string()]);
            } else {
                expected.extend(records(behind));
            }
            assert_eq!(records(&format!("{front}{behind}")), expected);
        }
        assert!(parse_csv_records(&format!("{front}\"c")).is_err());
    }
    assert_eq!(records("a\r\nb"), vec![vec!["a"], vec!["b"]]);
}

#[test]
fn one_closing_quote_mends_an_unreadable_text() {
    for content in ["\"", "a,\"b\nc", "\"a\"\"", "x\n\"\"\"", "\"a\r"] {
        assert!(parse_csv_records(content).is_err(), "{content:?}");
        assert!(parse_csv_records(&format!("{content}\"")).is_ok(), "{content:?}");
    }
    assert_eq!(records("a,\"b\nc\""), vec![vec!["a", "b\nc"]]);
}

#[test]
fn csv_ranges_start_at_the_corner_of_the_sheet() {
    let sizes = [("a,b\nc", (2, 2)), ("\n", (1, 1)), ("\u{feff}", (1, 1)), (",", (1, 2))];
    for (content, size) in sizes {
        let range = csv_content_to_range(content).expect("CSV should parse");
        assert_eq!(range.start(), Some((0, 0)));
        assert_eq!(range.get_size(), size);
    }
    let range = csv_content_to_range("").expect("CSV should parse");
    assert_eq!(range.start(), None);
    assert_eq!(range.get_size(), (0, 0));
}
