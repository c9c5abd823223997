use calamine::Range;
use xleak::cell::{Cell, CellValue};
use xleak::error::WorkbookError;
use xleak::sheet::{LazySheetData, SheetData, Table, TableData};
use xleak::workbook::{OpenRequest, Workbook, WorkbookSource};

fn text(s: &str) -> Cell {
    Cell::String(s.to_string())
}

/// Four rows of three cells from row 2 and column 1 of a sheet on.
fn cells() -> Range<Cell> {
    let mut range = Range::new((2, 1), (5, 3));
    for row in 0..4usize {
        for column in 0..3usize {
            range[(row, column)] = text(&format!("{row}{column}"));
        }
    }
    range[(0, 0)] = Cell::Int(1000);
    range[(3, 2)] = Cell::Empty;
    range
}

/// Formulas in rows 1 to 4 and columns 1 to 3 of a sheet.
fn formulas() -> Range<String> {
    let mut range: Range<String> = Range::new((1, 1), (4, 3));
    range[(0, 0)] = "A1".to_string();
    range[(1, 1)] = "B2".to_string();
    range[(2, 2)] = "too far right".to_string();
    range[(3, 0)] = "too far down".to_string();
    range
}

fn shown(rows: &[Vec<CellValue>]) -> Vec<Vec<String>> {
    rows.iter()
        .map(|row| row.iter().map(|value| value.to_string()).collect())
        .collect()
}

fn excel() -> Workbook {
    Workbook::from_excel(Some(true)).unwrap()
}

fn csv(content: &str) -> Workbook {
    Workbook::from_csv("data".to_string(), Some(content.to_string())).unwrap()
}

#[test]
fn test_sheet_data_structure() {
    let sheet = SheetData {
        headers: vec!["Name".to_string(), "Age".to_string()],
        rows: vec![
            vec![CellValue::String("Alice".to_string()), CellValue::Int(30)],
            vec![CellValue::String("Bob".to_string()), CellValue::Int(25)],
        ],
        formulas: vec![vec![None, None], vec![None, None]],
        width: 2,
        height: 2,
    };

    assert_eq!(sheet.width, 2);
    assert_eq!(sheet.height, 2);
    assert_eq!(sheet.headers.len(), 2);
    assert_eq!(sheet.rows.len(), 2);
}

#[test]
fn test_workbook_open_csv_file() {
    let sheet_name = "xleak_test_csv".to_string();
    let content = "Name,Age,Note\nAlice,30,\"Hello, CSV\"\nBob,25,\"Line 1\nLine 2\"\n\"Charlie \"\"CJ\"\"\",,\"Uses quotes\"";

    let request = Workbook::open(Some("csv"), Some(&sheet_name));
    let name = match request {
        OpenRequest::Csv { sheet_name } => sheet_name,
        OpenRequest::Excel => panic!("CSV should open"),
    };
    let wb = Workbook::from_csv(name, Some(content.to_string())).expect("CSV should open");
    assert_eq!(wb.sheet_names(Vec::new()), vec![sheet_name.clone()]);

    assert!(wb.cells_fit(&sheet_name));
    let data = wb.load_sheet(&sheet_name, None, None).expect("CSV sheet should load");

    assert_eq!(data.headers, vec!["Name", "Age", "Note"]);
    assert_eq!(data.width, 3);
    assert_eq!(data.height, 3);
    assert_eq!(data.rows[0][2].to_raw_string(), "Hello, CSV");
    assert_eq!(data.rows[1][2].to_raw_string(), "Line 1\nLine 2");
    assert_eq!(data.rows[2][0].to_raw_string(), "Charlie \"CJ\"");
    assert!(matches!(data.rows[2][1], CellValue::Empty));
}

#[test]
fn the_first_row_is_the_header() {
    let sheet = SheetData::from_range_with_formulas(cells(), None);
    assert_eq!(sheet.headers, vec!["1000", "01", "02"]);
    assert_eq!(
        shown(&sheet.rows),
        vec![vec!["10", "11", "12"], vec!["20", "21", "22"], vec!["30", "31", ""]]
    );
    assert_eq!(sheet.formulas, vec![vec![None::<String>; 3]; 3]);
    assert_eq!((sheet.width, sheet.height), (3, 3));
}

#[test]
fn formulas_stand_at_their_place_in_the_sheet() {
    let sheet = SheetData::from_range_with_formulas(cells(), Some(formulas()));
    let mut expected = vec![vec![None; 3]; 3];
    expected[0][1] = Some("A1".to_string());
    expected[1][2] = Some("B2".to_string());
    assert_eq!(sheet.formulas, expected);
}

#[test]
fn formulas_of_the_header_are_left_out() {
    let mut range: Range<String> = Range::new((0, 0), (1, 1));
    range[(0, 0)] = "header".to_string();
    range[(1, 0)] = "first".to_string();
    let sheet = SheetData::from_range_with_formulas(cells(), Some(range));
    assert_eq!(sheet.formulas[0], vec![Some("first".to_string()), None, None]);
    assert_eq!(sheet.formulas[1], vec![None, None, None]);
}

#[test]
fn an_empty_range_of_formulas_has_none() {
    let sheet = SheetData::from_range_with_formulas(cells(), Some(Range::empty()));
    assert_eq!(sheet.formulas, vec![vec![None::<String>; 3]; 3]);
}

#[test]
fn an_empty_range_makes_an_empty_sheet() {
    let sheet = SheetData::from_range_with_formulas(Range::empty(), None);
    assert!(sheet.headers.is_empty());
    assert!(sheet.rows.is_empty());
    assert!(sheet.formulas.is_empty());
    assert_eq!((sheet.width, sheet.height), (0, 0));
    let lazy = LazySheetData::from_range_with_formulas(Range::empty(), Some(formulas()));
    assert!(lazy.headers.is_empty());
    assert_eq!((lazy.width, lazy.height), (0, 0));
    let (rows, formulas) = lazy.get_rows(0, 10);
    assert!(rows.is_empty());
    assert!(formulas.is_empty());
}

#[test]
fn rows_on_demand_are_rows_of_the_sheet() {
    let sheet = SheetData::from_range_with_formulas(cells(), Some(formulas()));
    let lazy = LazySheetData::from_range_with_formulas(cells(), Some(formulas()));
    assert_eq!(lazy.headers, sheet.headers);
    assert_eq!((lazy.width, lazy.height), (sheet.width, sheet.height));
    for start in 0..=3usize {
        for count in 0..6usize {
            let end = (start + count).min(3);
            let (rows, formulas) = lazy.get_rows(start, count);
            assert_eq!(shown(&rows), shown(&sheet.rows[start..end]));
            assert_eq!(formulas, sheet.formulas[start..end]);
        }
    }
    let loaded = lazy.to_sheet_data();
    assert_eq!(loaded.headers, sheet.headers);
    assert_eq!(shown(&loaded.rows), shown(&sheet.rows));
    assert_eq!(loaded.formulas, sheet.formulas);
    assert_eq!((loaded.width, loaded.height), (3, 3));
}

#[test]
fn all_rows_of_a_table_are_data() {
    let table = Table {
        name: "Table1".to_string(),
        sheet_name: "Sheet1".to_string(),
        columns: vec!["A".to_string(), "B".to_string(), "C".to_string()],
        data: cells(),
    };
    let data = TableData::from_calamine_table(table);
    assert_eq!(data.name, "Table1");
    assert_eq!(data.sheet_name, "Sheet1");
    assert_eq!(data.headers, vec!["A", "B", "C"]);
    assert_eq!(data.rows.len(), 4);
    assert_eq!(data.rows[0][0].to_string(), "1,000");
    assert_eq!(data.rows[3][1].to_string(), "31");
    assert!(data.rows[3][2].is_empty());
}

#[test]
fn csv_files_are_told_by_their_extension() {
    for extension in ["csv", "CSV", "cSv"] {
        let request = Workbook::open(Some(extension), Some("report"));
        assert!(matches!(request, OpenRequest::Csv { sheet_name } if sheet_name == "report"));
    }
    for extension in ["xlsx", "csvx", "cs", "", "\u{17f}csv"] {
        assert!(matches!(Workbook::open(Some(extension), Some("report")), OpenRequest::Excel));
    }
    assert!(matches!(Workbook::open(None, Some("csv")), OpenRequest::Excel));
}

#[test]
fn a_csv_file_without_a_name_has_a_sheet_named_csv() {
    for stem in [None, Some("")] {
        let request = Workbook::open(Some("csv"), stem);
        assert!(matches!(request, OpenRequest::Csv { sheet_name } if sheet_name == "CSV"));
    }
}

#[test]
fn unreadable_files_are_refused() {
    let error = Workbook::from_csv("data".to_string(), None).unwrap_err();
    assert_eq!(error.message(), "Failed to read CSV file");
    let error = Workbook::from_excel(None).unwrap_err();
    assert_eq!(error.message(), "Failed to open workbook");
    assert!(matches!(excel().source, WorkbookSource::Excel { xlsx: true }));
}

#[test]
fn sheets_of_a_spreadsheet_are_those_that_were_found() {
    let found = vec!["One".to_string(), "Two".to_string()];
    assert_eq!(excel().sheet_names(found.clone()), found);
    assert_eq!(csv("a").sheet_names(found), vec!["data"]);
    let sheet = excel().load_sheet("One", Some(cells()), Some(formulas())).unwrap();
    assert_eq!(sheet.height, 3);
    assert_eq!(sheet.formulas[0][1], Some("A1".to_string()));
    let lazy = excel().load_sheet_lazy("One", Some(cells()), Some(formulas())).unwrap();
    assert_eq!(lazy.headers, sheet.headers);
    assert_eq!(lazy.get_rows(0, 1).1[0][1], Some("A1".to_string()));
}

#[test]
fn missing_sheets_are_refused() {
    let error = excel().load_sheet("Three", None, None).unwrap_err();
    assert_eq!(error.message(), "Sheet 'Three' not found");
    let error = excel().load_sheet_lazy("Three", None, None).err().unwrap();
    assert_eq!(error.message(), "Sheet 'Three' not found");
    let expected = "Sheet 'other' not found. Available sheets: data";
    let error = csv("a,b\n").load_sheet("other", None, None).unwrap_err();
    assert_eq!(error.message(), expected);
    let error = csv("a,b\n").load_sheet_lazy("other", None, None).err().unwrap();
    assert_eq!(error.message(), expected);
}

#[test]
fn csv_sheets_hold_their_fields() {
    let book = csv("a,b\nc\n,d,e\n");
    let sheet = book.load_sheet("data", None, None).unwrap();
    assert_eq!(sheet.headers, vec!["a", "b", ""]);
    assert_eq!(shown(&sheet.rows), vec![vec!["c", "", ""], vec!["", "d", "e"]]);
    assert_eq!(sheet.formulas, vec![vec![None::<String>; 3]; 2]);
    let lazy = book.load_sheet_lazy("data", None, None).unwrap();
    assert_eq!((lazy.width, lazy.height), (3, 2));
    assert_eq!(shown(&lazy.get_rows(1, 5).0), vec![vec!["", "d", "e"]]);
}

#[test]
fn an_unreadable_csv_sheet_is_refused() {
    let book = csv("a,\"b\n");
    assert!(book.cells_fit("data"));
    let error = book.load_sheet("data", None, None).unwrap_err();
    assert!(matches!(error, WorkbookError::UnterminatedQuote));
    let error = book.load_sheet_lazy("data", None, None).err().unwrap();
    assert!(matches!(error, WorkbookError::UnterminatedQuote));
}

#[test]
fn only_xlsx_files_have_tables() {
    let unsupported = "Tables are only supported in .xlsx files";
    let xls = Workbook::from_excel(Some(false)).unwrap();
    for book in [xls, csv("a")] {
        assert_eq!(book.load_tables(true).unwrap_err().message(), unsupported);
        assert_eq!(book.load_tables(false).unwrap_err().message(), unsupported);
        assert_eq!(book.table_names(Vec::new()).unwrap_err().message(), unsupported);
        assert_eq!(book.table_names_in_sheet(Vec::new()).unwrap_err().message(), unsupported);
        let found = Err("none".to_string());
        assert_eq!(book.table_by_name("T", found).unwrap_err().message(), unsupported);
    }
}

#[test]
fn tables_of_xlsx_files_are_those_that_were_found() {
    let names = vec!["T1".to_string(), "T2".to_string()];
    assert!(excel().load_tables(true).is_ok());
    let error = excel().load_tables(false).unwrap_err();
    assert_eq!(error.message(), "Failed to load table metadata");
    assert_eq!(excel().table_names(names.clone()).unwrap(), names);
    assert_eq!(excel().table_names_in_sheet(names.clone()).unwrap(), names);
    let found = Table {
        name: "T1".to_string(),
        sheet_name: "S".to_string(),
        columns: vec!["A".to_string()],
        data: cells(),
    };
    let table = excel().table_by_name("T1", Ok(found)).unwrap();
    assert_eq!(table.name, "T1");
    assert_eq!(table.rows.len(), 4);
    let error = excel().table_by_name("T3", Err("no such table".to_string())).unwrap_err();
    assert_eq!(error.message(), "Table 'T3' not found: no such table");
}

#[test]
fn a_span_of_formulas_is_a_part_of_the_sheet() {
    let sheet = SheetData::from_range_with_formulas(cells(), Some(formulas()));
    let lazy = LazySheetData::from_range_with_formulas(cells(), Some(formulas()));
    for start in 0..=3 {
        for end in start..=3 {
            assert_eq!(lazy.get_formulas_for_range(start, end), sheet.formulas[start..end]);
        }
    }
    let without = LazySheetData::from_range_with_formulas(cells(), None);
    assert_eq!(without.get_formulas_for_range(1, 3), vec![vec![None::<String>; 3]; 2]);
}

#[test]
fn a_span_has_no_formulas_behind_the_sheet() {
    let mut below: Range<String> = Range::new((0, 0), (6, 0));
    for row in 0..7usize {
        below[(row, 0)] = format!("F{row}");
    }
    let lazy = LazySheetData::from_range_with_formulas(cells(), Some(below));
    let span = lazy.get_formulas_for_range(2, 6);
    let first: Vec<Option<&str>> = span.iter().map(|row| row[0].as_deref()).collect();
    assert_eq!(first, vec![Some("F3"), Some("F4"), None, None]);
    assert!(span.iter().all(|row| row.len() == 3 && row[1].is_none() && row[2].is_none()));
    assert_eq!(lazy.get_formulas_for_range(4, 6), vec![vec![None::<String>; 3]; 2]);
}

#[test]
fn sheets_have_a_header_and_values_in_every_column() {
    let mut longer = cells();
    longer.set_value((7, 2), text("down"));
    let mut wider = cells();
    wider.set_value((3, 6), text("right"));
    let mut larger = cells();
    larger.set_value((8, 8), text("both"));
    let sparse = Range::from_sparse(vec![
        calamine::Cell::new((4, 4), text("a")),
        calamine::Cell::new((9, 1), text("b")),
    ]);
    let single = Range::new((3, 3), (3, 3));
    for range in [cells(), longer, wider, larger, sparse, single, Range::empty()] {
        let (height, width) = range.get_size();
        assert_eq!(height == 0, width == 0);
        assert_eq!(height == 0, range.rows().len() == 0);
        let lazy = LazySheetData::from_range_with_formulas(range.clone(), Some(formulas()));
        assert_eq!(lazy.headers.len(), width);
        for start in 0..=lazy.height {
            let (rows, spans) = lazy.get_rows(start, 2);
            let count = (lazy.height - start).min(2);
            assert_eq!((rows.len(), spans.len()), (count, count));
            assert!(rows.iter().all(|row| row.len() == width));
            assert!(spans.iter().all(|row| row.len() == width));
        }
        let sheet = SheetData::from_range_with_formulas(range, None);
        assert_eq!(sheet.headers.len(), sheet.width);
        assert!(sheet.rows.len() >= sheet.height);
        assert!(sheet.rows[..sheet.height].iter().all(|row| row.len() == sheet.width));
        assert_eq!(sheet.formulas, vec![vec![None::<String>; width]; sheet.height]);
    }
}
