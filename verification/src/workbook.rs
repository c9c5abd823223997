//! Workbooks: spreadsheet files and CSV files.
//!
//! Nothing here reads a file. A workbook decides what is to be read, and works on what was.

use calamine::Range;
use vstd::prelude::*;

use crate::cell::Cell;
use crate::csv::{
    cells_of, csv_content_to_range, csv_records, csv_start, ensure_csv_sheet_name, fit_in_range,
    parse_csv_records, records_fit_in_range, width_of,
};
use crate::error::{ErrorView, WorkbookError};
use crate::grid::{cell_rows, cell_size, cell_start, is_countable};
use crate::sheet::{
    sheet_of, sheet_of_range, table_of, LazySheetData, SheetData, SheetView, Table, TableData,
};
use crate::text::{same_but_for_case, same_text, same_text_but_for_case, texts};

verus! {

/// How a file is to be opened.
#[derive(Debug)]
pub enum OpenRequest {
    /// Read the file as text: it is a CSV file with one sheet of this name.
    Csv { sheet_name: String },
    /// Open the file as a spreadsheet.
    Excel,
}

/// Where the sheets of a workbook come from.
#[derive(Debug)]
pub enum WorkbookSource {
    /// A spreadsheet file, in the .xlsx format or in another.
    Excel { xlsx: bool },
    /// A CSV file, by the name of its one sheet and its text.
    Csv { sheet_name: String, content: String },
}

/// A spreadsheet file or a CSV file.
#[derive(Debug)]
pub struct Workbook {
    pub source: WorkbookSource,
}

/// Whether a file name extension is that of CSV files.
pub open spec fn is_csv(extension: Option<&str>) -> bool {
    extension matches Some(extension) && same_but_for_case(extension@, "csv"@)
}

/// The name of the sheet of a CSV file: that of the file without its extension.
pub open spec fn csv_sheet_name(stem: Option<&str>) -> Seq<char> {
    match stem {
        Some(stem) => if stem@.len() > 0 {
            stem@
        } else {
            "CSV"@
        },
        None => "CSV"@,
    }
}

/// The sheet that the records of a CSV text make.
pub open spec fn csv_sheet(records: Seq<Seq<Seq<char>>>) -> SheetView {
    sheet_of(cells_of(records), cells_of(records).len() as int, width_of(records) as int, None)
}

impl Workbook {
    /// Whether the workbook is in a format that has tables.
    pub open spec fn has_tables(self) -> bool {
        self.source matches WorkbookSource::Excel { xlsx } && xlsx
    }

    /// Whether the sheet of this name, if it is that of a CSV file, has no more cells than a range
    /// can count.
    pub open spec fn fits(self, name: Seq<char>) -> bool {
        match self.source {
            WorkbookSource::Excel { .. } => true,
            WorkbookSource::Csv { sheet_name, content } => match csv_records(content@) {
                Some(records) => name == sheet_name@ ==> fit_in_range(records),
                None => true,
            },
        }
    }

    /// How the file with this extension and with this name without it is to be opened.
    pub fn open(extension: Option<&str>, stem: Option<&str>) -> (request: OpenRequest)
        ensures
            request is Csv <==> is_csv(extension),
            request matches OpenRequest::Csv { sheet_name } ==> sheet_name@ == csv_sheet_name(stem),
    {
        let csv = match extension {
            Some(extension) => same_text_but_for_case(extension, "csv"),
            None => false,
        };
        if !csv {
            return OpenRequest::Excel;
        }
        let sheet_name = match stem {
            Some(stem) => if stem.is_empty() {
                "CSV".to_owned()
            } else {
                stem.to_owned()
            },
            None => "CSV".to_owned(),
        };
        OpenRequest::Csv { sheet_name }
    }

    /// The workbook of a CSV file, from the text that was read from it, if any could be.
    pub fn from_csv(sheet_name: String, content: Option<String>) -> (result: Result<
        Self,
        WorkbookError,
    >)
        ensures
            match content {
                Some(content) => result == Ok::<Self, WorkbookError>(
                    (Workbook { source: (WorkbookSource::Csv { sheet_name, content }) }),
                ),
                None => result matches Err(error) && error@ == ErrorView::CsvUnreadable,
            },
    {
        match content {
            Some(content) => Ok(Workbook { source: WorkbookSource::Csv { sheet_name, content } }),
            None => Err(WorkbookError::CsvUnreadable),
        }
    }

    /// The workbook of a spreadsheet file, by whether it is in the .xlsx format, if it could be
    /// opened.
    pub fn from_excel(xlsx: Option<bool>) -> (result: Result<Self, WorkbookError>)
        ensures
            match xlsx {
                Some(xlsx) => result == Ok::<Self, WorkbookError>(
                    (Workbook { source: (WorkbookSource::Excel { xlsx }) }),
                ),
                None => result matches Err(error) && error@ == ErrorView::WorkbookUnreadable,
            },
    {
        match xlsx {
            Some(xlsx) => Ok(Workbook { source: WorkbookSource::Excel { xlsx } }),
            None => Err(WorkbookError::WorkbookUnreadable),
        }
    }

    /// The names of the sheets. Those of a spreadsheet file are the ones that its reader found;
    /// a CSV file has one.
    pub fn sheet_names(&self, found: Vec<String>) -> (names: Vec<String>)
        ensures
            match self.source {
                WorkbookSource::Excel { .. } => names == found,
                WorkbookSource::Csv { sheet_name, .. } => texts(names@) == seq![sheet_name@],
            },
    {
        match &self.source {
            WorkbookSource::Excel { .. } => found,
            WorkbookSource::Csv { sheet_name, .. } => {
                let mut names: Vec<String> = Vec::new();
                names.push(sheet_name.clone());
                assert(texts(names@) == seq![sheet_name@]);
                names
            },
        }
    }

    /// Whether the sheet of this name, if it is that of a CSV file, has no more cells than a range
    /// can count.
    pub fn cells_fit(&self, name: &str) -> (fit: bool)
        ensures
            fit == self.fits(name@),
    {
        match &self.source {
            WorkbookSource::Excel { .. } => true,
            WorkbookSource::Csv { sheet_name, content } => {
                if !same_text(name, sheet_name.as_str()) {
                    return true;
                }
                match parse_csv_records(content.as_str()) {
                    Ok(records) => records_fit_in_range(&records),
                    Err(_) => true,
                }
            },
        }
    }

    /// The sheet of this name with all its rows. For a spreadsheet file, `range` and `formulas`
    /// are what its reader found under the name; a sheet without readable formulas is loaded
    /// without them.
    pub fn load_sheet(
        &self,
        name: &str,
        range: Option<Range<Cell>>,
        formulas: Option<Range<String>>,
    ) -> (result: Result<SheetData, WorkbookError>)
        requires
            self.fits(name@),
        ensures
            match self.source {
                WorkbookSource::Excel { .. } => match range {
                    Some(range) => result matches Ok(sheet) && {
                        &&& sheet@ == sheet_of_range(range, formulas)
                        &&& is_countable(cell_rows(range), cell_size(range)) ==> sheet@.is_filled()
                    },
                    None => result matches Err(error) && error@ == (ErrorView::SheetNotFound {
                        name: name@,
                    }),
                },
                WorkbookSource::Csv { sheet_name, content } => if name@ != sheet_name@ {
                    result matches Err(error) && error@ == (ErrorView::CsvSheetNotFound {
                        requested: name@,
                        available: sheet_name@,
                    })
                } else {
                    match csv_records(content@) {
                        Some(records) => result matches Ok(sheet) && {
                            &&& sheet@ == csv_sheet(records)
                            &&& sheet@.is_filled()
                        },
                        None => result matches Err(error) && error@ == ErrorView::UnterminatedQuote,
                    }
                },
            },
    {
        match &self.source {
            WorkbookSource::Excel { .. } => match range {
                Some(range) => Ok(SheetData::from_range_with_formulas(range, formulas)),
                None => Err(WorkbookError::SheetNotFound { name: name.to_owned() }),
            },
            WorkbookSource::Csv { sheet_name, content } => {
                if let Err(error) = ensure_csv_sheet_name(name, sheet_name.as_str()) {
                    return Err(error);
                }
                match csv_content_to_range(content.as_str()) {
                    Ok(range) => Ok(SheetData::from_range_with_formulas(range, None)),
                    Err(error) => Err(error),
                }
            },
        }
    }

    /// The sheet of this name, which gives out its rows on demand. For a spreadsheet file,
    /// `range` and `formulas` are what its reader found under the name; a sheet without readable
    /// formulas is loaded without them.
    pub fn load_sheet_lazy(
        &self,
        name: &str,
        range: Option<Range<Cell>>,
        formulas: Option<Range<String>>,
    ) -> (result: Result<LazySheetData, WorkbookError>)
        requires
            self.fits(name@),
        ensures
            match self.source {
                WorkbookSource::Excel { .. } => match range {
                    Some(range) => result matches Ok(sheet) && sheet.is_in_step() && sheet.range
                        == range && sheet.formula_range == formulas,
                    None => result matches Err(error) && error@ == (ErrorView::SheetNotFound {
                        name: name@,
                    }),
                },
                WorkbookSource::Csv { sheet_name, content } => if name@ != sheet_name@ {
                    result matches Err(error) && error@ == (ErrorView::CsvSheetNotFound {
                        requested: name@,
                        available: sheet_name@,
                    })
                } else {
                    match csv_records(content@) {
                        Some(records) => result matches Ok(sheet) && {
                            &&& sheet.is_in_step()
                            &&& cell_rows(sheet.range) == cells_of(records)
                            &&& cell_size(sheet.range).0 == cells_of(records).len()
                            &&& cell_size(sheet.range).1 == width_of(records)
                            &&& cell_start(sheet.range) == csv_start(records)
                            &&& sheet.formula_range is None
                        },
                        None => result matches Err(error) && error@ == ErrorView::UnterminatedQuote,
                    }
                },
            },
    {
        match &self.source {
            WorkbookSource::Excel { .. } => match range {
                Some(range) => Ok(LazySheetData::from_range_with_formulas(range, formulas)),
                None => Err(WorkbookError::SheetNotFound { name: name.to_owned() }),
            },
            WorkbookSource::Csv { sheet_name, content } => {
                if let Err(error) = ensure_csv_sheet_name(name, sheet_name.as_str()) {
                    return Err(error);
                }
                match csv_content_to_range(content.as_str()) {
                    Ok(range) => Ok(LazySheetData::from_range_with_formulas(range, None)),
                    Err(error) => Err(error),
                }
            },
        }
    }

    /// Whether table metadata is there, after its reader did or did not load it. Only .xlsx
    /// files have tables.
    pub fn load_tables(&self, loaded: bool) -> (result: Result<(), WorkbookError>)
        ensures
            result is Ok <==> self.has_tables() && loaded,
            result matches Err(error) ==> error@ == if self.has_tables() {
                ErrorView::TableMetadata
            } else {
                ErrorView::TablesUnsupported
            },
    {
        match &self.source {
            WorkbookSource::Excel { xlsx: true } => if loaded {
                Ok(())
            } else {
                Err(WorkbookError::TableMetadata)
            },
            _ => Err(WorkbookError::TablesUnsupported),
        }
    }

    /// The names of all tables: those that the reader found. Only .xlsx files have tables.
    pub fn table_names(&self, found: Vec<String>) -> (result: Result<Vec<String>, WorkbookError>)
        ensures
            result is Ok <==> self.has_tables(),
            result matches Ok(names) ==> names == found,
            result matches Err(error) ==> error@ == ErrorView::TablesUnsupported,
    {
        match &self.source {
            WorkbookSource::Excel { xlsx: true } => Ok(found),
            _ => Err(WorkbookError::TablesUnsupported),
        }
    }

    /// The names of the tables of a sheet: those that the reader found there. Only .xlsx files
    /// have tables.
    pub fn table_names_in_sheet(&self, found: Vec<String>) -> (result: Result<
        Vec<String>,
        WorkbookError,
    >)
        ensures
            result is Ok <==> self.has_tables(),
            result matches Ok(names) ==> names == found,
            result matches Err(error) ==> error@ == ErrorView::TablesUnsupported,
    {
        match &self.source {
            WorkbookSource::Excel { xlsx: true } => Ok(found),
            _ => Err(WorkbookError::TablesUnsupported),
        }
    }

    /// The table of this name, from what the reader found under it: the table, or why there is
    /// none. Only .xlsx files have tables.
    pub fn table_by_name(&self, table_name: &str, found: Result<Table, String>) -> (result: Result<
        TableData,
        WorkbookError,
    >)
        ensures
            result is Ok <==> self.has_tables() && found is Ok,
            result matches Ok(data) ==> data@ == table_of(found->Ok_0),
            result matches Err(error) ==> error@ == if self.has_tables() {
                ErrorView::TableNotFound { name: table_name@, cause: found->Err_0@ }
            } else {
                ErrorView::TablesUnsupported
            },
    {
        match &self.source {
            WorkbookSource::Excel { xlsx: true } => match found {
                Ok(table) => Ok(TableData::from_calamine_table(table)),
                Err(cause) => Err(
                    WorkbookError::TableNotFound { name: table_name.to_owned(), cause },
                ),
            },
            _ => Err(WorkbookError::TablesUnsupported),
        }
    }
}

}
