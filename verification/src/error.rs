//! What can go wrong when a workbook is read.

use vstd::prelude::*;
use vstd::string::StringExecFns;

verus! {

/// Why a workbook, a sheet or a table could not be had.
#[derive(Debug)]
pub enum WorkbookError {
    /// The text of a CSV file could not be read.
    CsvUnreadable,
    /// A spreadsheet file could not be opened.
    WorkbookUnreadable,
    /// The spreadsheet has no readable sheet of this name.
    SheetNotFound { name: String },
    /// The one sheet of a CSV file has another name.
    CsvSheetNotFound { requested: String, available: String },
    /// A quoted CSV field is never closed.
    UnterminatedQuote,
    /// The workbook is in a format without tables.
    TablesUnsupported,
    /// The table metadata of the workbook could not be read.
    TableMetadata,
    /// The workbook has no table of this name; `cause` says what the reader answered.
    TableNotFound { name: String, cause: String },
}

/// The mathematical value of a [`WorkbookError`].
pub enum ErrorView {
    CsvUnreadable,
    WorkbookUnreadable,
    SheetNotFound { name: Seq<char> },
    CsvSheetNotFound { requested: Seq<char>, available: Seq<char> },
    UnterminatedQuote,
    TablesUnsupported,
    TableMetadata,
    TableNotFound { name: Seq<char>, cause: Seq<char> },
}

impl View for WorkbookError {
    type V = ErrorView;

    open spec fn view(&self) -> ErrorView {
        match self {
            WorkbookError::CsvUnreadable => ErrorView::CsvUnreadable,
            WorkbookError::WorkbookUnreadable => ErrorView::WorkbookUnreadable,
            WorkbookError::SheetNotFound { name } => ErrorView::SheetNotFound { name: name@ },
            WorkbookError::CsvSheetNotFound { requested, available } => {
                ErrorView::CsvSheetNotFound { requested: requested@, available: available@ }
            },
            WorkbookError::UnterminatedQuote => ErrorView::UnterminatedQuote,
            WorkbookError::TablesUnsupported => ErrorView::TablesUnsupported,
            WorkbookError::TableMetadata => ErrorView::TableMetadata,
            WorkbookError::TableNotFound { name, cause } => {
                ErrorView::TableNotFound { name: name@, cause: cause@ }
            },
        }
    }
}

/// The message of an error.
pub open spec fn error_text(error: ErrorView) -> Seq<char> {
    match error {
        ErrorView::CsvUnreadable => "Failed to read CSV file"@,
        ErrorView::WorkbookUnreadable => "Failed to open workbook"@,
        ErrorView::SheetNotFound { name } => "Sheet '"@ + name + "' not found"@,
        ErrorView::CsvSheetNotFound { requested, available } => "Sheet '"@ + requested
            + "' not found. Available sheets: "@ + available,
        ErrorView::UnterminatedQuote => "Invalid CSV: unterminated quoted field"@,
        ErrorView::TablesUnsupported => "Tables are only supported in .xlsx files"@,
        ErrorView::TableMetadata => "Failed to load table metadata"@,
        ErrorView::TableNotFound { name, cause } => "Table '"@ + name + "' not found: "@ + cause,
    }
}

impl WorkbookError {
    /// The message of the error.
    pub fn message(&self) -> (message: String)
        ensures
            message@ == error_text(self@),
    {
        let mut message = String::new();
        match self {
            WorkbookError::CsvUnreadable => {
                message.append("Failed to read CSV file");
            },
            WorkbookError::WorkbookUnreadable => {
                message.append("Failed to open workbook");
            },
            WorkbookError::SheetNotFound { name } => {
                message.append("Sheet '");
                message.append(name.as_str());
                message.append("' not found");
            },
            WorkbookError::CsvSheetNotFound { requested, available } => {
                message.append("Sheet '");
                message.append(requested.as_str());
                message.append("' not found. Available sheets: ");
                message.append(available.as_str());
            },
            WorkbookError::UnterminatedQuote => {
                message.append("Invalid CSV: unterminated quoted field");
            },
            WorkbookError::TablesUnsupported => {
                message.append("Tables are only supported in .xlsx files");
            },
            WorkbookError::TableMetadata => {
                message.append("Failed to load table metadata");
            },
            WorkbookError::TableNotFound { name, cause } => {
                message.append("Table '");
                message.append(name.as_str());
                message.append("' not found: ");
                message.append(cause.as_str());
            },
        }
        message
    }
}

}
