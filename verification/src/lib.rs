//! Reading spreadsheets and CSV files into plain tables of cells.

pub mod calendar;
pub mod calendar_laws;
pub mod cell;
pub mod csv;
pub mod csv_laws;
pub mod csv_lines;
pub mod csv_reading;
pub mod csv_writing;
pub mod display;
pub mod error;
pub mod grid;
pub mod laws;
pub mod loading_laws;
pub mod number_laws;
pub mod percent;
pub mod percent_laws;
pub mod sheet;
pub mod showing_laws;
pub mod text;
pub mod time_laws;
pub mod value_laws;
pub mod view_laws;
pub mod workbook;
