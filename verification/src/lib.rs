//! Decoder for spreadsheet packages: a zip container of XML parts is turned
//! into in-memory cell grids with resolved display styles.
//!
//! The crate is organised bottom-up: `codec` converts between "A1"-style cell
//! references and zero-based coordinates; `cell` and `grid` hold the sparse,
//! amortised-growth cell grid; `xml` turns a part's bytes into a stream of
//! plain events; `shared_strings`, `styles` and `sheet` interpret those event
//! streams; `workbook` ties everything to the zip container.

pub mod cell;
pub mod codec;
pub mod error;
pub mod grid;
pub mod package;
pub mod shared_strings;
pub mod sheet;
pub mod styles;
pub mod text;
pub mod workbook;
pub mod xml;

pub use cell::{Cell, Font, IntoCellValue, Type};
pub use codec::{coordinates_to_reference, reference_to_coordinates};
pub use error::Error;
pub use grid::{Column, Row, Rows, Spreadsheet};
pub use styles::Styles;
pub use workbook::{Worksheet, Xlsx};
