//! Office Open XML (DOCX, PPTX, XLSX) reading core: package access, XML trees,
//! relationship resolution and the integer/text rules of the preview model.

pub mod assoc;
pub mod digits;
pub mod docx;
pub mod error;
pub mod model;
pub mod outside;
pub mod package;
pub mod pptx;
pub mod spreadsheet;
pub mod text;
pub mod xml;
pub mod xlsx;
pub mod zip_directory;

pub use error::Error;
pub use package::{parse_reader, Package};
