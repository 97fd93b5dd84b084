//! Column projection over delimited text: a header line names the columns,
//! a selection of names picks and orders them, and each data line is split
//! on the delimiter and written back as the selected fields joined by tabs.

pub mod laws;
pub mod project;
pub mod split;
pub mod table;

pub use table::{takes_row, Csv};
