//! A small library for viewing a comma-delimited text file as a table.
//!
//! The text is parsed into a [`table::Table`]: a header row plus data rows of
//! trimmed cells.  Pure layout functions compute per-column display widths,
//! and an adapter maps rows to display strings and a total sort order for a
//! terminal table widget.

pub mod adapter;
pub mod cell;
pub mod error;
pub mod row;
pub mod strutil;
pub mod table;
