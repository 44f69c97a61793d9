//! Text rendering of listings and reports.

pub mod table;
