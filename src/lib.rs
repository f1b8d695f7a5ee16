//! Bulk extraction of accounting tables into delimited text files.
//!
//! The library holds the decisions of an extraction run: which entities are
//! processed, how a table is split into windows and chunk files, how a cell is
//! rendered, how records are framed, and what every artifact and message says.
//! The database, the file system and the user interface stay with the caller.
pub mod audit;
pub mod config;
pub mod dispatch;
pub mod naming;
pub mod planner;
pub mod queries;
pub mod records;
pub mod run;
pub mod text;
