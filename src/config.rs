//! The settings of a run.
use vstd::prelude::*;

verus! {

/// The settings of a run, loaded once and read throughout it.
pub struct Config {
    /// The database to connect to.
    pub url: String,
    /// The output root under which artifacts and entity folders go.
    pub save_path: String,
    /// The column of the ledger table whose text loses the delimiter, if
    /// one is designated.
    pub replace_column: Option<String>,
    /// The ledger table, extracted in chunks.
    pub general_ledger_table: String,
    /// The balance table, extracted in one pass.
    pub trial_balance_table: String,
    /// The entity names, in processing order; duplicates are processed
    /// independently.
    pub project_name: Vec<String>,
}

/// The most rows that one ledger chunk file holds.
pub const LEDGER_CHUNK_ROWS: u64 = 2000000;

/// The field delimiter of every output file.
pub const DELIMITER: u8 = 124;

} // verus!
