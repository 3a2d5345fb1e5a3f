//! Where the export reads from and writes to.

use std::path::PathBuf;
use vstd::prelude::*;

verus! {

/// Declares `std::path::PathBuf`. Nothing is said of what is inside a value
/// of it.
#[verifier::external_type_specification]
#[verifier::external_body]
pub struct ExPathBuf(PathBuf);

/// Configuration of the export of the report history.
#[derive(Debug)]
pub struct Config {
    /// Path to the watcher database.
    pub watcher_db: PathBuf,
    /// Path beside which the history files are written.
    pub avr_history: PathBuf,
}

} // verus!
