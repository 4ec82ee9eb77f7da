//! The commands a caller can ask of the ledger.

use vstd::prelude::*;

verus! {

/// One ledger command. The surrounding program parses its arguments into
/// this enum and dispatches on it; the currency field carries the symbol
/// exactly as the caller wrote it.
#[derive(Debug)]
pub enum Cli {
    /// Pull account and snapshot data from the external table service.
    Pull { currency: String },
    /// Display the history of accounts.
    History { currency: String },
    /// Display the latest sum for the given currency.
    Sum { currency: String },
    /// Display net worth in the given currency.
    NetWorth { currency: String },
    /// Delete all table rows.
    Delete,
}

} // verus!
