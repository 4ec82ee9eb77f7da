//! A verified core for a personal-finance ledger.
//!
//! The ledger pulls tabular balance data (one table per currency) from an
//! external service, normalizes each table row into an account identity plus
//! dated balance amounts, stores them idempotently in two relations
//! (accounts and snapshots), and computes reports: latest balances, a
//! historical trend with deltas, and a multi-currency net worth.
//!
//! This crate holds the verified logic: row normalization, the account and
//! snapshot repositories with their uniqueness invariants, the sync
//! orchestrator, and the reporting computations. Fetching data over the
//! network, environment handling, and console output live outside the crate
//! and hand plain values in and out.

pub mod account;
pub mod cli;
pub mod currency;
pub mod date;
pub mod json;
pub mod laws;
pub mod normalize;
pub mod report;
pub mod snapshot;
pub mod store;

use vstd::prelude::*;
use crate::account::Account;
use crate::snapshot::Snapshot;
use crate::store::Store;

verus! {

/// Compares two string slices by content.
pub(crate) fn str_eq(a: &str, b: &str) -> (r: bool)
    ensures
        r == (a@ == b@),
{
    let a2: String = a.to_owned();
    let b2: String = b.to_owned();
    a2 == b2
}

/// Empties both relations: the snapshots first, then the accounts, so that
/// a backing store enforcing the foreign key would accept the order. A
/// listing made afterwards returns an empty sequence.
pub fn delete_data(store: &mut Store)
    requires
        old(store)@.wf(),
    ensures
        final(store)@.wf(),
        final(store)@.accounts.len() == 0,
        final(store)@.snapshots.len() == 0,
{
    Snapshot::delete_snapshots(store);
    Account::delete_accounts(store);
}

} // verus!
