//! The backing store: two in-memory relations with their invariants.
//!
//! The ledger keeps accounts and snapshots. An account is created once per
//! external identity and never updated; a snapshot records one dated balance
//! observation per `(account, date)` pair, and a later insert for an
//! existing pair is dropped (the first amount wins). Both rules are stated
//! here as the store's well-formedness invariant, and every repository
//! operation is specified as a transition on the mathematical model below.

use vstd::prelude::*;
use crate::account::Account;
use crate::date::{Date, date_of};
use crate::snapshot::Snapshot;

verus! {

/// The mathematical content of one account row.
pub struct AccountModel {
    pub id: Seq<char>,
    pub name: Seq<char>,
    pub currency: Seq<char>,
    pub description: Seq<char>,
}

/// The mathematical content of one snapshot row.
pub struct SnapshotModel {
    pub id: u64,
    pub account_id: Seq<char>,
    pub date: Date,
    pub amount: i32,
}

/// The mathematical content of the whole store: both relations in storage
/// order.
pub struct StoreModel {
    pub accounts: Seq<AccountModel>,
    pub snapshots: Seq<SnapshotModel>,
}

/// The backing store, held in memory: the accounts relation and the
/// snapshots relation, each in insertion order.
pub struct Store {
    pub accounts: Vec<Account>,
    pub snapshots: Vec<Snapshot>,
}

impl View for Store {
    type V = StoreModel;

    open spec fn view(&self) -> StoreModel {
        StoreModel {
            accounts: Seq::new(self.accounts@.len(), |i: int| self.accounts@[i]@),
            snapshots: Seq::new(self.snapshots@.len(), |i: int| self.snapshots@[i]@),
        }
    }
}

/// The idempotent-upsert outcome for one snapshot entry.
#[derive(Clone, Copy, PartialEq, Eq, Structural, Debug)]
pub enum SnapOutcome {
    /// The entry was inserted.
    Created,
    /// A snapshot for the same `(account, date)` already existed; the stored
    /// amount was kept.
    Conflict,
    /// The date string did not parse; the entry was skipped.
    InvalidDate,
}

/// Whether a mathematical total fits the report's 64-bit signed range.
pub open spec fn spec_fits_i64(x: int) -> bool {
    i64::MIN <= x <= i64::MAX
}

/// Why a report could not be computed.
#[derive(Clone, Copy, PartialEq, Eq, Structural, Debug)]
pub enum ReportError {
    /// A total does not fit the report's 64-bit signed range; totals are
    /// never silently wrapped.
    Overflow,
    /// A needed exchange rate is missing or zero; net worth is never
    /// computed from partial rates.
    ExchangeRateUnavailable,
}

/// Why an account upsert inserted nothing.
#[derive(Clone, Copy, PartialEq, Eq, Structural, Debug)]
pub enum RepoError {
    /// An account with the same id already existed; its fields were kept.
    Conflict,
}

/// Why a snapshot upsert inserted nothing.
#[derive(Clone, Copy, PartialEq, Eq, Structural, Debug)]
pub enum SnapshotError {
    /// A snapshot for the same `(account, date)` already existed; its amount
    /// was kept.
    Conflict,
    /// The date string was not a parsable calendar date.
    InvalidDate,
}

impl StoreModel {
    /// No two account rows share an id.
    pub open spec fn accounts_unique(self) -> bool {
        forall|i: int, j: int|
            0 <= i < j < self.accounts.len() ==> self.accounts[i].id != self.accounts[j].id
    }

    /// At most one snapshot per `(account, date)` pair.
    pub open spec fn snapshots_unique(self) -> bool {
        forall|i: int, j: int|
            0 <= i < j < self.snapshots.len() ==> !(self.snapshots[i].account_id
                == self.snapshots[j].account_id && self.snapshots[i].date
                == self.snapshots[j].date)
    }

    /// Surrogate snapshot ids are the row's position in storage order.
    pub open spec fn ids_positional(self) -> bool {
        forall|i: int| 0 <= i < self.snapshots.len() ==> self.snapshots[i].id == i as u64
    }

    /// The store's invariant: both uniqueness rules and the surrogate ids.
    pub open spec fn wf(self) -> bool {
        self.accounts_unique() && self.snapshots_unique() && self.ids_positional()
    }

    /// Whether some account row carries this id.
    pub open spec fn has_account(self, id: Seq<char>) -> bool {
        exists|i: int| 0 <= i < self.accounts.len() && self.accounts[i].id == id
    }

    /// Whether some snapshot row carries this `(account, date)` pair.
    pub open spec fn has_snapshot(self, aid: Seq<char>, d: Date) -> bool {
        exists|i: int|
            0 <= i < self.snapshots.len() && self.snapshots[i].account_id == aid
                && self.snapshots[i].date == d
    }

    /// The first account row with this id, if any. Under `wf` it is the only
    /// one.
    pub open spec fn find_account(self, id: Seq<char>) -> Option<AccountModel> {
        spec_find_account(self.accounts, id)
    }

    /// The amount stored for this `(account, date)` pair, if any.
    pub open spec fn amount_of(self, aid: Seq<char>, d: Date) -> Option<i32>
        decreases self.snapshots.len(),
    {
        if self.snapshots.len() == 0 {
            None
        } else if self.snapshots[0].account_id == aid && self.snapshots[0].date == d {
            Some(self.snapshots[0].amount)
        } else {
            StoreModel { accounts: self.accounts, snapshots: self.snapshots.drop_first() }
                .amount_of(aid, d)
        }
    }
}

/// The first account row with this id, if any.
pub open spec fn spec_find_account(accounts: Seq<AccountModel>, id: Seq<char>) -> Option<
    AccountModel,
>
    decreases accounts.len(),
{
    if accounts.len() == 0 {
        None
    } else if accounts[0].id == id {
        Some(accounts[0])
    } else {
        spec_find_account(accounts.drop_first(), id)
    }
}

/// A sequence with no matching id has no first match.
pub proof fn lemma_find_account_none(accounts: Seq<AccountModel>, id: Seq<char>)
    requires
        forall|l: int| 0 <= l < accounts.len() ==> accounts[l].id != id,
    ensures
        spec_find_account(accounts, id) is None,
    decreases accounts.len(),
{
    if accounts.len() > 0 {
        assert(forall|l: int|
            0 <= l < accounts.drop_first().len() ==> accounts.drop_first()[l] == accounts[l + 1]);
        lemma_find_account_none(accounts.drop_first(), id);
    }
}

/// The first match is the row at the first matching position.
pub proof fn lemma_find_account_at(accounts: Seq<AccountModel>, id: Seq<char>, k: int)
    requires
        0 <= k < accounts.len(),
        accounts[k].id == id,
        forall|l: int| 0 <= l < k ==> accounts[l].id != id,
    ensures
        spec_find_account(accounts, id) == Some(accounts[k]),
    decreases accounts.len(),
{
    if k > 0 {
        assert(forall|l: int|
            0 <= l < accounts.drop_first().len() ==> accounts.drop_first()[l] == accounts[l + 1]);
        lemma_find_account_at(accounts.drop_first(), id, k - 1);
    }
}

/// What an account upsert does to the store model: insert when the id is
/// new, otherwise keep every stored field. The flag tells whether a row was
/// created.
pub open spec fn spec_upsert_account(m: StoreModel, a: AccountModel) -> (StoreModel, bool) {
    if m.has_account(a.id) {
        (m, false)
    } else {
        (StoreModel { accounts: m.accounts.push(a), snapshots: m.snapshots }, true)
    }
}

/// What a snapshot upsert does to the store model: parse the date string,
/// insert when the `(account, date)` pair is new, otherwise keep the stored
/// amount.
pub open spec fn spec_upsert_snapshot(
    m: StoreModel,
    aid: Seq<char>,
    ymd: Seq<char>,
    amount: i32,
) -> (StoreModel, SnapOutcome) {
    match date_of(ymd) {
        None => (m, SnapOutcome::InvalidDate),
        Some(t) => {
            let d = Date { year: t.0 as i32, month: t.1 as u8, day: t.2 as u8 };
            if m.has_snapshot(aid, d) {
                (m, SnapOutcome::Conflict)
            } else {
                (
                    StoreModel {
                        accounts: m.accounts,
                        snapshots: m.snapshots.push(
                            SnapshotModel {
                                id: m.snapshots.len() as u64,
                                account_id: aid,
                                date: d,
                                amount,
                            },
                        ),
                    },
                    SnapOutcome::Created,
                )
            }
        },
    }
}

/// What a bulk snapshot upsert does: one upsert per entry, in order, each
/// entry independent of the others' outcomes.
pub open spec fn spec_bulk_upsert(
    m: StoreModel,
    aid: Seq<char>,
    entries: Seq<(Seq<char>, i32)>,
) -> (StoreModel, Seq<SnapOutcome>)
    decreases entries.len(),
{
    if entries.len() == 0 {
        (m, Seq::empty())
    } else {
        let (m1, outs) = spec_bulk_upsert(m, aid, entries.drop_last());
        let (m2, out) = spec_upsert_snapshot(m1, aid, entries.last().0, entries.last().1);
        (m2, outs.push(out))
    }
}

impl Store {
    /// A store with both relations empty.
    pub fn new() -> (r: Store)
        ensures
            r@.wf(),
            r@.accounts.len() == 0,
            r@.snapshots.len() == 0,
    {
        Store { accounts: Vec::new(), snapshots: Vec::new() }
    }

    /// Whether an account with this id is stored.
    pub fn contains_account(&self, id: &String) -> (r: bool)
        ensures
            r == self@.has_account(id@),
    {
        let mut i: usize = 0;
        while i < self.accounts.len()
            invariant
                0 <= i <= self.accounts.len(),
                forall|k: int| 0 <= k < i ==> self.accounts@[k]@.id != id@,
            decreases self.accounts.len() - i,
        {
            if self.accounts[i].id == *id {
                assert(self@.accounts[i as int].id == id@);
                return true;
            }
            i += 1;
        }
        assert(forall|k: int| 0 <= k < self@.accounts.len() ==> self@.accounts[k].id != id@);
        false
    }

    /// The position of the first account row with this id, if any.
    pub fn find_account_index(&self, id: &String) -> (r: Option<usize>)
        ensures
            match r {
                Some(idx) => idx < self@.accounts.len() && spec_find_account(
                    self@.accounts,
                    id@,
                ) == Some(self@.accounts[idx as int]),
                None => spec_find_account(self@.accounts, id@) is None,
            },
    {
        let mut i: usize = 0;
        while i < self.accounts.len()
            invariant
                0 <= i <= self.accounts.len(),
                forall|k: int| 0 <= k < i ==> self.accounts@[k]@.id != id@,
            decreases self.accounts.len() - i,
        {
            if self.accounts[i].id == *id {
                proof {
                    lemma_find_account_at(self@.accounts, id@, i as int);
                }
                return Some(i);
            }
            i += 1;
        }
        proof {
            lemma_find_account_none(self@.accounts, id@);
        }
        None
    }

    /// Whether a snapshot with this `(account, date)` pair is stored.
    pub fn contains_snapshot(&self, aid: &String, d: &Date) -> (r: bool)
        ensures
            r == self@.has_snapshot(aid@, *d),
    {
        let mut i: usize = 0;
        while i < self.snapshots.len()
            invariant
                0 <= i <= self.snapshots.len(),
                forall|k: int|
                    0 <= k < i ==> !(self.snapshots@[k]@.account_id == aid@ && self.snapshots@[k]@.date
                        == *d),
            decreases self.snapshots.len() - i,
        {
            if self.snapshots[i].account_id == *aid && self.snapshots[i].date == *d {
                assert(self@.snapshots[i as int].account_id == aid@);
                return true;
            }
            i += 1;
        }
        assert(forall|k: int|
            0 <= k < self@.snapshots.len() ==> !(self@.snapshots[k].account_id == aid@
                && self@.snapshots[k].date == *d));
        false
    }
}

} // verus!
