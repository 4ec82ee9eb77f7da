//! The snapshots relation: one dated balance observation per account.

use vstd::prelude::*;
use vstd::arithmetic::mul::lemma_mul_inequality;
use crate::account::Account;
use crate::date::{Date, parse_ymd};
use crate::store::{AccountModel, ReportError, SnapOutcome, SnapshotError, SnapshotModel, Store,
    StoreModel, spec_bulk_upsert, spec_find_account, spec_fits_i64, spec_upsert_snapshot};
use crate::str_eq;

verus! {

/// The snapshot of this account with the latest date, if any. Scanning in
/// storage order, a later row wins only with a strictly later date, so
/// among rows with equal dates the earliest one stands (under the store's
/// invariant an account never has two rows with equal dates).
pub open spec fn spec_latest_snap(snaps: Seq<SnapshotModel>, aid: Seq<char>) -> Option<
    SnapshotModel,
>
    decreases snaps.len(),
{
    if snaps.len() == 0 {
        None
    } else {
        let rest = spec_latest_snap(snaps.drop_last(), aid);
        let last = snaps.last();
        if last.account_id == aid {
            match rest {
                None => Some(last),
                Some(s) => if s.date.spec_before(last.date) {
                    Some(last)
                } else {
                    Some(s)
                },
            }
        } else {
            rest
        }
    }
}

/// The latest table for a currency: every account with that currency code,
/// in account storage order, paired with its latest snapshot; accounts
/// without snapshots are absent.
pub open spec fn spec_latest_table(m: StoreModel, cur: Seq<char>) -> Seq<
    (SnapshotModel, AccountModel),
>
    decreases m.accounts.len(),
{
    if m.accounts.len() == 0 {
        Seq::empty()
    } else {
        let prefix = spec_latest_table(
            StoreModel { accounts: m.accounts.drop_last(), snapshots: m.snapshots },
            cur,
        );
        let a = m.accounts.last();
        if a.currency == cur {
            match spec_latest_snap(m.snapshots, a.id) {
                Some(s) => prefix.push((s, a)),
                None => prefix,
            }
        } else {
            prefix
        }
    }
}

/// The latest snapshot is a stored row of the account, and no stored row
/// of the account has a later date; when the account has no row, there is
/// no latest snapshot.
pub proof fn lemma_latest_snap_props(snaps: Seq<SnapshotModel>, aid: Seq<char>)
    ensures
        match spec_latest_snap(snaps, aid) {
            Some(s) => s.account_id == aid && (exists|i: int|
                0 <= i < snaps.len() && snaps[i] == s) && (forall|i: int|
                0 <= i < snaps.len() && snaps[i].account_id == aid
                    ==> !s.date.spec_before(#[trigger] snaps[i].date)),
            None => forall|i: int| 0 <= i < snaps.len() ==> snaps[i].account_id != aid,
        },
    decreases snaps.len(),
{
    if snaps.len() > 0 {
        let prefix = snaps.drop_last();
        let last = snaps.last();
        lemma_latest_snap_props(prefix, aid);
        assert(snaps[snaps.len() - 1] == last);
        match spec_latest_snap(prefix, aid) {
            Some(s) => {
                let wi = choose|i: int| 0 <= i < prefix.len() && prefix[i] == s;
                assert(snaps[wi] == s);
                if last.account_id == aid && s.date.spec_before(last.date) {
                    assert(spec_latest_snap(snaps, aid) == Some(last));
                    assert forall|i: int|
                        0 <= i < snaps.len() && snaps[i].account_id == aid implies !last
                        .date.spec_before(#[trigger] snaps[i].date) by {
                        if i < snaps.len() - 1 {
                            assert(prefix[i] == snaps[i]);
                            assert(!s.date.spec_before(prefix[i].date));
                            if last.date.spec_before(snaps[i].date) {
                                crate::date::lemma_before_total(s.date, last.date, snaps[i].date);
                                assert(false);
                            }
                        }
                    }
                } else {
                    assert(spec_latest_snap(snaps, aid) == Some(s));
                    assert forall|i: int|
                        0 <= i < snaps.len() && snaps[i].account_id == aid implies !s
                        .date.spec_before(#[trigger] snaps[i].date) by {
                        if i < snaps.len() - 1 {
                            assert(prefix[i] == snaps[i]);
                            assert(!s.date.spec_before(prefix[i].date));
                        }
                    }
                }
            },
            None => {
                if last.account_id == aid {
                    assert(spec_latest_snap(snaps, aid) == Some(last));
                    assert forall|i: int|
                        0 <= i < snaps.len() && snaps[i].account_id == aid implies !last
                        .date.spec_before(#[trigger] snaps[i].date) by {
                        if i < snaps.len() - 1 {
                            assert(prefix[i] == snaps[i]);
                            assert(prefix[i].account_id != aid);
                        }
                    }
                } else {
                    assert(spec_latest_snap(snaps, aid) is None);
                    assert forall|i: int| 0 <= i < snaps.len() implies snaps[i].account_id
                        != aid by {
                        if i < snaps.len() - 1 {
                            assert(prefix[i] == snaps[i]);
                        }
                    }
                }
            },
        }
    }
}

/// Whether a snapshot belongs to an account with this currency code.
pub open spec fn spec_in_currency(
    accounts: Seq<AccountModel>,
    s: SnapshotModel,
    cur: Seq<char>,
) -> bool {
    match spec_find_account(accounts, s.account_id) {
        Some(a) => a.currency == cur,
        None => false,
    }
}

/// The sum of the amounts of every snapshot with this date whose account
/// has this currency code.
pub open spec fn spec_date_total(
    accounts: Seq<AccountModel>,
    snaps: Seq<SnapshotModel>,
    cur: Seq<char>,
    d: Date,
) -> int
    decreases snaps.len(),
{
    if snaps.len() == 0 {
        0
    } else {
        spec_date_total(accounts, snaps.drop_last(), cur, d) + if snaps.last().date == d
            && spec_in_currency(accounts, snaps.last(), cur) {
            snaps.last().amount as int
        } else {
            0int
        }
    }
}

/// One point of the balance history: a date and the summed amount of that
/// date across all accounts of one currency.
#[derive(Clone, Copy, PartialEq, Eq, Structural, Debug)]
pub struct HistoryPoint {
    pub date: Date,
    pub total: i64,
}

/// Strictly ascending calendar order, so every date occurs at most once.
pub open spec fn spec_dates_sorted(dates: Seq<Date>) -> bool {
    forall|k1: int, k2: int|
        0 <= k1 < k2 < dates.len() ==> (#[trigger] dates[k1]).spec_before(#[trigger] dates[k2])
}

/// Whether a date occurs in a sequence of dates.
pub open spec fn spec_date_in(dates: Seq<Date>, d: Date) -> bool {
    exists|k: int| 0 <= k < dates.len() && dates[k] == d
}

/// Whether some snapshot of an account with this currency code carries
/// this date.
pub open spec fn spec_has_dated_snapshot(
    accounts: Seq<AccountModel>,
    snaps: Seq<SnapshotModel>,
    cur: Seq<char>,
    d: Date,
) -> bool {
    exists|l: int|
        0 <= l < snaps.len() && spec_in_currency(accounts, #[trigger] snaps[l], cur)
            && snaps[l].date == d
}

/// A date list with an explicit witness for each entry has a matching
/// snapshot for each entry.
proof fn lemma_dates_witnessed(
    accounts: Seq<AccountModel>,
    snaps: Seq<SnapshotModel>,
    cur: Seq<char>,
    dates: Seq<Date>,
    w: Seq<int>,
)
    requires
        w.len() == dates.len(),
        forall|q: int|
            0 <= q < w.len() ==> 0 <= #[trigger] w[q] < snaps.len() && spec_in_currency(
                accounts,
                snaps[w[q]],
                cur,
            ) && snaps[w[q]].date == dates[q],
    ensures
        forall|q: int|
            0 <= q < dates.len() ==> spec_has_dated_snapshot(
                accounts,
                snaps,
                cur,
                #[trigger] dates[q],
            ),
{
    assert forall|q: int|
        0 <= q < dates.len() implies spec_has_dated_snapshot(
        accounts,
        snaps,
        cur,
        #[trigger] dates[q],
    ) by {
        let l = w[q];
        assert(0 <= l < snaps.len() && spec_in_currency(accounts, snaps[l], cur)
            && snaps[l].date == dates[q]);
    }
}

/// Inserts a date into an ascending list of distinct dates, keeping it
/// ascending; a date already present is left alone. Reports the position
/// of the date and whether a new entry was made.
fn insert_date(dates: &mut Vec<Date>, d: Date) -> (r: (usize, bool))
    requires
        spec_dates_sorted(old(dates)@),
    ensures
        spec_dates_sorted(final(dates)@),
        r.1 ==> r.0 <= old(dates)@.len() && final(dates)@ == old(dates)@.insert(r.0 as int, d),
        !r.1 ==> final(dates)@ == old(dates)@ && r.0 < old(dates)@.len() && old(dates)@[r.0 as int]
            == d,
{
    let ghost before = old(dates)@;
    let mut p: usize = 0;
    while p < dates.len() && dates[p].before(&d)
        invariant
            spec_dates_sorted(dates@),
            dates@ == before,
            0 <= p <= dates@.len(),
            forall|k: int| 0 <= k < p ==> (#[trigger] dates@[k]).spec_before(d),
        decreases dates@.len() - p,
    {
        p += 1;
    }
    if p < dates.len() && dates[p] == d {
        return (p, false);
    }
    proof {
        if p < dates@.len() {
            crate::date::lemma_before_total(dates@[p as int], d, d);
            assert(d.spec_before(dates@[p as int]));
        }
    }
    dates.insert(p, d);
    proof {
        assert(dates@ == before.insert(p as int, d));
        assert forall|k1: int, k2: int|
            0 <= k1 < k2 < dates@.len() implies (#[trigger] dates@[k1]).spec_before(
            #[trigger] dates@[k2],
        ) by {
            if k2 < p as int {
                assert(dates@[k1] == before[k1] && dates@[k2] == before[k2]);
            } else if k1 < p as int && k2 == p as int {
                assert(dates@[k1] == before[k1]);
            } else if k1 < p as int && k2 > p as int {
                assert(dates@[k1] == before[k1] && dates@[k2] == before[k2 - 1]);
            } else if k1 == p as int {
                assert(dates@[k2] == before[k2 - 1]);
                if k2 - 1 > p as int {
                    assert(before[p as int].spec_before(before[k2 - 1]));
                    crate::date::lemma_before_total(d, before[p as int], before[k2 - 1]);
                } else {
                    assert(k2 - 1 == p as int);
                }
            } else {
                assert(dates@[k1] == before[k1 - 1] && dates@[k2] == before[k2 - 1]);
            }
        }
    }
    (p, true)
}

/// One snapshot row: a store-assigned surrogate id, the owning account's
/// id, the observation date, and the integer amount. Immutable once stored;
/// a later insert for the same `(account, date)` pair is dropped.
#[derive(Debug)]
pub struct Snapshot {
    pub id: u64,
    pub account_id: String,
    pub date: Date,
    pub amount: i32,
}

impl View for Snapshot {
    type V = SnapshotModel;

    open spec fn view(&self) -> SnapshotModel {
        SnapshotModel {
            id: self.id,
            account_id: self.account_id@,
            date: self.date,
            amount: self.amount,
        }
    }
}

impl Clone for Snapshot {
    fn clone(&self) -> (r: Self)
        ensures
            r@ == self@,
    {
        Snapshot {
            id: self.id,
            account_id: self.account_id.clone(),
            date: self.date,
            amount: self.amount,
        }
    }
}

impl Snapshot {
    /// Parses the `YYYY-MM-DD` date string and inserts one snapshot.
    /// An unparsable date yields `InvalidDate`; an existing snapshot for the
    /// same `(account, date)` pair yields `Conflict`; either way the store
    /// is unchanged and the pre-existing amount, if any, is kept.
    pub fn create_new_snapshot(
        store: &mut Store,
        account_id: String,
        ymd_string: String,
        amount: i32,
    ) -> (r: Result<Snapshot, SnapshotError>)
        requires
            old(store)@.wf(),
        ensures
            final(store)@.wf(),
            ({
                let (m2, out) = spec_upsert_snapshot(old(store)@, account_id@, ymd_string@, amount);
                final(store)@ == m2 && match out {
                    SnapOutcome::Created => r matches Ok(s) && s@ == m2.snapshots.last(),
                    SnapOutcome::Conflict => r == Err::<Snapshot, SnapshotError>(
                        SnapshotError::Conflict,
                    ),
                    SnapOutcome::InvalidDate => r == Err::<Snapshot, SnapshotError>(
                        SnapshotError::InvalidDate,
                    ),
                }
            }),
    {
        let parsed = parse_ymd(ymd_string.as_str());
        match parsed {
            None => Err(SnapshotError::InvalidDate),
            Some(d) => {
                if store.contains_snapshot(&account_id, &d) {
                    Err(SnapshotError::Conflict)
                } else {
                    let id: u64 = store.snapshots.len() as u64;
                    let s = Snapshot { id, account_id, date: d, amount };
                    let ret = s.clone();
                    store.snapshots.push(s);
                    proof {
                        assert(final(store)@.snapshots =~= old(store)@.snapshots.push(ret@));
                        assert(final(store)@.accounts =~= old(store)@.accounts);
                    }
                    Ok(ret)
                }
            },
        }
    }

    /// Applies `create_new_snapshot` once per `(date, amount)` entry, in
    /// order. Entries are independent: one failure does not block the
    /// others, and the outcome of each entry is reported in the result.
    pub fn update_snapshots(
        store: &mut Store,
        account_id: &String,
        amounts_by_date: &Vec<(String, i32)>,
    ) -> (r: Vec<SnapOutcome>)
        requires
            old(store)@.wf(),
        ensures
            final(store)@.wf(),
            ({
                let (m2, outs) = spec_bulk_upsert(
                    old(store)@,
                    account_id@,
                    Seq::new(amounts_by_date@.len(), |k: int| (amounts_by_date@[k].0@, amounts_by_date@[k].1)),
                );
                final(store)@ == m2 && r@ == outs
            }),
    {
        let ghost entries: Seq<(Seq<char>, i32)> = Seq::new(
            amounts_by_date@.len(),
            |k: int| (amounts_by_date@[k].0@, amounts_by_date@[k].1),
        );
        let mut outs: Vec<SnapOutcome> = Vec::new();
        let mut i: usize = 0;
        while i < amounts_by_date.len()
            invariant
                old(store)@.wf(),
                store@.wf(),
                0 <= i <= amounts_by_date@.len(),
                entries == Seq::new(
                    amounts_by_date@.len(),
                    |k: int| (amounts_by_date@[k].0@, amounts_by_date@[k].1),
                ),
                (store@, outs@) == spec_bulk_upsert(old(store)@, account_id@, entries.take(i as int)),
            decreases amounts_by_date.len() - i,
        {
            let (date, amount) = {
                let entry = &amounts_by_date[i];
                (entry.0.clone(), entry.1)
            };
            assert(date@ == entries[i as int].0);
            let res = Self::create_new_snapshot(store, account_id.clone(), date, amount);
            let out = match res {
                Ok(_) => SnapOutcome::Created,
                Err(SnapshotError::Conflict) => SnapOutcome::Conflict,
                Err(SnapshotError::InvalidDate) => SnapOutcome::InvalidDate,
            };
            outs.push(out);
            proof {
                assert(entries.take(i + 1 as int).drop_last() =~= entries.take(i as int));
                assert(entries.take(i + 1 as int).last() == entries[i as int]);
            }
            i += 1;
        }
        proof {
            assert(entries.take(amounts_by_date@.len() as int) =~= entries);
        }
        outs
    }

    /// Every stored snapshot, in storage order.
    pub fn list_all(store: &Store) -> (r: Vec<Snapshot>)
        ensures
            r@.len() == store@.snapshots.len(),
            forall|k: int| 0 <= k < r@.len() ==> r@[k]@ == store@.snapshots[k],
    {
        let mut out: Vec<Snapshot> = Vec::new();
        let mut i: usize = 0;
        while i < store.snapshots.len()
            invariant
                0 <= i <= store.snapshots.len(),
                out@.len() == i,
                forall|k: int| 0 <= k < i ==> out@[k]@ == store@.snapshots[k],
            decreases store.snapshots.len() - i,
        {
            out.push(store.snapshots[i].clone());
            i += 1;
        }
        out
    }

    /// The stored snapshot of this account with the latest date, if any.
    pub fn latest_snapshot_of(store: &Store, aid: &String) -> (r: Option<Snapshot>)
        ensures
            match r {
                Some(s) => Some(s@) == spec_latest_snap(store@.snapshots, aid@),
                None => spec_latest_snap(store@.snapshots, aid@) is None,
            },
    {
        let mut best: Option<usize> = None;
        let mut j: usize = 0;
        while j < store.snapshots.len()
            invariant
                0 <= j <= store@.snapshots.len(),
                match best {
                    Some(bi) => bi < j && Some(store@.snapshots[bi as int]) == spec_latest_snap(
                        store@.snapshots.take(j as int),
                        aid@,
                    ),
                    None => spec_latest_snap(store@.snapshots.take(j as int), aid@) is None,
                },
            decreases store@.snapshots.len() - j,
        {
            proof {
                assert(store@.snapshots.take(j + 1 as int).drop_last() =~= store@.snapshots.take(
                    j as int,
                ));
                assert(store@.snapshots.take(j + 1 as int).last() == store@.snapshots[j as int]);
            }
            if str_eq(store.snapshots[j].account_id.as_str(), aid.as_str()) {
                match best {
                    None => {
                        best = Some(j);
                    },
                    Some(bi) => {
                        if store.snapshots[bi].date.before(&store.snapshots[j].date) {
                            best = Some(j);
                        }
                    },
                }
            }
            j += 1;
        }
        proof {
            assert(store@.snapshots.take(store@.snapshots.len() as int) =~= store@.snapshots);
        }
        match best {
            Some(bi) => Some(store.snapshots[bi].clone()),
            None => None,
        }
    }

    /// The latest balance of every account of the given currency: exactly
    /// the accounts with that code and at least one snapshot, in account
    /// storage order, each paired with its latest snapshot.
    pub fn latest_per_account(store: &Store, currency: &str) -> (r: Vec<(Snapshot, Account)>)
        ensures
            Seq::new(r@.len(), |k: int| (r@[k].0@, r@[k].1@)) == spec_latest_table(
                store@,
                currency@,
            ),
    {
        let mut out: Vec<(Snapshot, Account)> = Vec::new();
        let mut i: usize = 0;
        while i < store.accounts.len()
            invariant
                0 <= i <= store@.accounts.len(),
                Seq::new(out@.len(), |k: int| (out@[k].0@, out@[k].1@)) == spec_latest_table(
                    StoreModel {
                        accounts: store@.accounts.take(i as int),
                        snapshots: store@.snapshots,
                    },
                    currency@,
                ),
            decreases store@.accounts.len() - i,
        {
            proof {
                assert(store@.accounts.take(i + 1 as int).drop_last() =~= store@.accounts.take(
                    i as int,
                ));
                assert(store@.accounts.take(i + 1 as int).last() == store@.accounts[i as int]);
            }
            let ghost prev = Seq::new(out@.len(), |k: int| (out@[k].0@, out@[k].1@));
            let a = &store.accounts[i];
            if str_eq(a.currency.as_str(), currency) {
                match Self::latest_snapshot_of(store, &a.id) {
                    Some(s) => {
                        let ghost sv = s@;
                        let ghost av = a@;
                        out.push((s, a.clone()));
                        proof {
                            assert(Seq::new(out@.len(), |k: int| (out@[k].0@, out@[k].1@))
                                =~= prev.push((sv, av)));
                        }
                    },
                    None => {},
                }
            }
            i += 1;
        }
        proof {
            assert(store@.accounts.take(store@.accounts.len() as int) =~= store@.accounts);
            assert(StoreModel {
                accounts: store@.accounts.take(store@.accounts.len() as int),
                snapshots: store@.snapshots,
            } == store@);
        }
        out
    }

    /// The balance history of a currency: for every date carried by some
    /// snapshot of an account with that code, the amounts of that date
    /// summed over those accounts, ascending by date. Dates with no such
    /// snapshots are absent, not zero-filled. A date whose sum does not fit
    /// the 64-bit signed range is rejected as `Overflow`, never wrapped.
    /// The balance history of a currency: for every date carried by some
    /// snapshot of an account with that code, the amounts of that date
    /// summed over those accounts, ascending by date. Dates with no such
    /// snapshots are absent, not zero-filled. A date whose sum does not fit
    /// the 64-bit signed range is rejected as `Overflow`, never wrapped.
    pub fn history(store: &Store, currency: &str) -> (r: Result<Vec<HistoryPoint>, ReportError>)
        ensures
            match r {
                Ok(points) => {
                    &&& forall|k1: int, k2: int|
                        0 <= k1 < k2 < points@.len() ==> (#[trigger] points@[k1]).date.spec_before(
                            (#[trigger] points@[k2]).date,
                        )
                    &&& forall|k: int|
                        0 <= k < points@.len() ==> (#[trigger] points@[k]).total as int
                            == spec_date_total(
                            store@.accounts,
                            store@.snapshots,
                            currency@,
                            points@[k].date,
                        )
                    &&& forall|k: int|
                        0 <= k < points@.len() ==> spec_has_dated_snapshot(
                            store@.accounts,
                            store@.snapshots,
                            currency@,
                            (#[trigger] points@[k]).date,
                        )
                    &&& forall|i: int|
                        0 <= i < store@.snapshots.len() && spec_in_currency(
                            store@.accounts,
                            #[trigger] store@.snapshots[i],
                            currency@,
                        ) ==> spec_date_in(
                            Seq::new(points@.len(), |q: int| points@[q].date),
                            store@.snapshots[i].date,
                        )
                },
                Err(e) => e == ReportError::Overflow && exists|i: int|
                    #![auto]
                    0 <= i < store@.snapshots.len() && spec_in_currency(
                        store@.accounts,
                        store@.snapshots[i],
                        currency@,
                    ) && !spec_fits_i64(
                        spec_date_total(
                            store@.accounts,
                            store@.snapshots,
                            currency@,
                            store@.snapshots[i].date,
                        ),
                    ),
            },
    {
        let ghost accs = store@.accounts;
        let ghost snaps = store@.snapshots;
        let ghost curv = currency@;
        let dates = Self::collect_dates(store, currency);
        let mut points: Vec<HistoryPoint> = Vec::new();
        let mut k: usize = 0;
        while k < dates.len()
            invariant
                accs == store@.accounts,
                snaps == store@.snapshots,
                curv == currency@,
                0 <= k <= dates@.len(),
                points@.len() == k,
                forall|q: int|
                    0 <= q < k ==> (#[trigger] points@[q]).date == dates@[q] && points@[q].total
                        as int == spec_date_total(accs, snaps, curv, dates@[q]),
                spec_dates_sorted(dates@),
                forall|l: int|
                    0 <= l < snaps.len() && spec_in_currency(accs, #[trigger] snaps[l], curv)
                        ==> spec_date_in(dates@, snaps[l].date),
                forall|q: int|
                    0 <= q < dates@.len() ==> spec_has_dated_snapshot(
                        accs,
                        snaps,
                        curv,
                        #[trigger] dates@[q],
                    ),
            decreases dates@.len() - k,
        {
            let d = dates[k];
            let t = Self::date_total_of(store, currency, d);
            if t < i64::MIN as i128 || t > i64::MAX as i128 {
                proof {
                    assert(spec_has_dated_snapshot(accs, snaps, curv, dates@[k as int]));
                    let l = choose|l: int|
                        0 <= l < snaps.len() && spec_in_currency(accs, #[trigger] snaps[l], curv)
                            && snaps[l].date == dates@[k as int];
                    assert(!spec_fits_i64(spec_date_total(accs, snaps, curv, snaps[l].date)));
                }
                return Err(ReportError::Overflow);
            }
            points.push(HistoryPoint { date: d, total: t as i64 });
            k += 1;
        }
        proof {
            assert forall|k1: int, k2: int|
                0 <= k1 < k2 < points@.len() implies (#[trigger] points@[k1]).date.spec_before(
                (#[trigger] points@[k2]).date,
            ) by {
                assert(points@[k1].date == dates@[k1]);
                assert(points@[k2].date == dates@[k2]);
            }
            assert forall|l: int|
                0 <= l < snaps.len() && spec_in_currency(accs, #[trigger] snaps[l], curv)
                implies spec_date_in(Seq::new(points@.len(), |q: int| points@[q].date), snaps[l].date) by {
                let q = choose|q: int| 0 <= q < dates@.len() && dates@[q] == snaps[l].date;
                assert(Seq::new(points@.len(), |q: int| points@[q].date)[q] == snaps[l].date);
            }
            assert forall|q: int|
                0 <= q < points@.len() implies spec_has_dated_snapshot(
                accs,
                snaps,
                curv,
                (#[trigger] points@[q]).date,
            ) by {
                assert(points@[q].date == dates@[q]);
                assert(spec_has_dated_snapshot(accs, snaps, curv, dates@[q]));
            }
        }
        Ok(points)
    }

    /// The distinct dates of every snapshot of the currency, ascending.
    fn collect_dates(store: &Store, currency: &str) -> (dates: Vec<Date>)
        ensures
            spec_dates_sorted(dates@),
            forall|l: int|
                0 <= l < store@.snapshots.len() && spec_in_currency(
                    store@.accounts,
                    #[trigger] store@.snapshots[l],
                    currency@,
                ) ==> spec_date_in(dates@, store@.snapshots[l].date),
            forall|q: int|
                0 <= q < dates@.len() ==> spec_has_dated_snapshot(
                    store@.accounts,
                    store@.snapshots,
                    currency@,
                    #[trigger] dates@[q],
                ),
    {
        let ghost accs = store@.accounts;
        let ghost snaps = store@.snapshots;
        let ghost curv = currency@;
        let mut dates: Vec<Date> = Vec::new();
        let ghost mut w: Seq<int> = Seq::empty();
        let mut i: usize = 0;
        while i < store.snapshots.len()
            invariant
                accs == store@.accounts,
                snaps == store@.snapshots,
                curv == currency@,
                0 <= i <= snaps.len(),
                spec_dates_sorted(dates@),
                forall|l: int|
                    0 <= l < i && spec_in_currency(accs, #[trigger] snaps[l], curv)
                        ==> spec_date_in(dates@, snaps[l].date),
                w.len() == dates@.len(),
                forall|q: int|
                    0 <= q < w.len() ==> 0 <= #[trigger] w[q] < i && spec_in_currency(
                        accs,
                        snaps[w[q]],
                        curv,
                    ) && snaps[w[q]].date == dates@[q],
            decreases snaps.len() - i,
        {
            let in_cur = match store.find_account_index(&store.snapshots[i].account_id) {
                Some(ai) => str_eq(store.accounts[ai].currency.as_str(), currency),
                None => false,
            };
            proof {
                assert(in_cur == spec_in_currency(accs, snaps[i as int], curv));
            }
            if in_cur {
                let ghost before = dates@;
                let ghost w_before = w;
                let (p, inserted) = insert_date(&mut dates, store.snapshots[i].date);
                proof {
                    if inserted {
                        w = w_before.insert(p as int, i as int);
                    }
                    assert forall|q: int|
                        0 <= q < w.len() implies 0 <= #[trigger] w[q] < i + 1 && spec_in_currency(
                        accs,
                        snaps[w[q]],
                        curv,
                    ) && snaps[w[q]].date == dates@[q] by {
                        if inserted {
                            if q < p as int {
                                assert(w[q] == w_before[q] && dates@[q] == before[q]);
                            } else if q == p as int {
                                assert(w[q] == i as int && dates@[q] == snaps[i as int].date);
                            } else {
                                assert(w[q] == w_before[q - 1] && dates@[q] == before[q - 1]);
                            }
                        }
                    }
                    assert forall|l: int|
                        0 <= l < i + 1 && spec_in_currency(accs, #[trigger] snaps[l], curv)
                        implies spec_date_in(dates@, snaps[l].date) by {
                        if l < i as int {
                            let k = choose|k: int| 0 <= k < before.len() && before[k]
                                == snaps[l].date;
                            if inserted {
                                if k < p as int {
                                    assert(dates@[k] == snaps[l].date);
                                } else {
                                    assert(dates@[k + 1] == snaps[l].date);
                                }
                            } else {
                                assert(dates@[k] == snaps[l].date);
                            }
                        } else {
                            if inserted {
                                assert(dates@[p as int] == snaps[l].date);
                            } else {
                                assert(dates@[p as int] == snaps[l].date);
                            }
                        }
                    }
                }
            }
            i += 1;
        }
        proof {
            lemma_dates_witnessed(store@.accounts, store@.snapshots, currency@, dates@, w);
        }
        dates
    }

    /// The summed amount of one date over every account of the currency.
    fn date_total_of(store: &Store, currency: &str, d: Date) -> (t: i128)
        ensures
            t as int == spec_date_total(store@.accounts, store@.snapshots, currency@, d),
    {
        let ghost accs = store@.accounts;
        let ghost snaps = store@.snapshots;
        let ghost curv = currency@;
        let mut t: i128 = 0;
        let mut i: usize = 0;
        while i < store.snapshots.len()
            invariant
                accs == store@.accounts,
                snaps == store@.snapshots,
                curv == currency@,
                0 <= i <= snaps.len(),
                t as int == spec_date_total(accs, snaps.take(i as int), curv, d),
                -(i as int) * 0x8000_0000 <= t as int <= (i as int) * 0x8000_0000,
            decreases snaps.len() - i,
        {
            proof {
                assert(snaps.take(i + 1 as int).drop_last() =~= snaps.take(i as int));
                assert(snaps.take(i + 1 as int).last() == snaps[i as int]);
                let c: int = 0x8000_0000;
                assert((i as int) * c + c == (i as int + 1) * c) by (nonlinear_arith);
                lemma_mul_inequality(i as int + 1, usize::MAX as int, c);
                lemma_mul_inequality(usize::MAX as int, u64::MAX as int, c);
            }
            let matches_date = store.snapshots[i].date == d;
            let in_cur = match store.find_account_index(&store.snapshots[i].account_id) {
                Some(ai) => str_eq(store.accounts[ai].currency.as_str(), currency),
                None => false,
            };
            proof {
                assert(in_cur == spec_in_currency(accs, snaps[i as int], curv));
            }
            if matches_date && in_cur {
                t = t + store.snapshots[i].amount as i128;
            }
            i += 1;
        }
        proof {
            assert(snaps.take(snaps.len() as int) =~= snaps);
        }
        t
    }

    /// Removes every snapshot row.
    pub fn delete_snapshots(store: &mut Store)
        requires
            old(store)@.wf(),
        ensures
            final(store)@.wf(),
            final(store)@.snapshots.len() == 0,
            final(store)@.accounts == old(store)@.accounts,
    {
        store.snapshots.clear();
        proof {
            assert(final(store)@.accounts =~= old(store)@.accounts);
        }
    }
}

} // verus!
