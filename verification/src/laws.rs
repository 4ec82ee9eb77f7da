//! The store-level laws of the idempotent upserts.
//!
//! These proof functions state, over the store model, what the repository
//! promises across several calls: a second upsert for an existing identity
//! changes nothing (first write wins), and an amount written into a fresh
//! `(account, date)` pair reads back exactly.

use vstd::prelude::*;
use crate::date::{Date, date_of};
use crate::snapshot::{lemma_latest_snap_props, spec_latest_snap};
use crate::store::{AccountModel, SnapOutcome, SnapshotModel, StoreModel, spec_upsert_account,
    spec_upsert_snapshot};

verus! {

/// A store holds no amount for a pair exactly when it has no snapshot for
/// that pair.
pub proof fn lemma_amount_of_none(m: StoreModel, aid: Seq<char>, d: Date)
    ensures
        m.amount_of(aid, d) is None <==> !m.has_snapshot(aid, d),
    decreases m.snapshots.len(),
{
    if m.snapshots.len() == 0 {
    } else if m.snapshots[0].account_id == aid && m.snapshots[0].date == d {
    } else {
        let rest = StoreModel { accounts: m.accounts, snapshots: m.snapshots.drop_first() };
        lemma_amount_of_none(rest, aid, d);
        assert(m.has_snapshot(aid, d) ==> rest.has_snapshot(aid, d)) by {
            if m.has_snapshot(aid, d) {
                let i = choose|i: int|
                    0 <= i < m.snapshots.len() && m.snapshots[i].account_id == aid
                        && m.snapshots[i].date == d;
                assert(rest.snapshots[i - 1] == m.snapshots[i]);
            }
        }
        assert(rest.has_snapshot(aid, d) ==> m.has_snapshot(aid, d)) by {
            if rest.has_snapshot(aid, d) {
                let i = choose|i: int|
                    0 <= i < rest.snapshots.len() && rest.snapshots[i].account_id == aid
                        && rest.snapshots[i].date == d;
                assert(m.snapshots[i + 1] == rest.snapshots[i]);
            }
        }
    }
}

/// Appending a snapshot row never changes the amount stored for a pair the
/// store already holds, and fills exactly the appended row's pair otherwise.
pub proof fn lemma_amount_of_push(m: StoreModel, s: SnapshotModel, aid: Seq<char>, d: Date)
    ensures
        ({
            let m2 = StoreModel { accounts: m.accounts, snapshots: m.snapshots.push(s) };
            m2.amount_of(aid, d) == if m.amount_of(aid, d) is Some {
                m.amount_of(aid, d)
            } else if s.account_id == aid && s.date == d {
                Some(s.amount)
            } else {
                None::<i32>
            }
        }),
    decreases m.snapshots.len(),
{
    let m2 = StoreModel { accounts: m.accounts, snapshots: m.snapshots.push(s) };
    if m.snapshots.len() == 0 {
        assert(m2.snapshots[0] == s);
        assert(m.amount_of(aid, d) is None);
        if s.account_id == aid && s.date == d {
            assert(m2.amount_of(aid, d) == Some(s.amount));
        } else {
            let e = StoreModel { accounts: m.accounts, snapshots: m2.snapshots.drop_first() };
            assert(e.snapshots =~= Seq::<SnapshotModel>::empty());
            assert(e.amount_of(aid, d) is None);
            assert(m2.amount_of(aid, d) == e.amount_of(aid, d));
        }
    } else {
        assert(m2.snapshots[0] == m.snapshots[0]);
        let rest = StoreModel { accounts: m.accounts, snapshots: m.snapshots.drop_first() };
        let rest2 = StoreModel { accounts: m.accounts, snapshots: rest.snapshots.push(s) };
        assert(m2.snapshots.drop_first() =~= rest.snapshots.push(s));
        lemma_amount_of_push(rest, s, aid, d);
        if m.snapshots[0].account_id == aid && m.snapshots[0].date == d {
            assert(m.amount_of(aid, d) == Some(m.snapshots[0].amount));
            assert(m2.amount_of(aid, d) == Some(m.snapshots[0].amount));
        } else {
            assert(StoreModel { accounts: m2.accounts, snapshots: m2.snapshots.drop_first() }
                == rest2);
            assert(m2.amount_of(aid, d) == rest2.amount_of(aid, d));
            assert(m.amount_of(aid, d) == rest.amount_of(aid, d));
        }
    }
}

/// Upserting the same account id twice leaves the stored fields unchanged:
/// whatever the first upsert did, the second upsert with that id changes
/// nothing and creates nothing (first write wins).
pub proof fn lemma_account_upsert_first_write_wins(
    m: StoreModel,
    a: AccountModel,
    b: AccountModel,
)
    requires
        a.id == b.id,
    ensures
        ({
            let (m1, created1) = spec_upsert_account(m, a);
            let (m2, created2) = spec_upsert_account(m1, b);
            m2 == m1 && !created2
        }),
{
    let (m1, created1) = spec_upsert_account(m, a);
    if created1 {
        assert(m1.accounts[m.accounts.len() as int] == a);
        assert(m1.has_account(b.id));
    }
}

/// Upserting two snapshots for the same `(account, date)` pair keeps the
/// first amount: when the first upsert created the row, the second reports
/// `Conflict`, changes nothing, and the stored amount is still the first
/// one.
pub proof fn lemma_snapshot_upsert_first_write_wins(
    m: StoreModel,
    aid: Seq<char>,
    ymd: Seq<char>,
    amount1: i32,
    amount2: i32,
)
    ensures
        ({
            let (m1, out1) = spec_upsert_snapshot(m, aid, ymd, amount1);
            let (m2, out2) = spec_upsert_snapshot(m1, aid, ymd, amount2);
            m2 == m1 && out2 != SnapOutcome::Created && (out1 == SnapOutcome::Created ==> {
                let d = spec_parsed_date(ymd);
                out2 == SnapOutcome::Conflict && m2.amount_of(aid, d) == Some(amount1)
            })
        }),
{
    let (m1, out1) = spec_upsert_snapshot(m, aid, ymd, amount1);
    match date_of(ymd) {
        None => {},
        Some(t) => {
            let d = Date { year: t.0 as i32, month: t.1 as u8, day: t.2 as u8 };
            if out1 == SnapOutcome::Created {
                let s = SnapshotModel {
                    id: m.snapshots.len() as u64,
                    account_id: aid,
                    date: d,
                    amount: amount1,
                };
                assert(m1.snapshots[m.snapshots.len() as int] == s);
                assert(m1.has_snapshot(aid, d));
                lemma_amount_of_none(m, aid, d);
                lemma_amount_of_push(m, s, aid, d);
            }
        },
    }
}

/// A stored row's amount is the amount the store holds for its pair, as
/// long as the pair-uniqueness invariant holds.
pub proof fn lemma_amount_of_at(m: StoreModel, aid: Seq<char>, d: Date, i: int)
    requires
        m.snapshots_unique(),
        0 <= i < m.snapshots.len(),
        m.snapshots[i].account_id == aid,
        m.snapshots[i].date == d,
    ensures
        m.amount_of(aid, d) == Some(m.snapshots[i].amount),
    decreases m.snapshots.len(),
{
    if m.snapshots[0].account_id == aid && m.snapshots[0].date == d {
        assert(i == 0);
    } else {
        let rest = StoreModel { accounts: m.accounts, snapshots: m.snapshots.drop_first() };
        assert(rest.snapshots_unique()) by {
            assert(forall|k: int|
                0 <= k < rest.snapshots.len() ==> #[trigger] rest.snapshots[k] == m.snapshots[k
                    + 1]);
        }
        assert(rest.snapshots[i - 1] == m.snapshots[i]);
        lemma_amount_of_at(rest, aid, d, i - 1);
    }
}

/// What the latest-balance report shows for an account is exactly the
/// amount the store holds for that account at that date: reading a balance
/// back loses nothing.
pub proof fn lemma_latest_reads_stored(m: StoreModel, aid: Seq<char>)
    requires
        m.snapshots_unique(),
    ensures
        match spec_latest_snap(m.snapshots, aid) {
            Some(s) => m.amount_of(aid, s.date) == Some(s.amount),
            None => true,
        },
{
    lemma_latest_snap_props(m.snapshots, aid);
    match spec_latest_snap(m.snapshots, aid) {
        Some(s) => {
            let i = choose|i: int| 0 <= i < m.snapshots.len() && m.snapshots[i] == s;
            lemma_amount_of_at(m, aid, s.date, i);
        },
        None => {},
    }
}

/// The date that a parsable `YYYY-MM-DD` string stands for.
pub open spec fn spec_parsed_date(ymd: Seq<char>) -> Date
    recommends
        date_of(ymd) is Some,
{
    let t = date_of(ymd)->Some_0;
    Date { year: t.0 as i32, month: t.1 as u8, day: t.2 as u8 }
}

/// Round trip: an amount written into a fresh `(account, date)` pair is
/// created and reads back exactly, with no precision loss.
pub proof fn lemma_sync_round_trip(m: StoreModel, aid: Seq<char>, ymd: Seq<char>, amount: i32)
    requires
        date_of(ymd) is Some,
        !m.has_snapshot(aid, spec_parsed_date(ymd)),
    ensures
        ({
            let (m2, out) = spec_upsert_snapshot(m, aid, ymd, amount);
            out == SnapOutcome::Created && m2.amount_of(aid, spec_parsed_date(ymd)) == Some(
                amount,
            )
        }),
{
    let d = spec_parsed_date(ymd);
    let s = SnapshotModel {
        id: m.snapshots.len() as u64,
        account_id: aid,
        date: d,
        amount,
    };
    lemma_amount_of_none(m, aid, d);
    lemma_amount_of_push(m, s, aid, d);
}

} // verus!
