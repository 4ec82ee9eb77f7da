//! The accounts relation: one named ledger line per external identity.

use vstd::prelude::*;
use vstd::arithmetic::mul::{lemma_mul_inequality, lemma_mul_upper_bound};
use crate::json::JsonValue;
use crate::normalize::{NormalizeError, NormalizedRow, NormalizedRowModel, normalize_row,
    spec_normalize_fields};
use crate::snapshot::Snapshot;
use crate::store::{AccountModel, RepoError, SnapOutcome, Store, StoreModel, spec_bulk_upsert,
    spec_upsert_account};

verus! {

/// One account row: an external-system-assigned id, a display name, a
/// three-letter currency code, and a free-text category description.
/// Created once; never updated after creation.
#[derive(Debug)]
pub struct Account {
    pub id: String,
    pub name: String,
    pub currency: String,
    pub description: String,
}

impl View for Account {
    type V = AccountModel;

    open spec fn view(&self) -> AccountModel {
        AccountModel {
            id: self.id@,
            name: self.name@,
            currency: self.currency@,
            description: self.description@,
        }
    }
}

impl Clone for Account {
    fn clone(&self) -> (r: Self)
        ensures
            r@ == self@,
    {
        Account {
            id: self.id.clone(),
            name: self.name.clone(),
            currency: self.currency.clone(),
            description: self.description.clone(),
        }
    }
}

impl Account {
    /// Inserts a new account, or reports `Conflict` and changes nothing when
    /// an account with the same id is already stored: the stored name,
    /// currency and description are authoritative once set.
    pub fn add_new_account(
        store: &mut Store,
        id: String,
        name: String,
        currency: String,
        description: String,
    ) -> (r: Result<Account, RepoError>)
        requires
            old(store)@.wf(),
        ensures
            final(store)@.wf(),
            ({
                let a = AccountModel { id: id@, name: name@, currency: currency@, description: description@ };
                let (m2, created) = spec_upsert_account(old(store)@, a);
                final(store)@ == m2 && if created {
                    r matches Ok(acc) && acc@ == a
                } else {
                    r == Err::<Account, RepoError>(RepoError::Conflict)
                }
            }),
    {
        if store.contains_account(&id) {
            return Err(RepoError::Conflict);
        }
        let a = Account { id, name, currency, description };
        let ret = a.clone();
        store.accounts.push(a);
        proof {
            assert(final(store)@.accounts =~= old(store)@.accounts.push(ret@));
            assert(final(store)@.snapshots =~= old(store)@.snapshots);
        }
        Ok(ret)
    }

    /// Every stored account, in storage order.
    pub fn list_all(store: &Store) -> (r: Vec<Account>)
        ensures
            r@.len() == store@.accounts.len(),
            forall|k: int| 0 <= k < r@.len() ==> r@[k]@ == store@.accounts[k],
    {
        let mut out: Vec<Account> = Vec::new();
        let mut i: usize = 0;
        while i < store.accounts.len()
            invariant
                0 <= i <= store.accounts.len(),
                out@.len() == i,
                forall|k: int| 0 <= k < i ==> out@[k]@ == store@.accounts[k],
            decreases store.accounts.len() - i,
        {
            out.push(store.accounts[i].clone());
            i += 1;
        }
        out
    }

    /// Synchronizes the store with one fetched table. Every row is
    /// normalized first; only when the whole table is well-shaped and every
    /// amount fits — so a fatal error leaves the store untouched — is each
    /// row applied in order: upsert the account, then upsert its dated
    /// amounts. Conflicts and skipped fields never stop the run; the report
    /// counts accounts and snapshots created and skipped.
    pub fn sync(store: &mut Store, payload: &JsonValue) -> (r: Result<SyncReport, NormalizeError>)
        requires
            old(store)@.wf(),
        ensures
            final(store)@.wf(),
            match *payload {
                JsonValue::Array(rows) => match (r, spec_sync_rows(old(store)@, rows@)) {
                    (Ok(rep), Ok(mc)) => final(store)@ == mc.0 && rep@ == mc.1,
                    (Err(e1), Err(e2)) => e1 == e2 && final(store)@ == old(store)@,
                    _ => false,
                },
                _ => r == Err::<SyncReport, NormalizeError>(NormalizeError::InvalidPayloadShape)
                    && final(store)@ == old(store)@,
            },
    {
        let rows_vec: &Vec<JsonValue> = match payload {
            JsonValue::Array(v) => v,
            _ => {
                return Err(NormalizeError::InvalidPayloadShape);
            },
        };
        let ghost rows = rows_vec@;
        let mut norm: Vec<NormalizedRow> = Vec::new();
        let mut i: usize = 0;
        while i < rows_vec.len()
            invariant
                old(store)@.wf(),
                store@ == old(store)@,
                rows == rows_vec@,
                (*payload) is Array && (*payload)->Array_0@ == rows,
                0 <= i <= rows.len(),
                norm@.len() == i,
                forall|l: int|
                    0 <= l < i ==> rows[l] is Object && spec_normalize_fields(
                        #[trigger] rows[l]->Object_0@,
                    ) == Ok::<NormalizedRowModel, NormalizeError>(norm@[l]@),
                spec_sync_rows(old(store)@, rows.take(i as int)) is Ok,
            decreases rows.len() - i,
        {
            match &rows_vec[i] {
                JsonValue::Object(pairs) => {
                    match normalize_row(pairs) {
                        Ok(rowr) => {
                            norm.push(rowr);
                        },
                        Err(e) => {
                            proof {
                                assert(rows.take(i + 1 as int).drop_last() =~= rows.take(i as int));
                                assert(rows.take(i + 1 as int).last() == rows[i as int]);
                                assert(spec_sync_rows(old(store)@, rows.take(i + 1 as int))
                                    == Err::<(StoreModel, SyncCounts), NormalizeError>(e));
                                lemma_sync_error_persists(old(store)@, rows, i + 1 as int);
                            }
                            return Err(e);
                        },
                    }
                },
                _ => {
                    proof {
                        assert(rows.take(i + 1 as int).drop_last() =~= rows.take(i as int));
                        assert(rows.take(i + 1 as int).last() == rows[i as int]);
                        assert(spec_sync_rows(old(store)@, rows.take(i + 1 as int)) == Err::<
                            (StoreModel, SyncCounts),
                            NormalizeError,
                        >(NormalizeError::InvalidPayloadShape));
                        lemma_sync_error_persists(old(store)@, rows, i + 1 as int);
                    }
                    return Err(NormalizeError::InvalidPayloadShape);
                },
            }
            proof {
                assert(rows.take(i + 1 as int).drop_last() =~= rows.take(i as int));
                assert(rows.take(i + 1 as int).last() == rows[i as int]);
            }
            i += 1;
        }
        proof {
            assert(rows.take(rows.len() as int) =~= rows);
        }
        let mut rep = SyncReport {
            accounts_created: 0,
            accounts_skipped: 0,
            snapshots_created: 0,
            snapshots_skipped: 0,
        };
        let mut i: usize = 0;
        while i < norm.len()
            invariant
                old(store)@.wf(),
                store@.wf(),
                rows == rows_vec@,
                (*payload) is Array && (*payload)->Array_0@ == rows,
                norm@.len() == rows.len(),
                0 <= i <= norm@.len(),
                forall|l: int|
                    0 <= l < norm@.len() ==> rows[l] is Object && spec_normalize_fields(
                        #[trigger] rows[l]->Object_0@,
                    ) == Ok::<NormalizedRowModel, NormalizeError>(norm@[l]@),
                spec_sync_rows(old(store)@, rows.take(i as int)) == Ok::<
                    (StoreModel, SyncCounts),
                    NormalizeError,
                >((store@, rep@)),
                rep@.accounts_created + rep@.accounts_skipped == i as int,
                rep@.snapshots_created + rep@.snapshots_skipped <= (i as int) * (usize::MAX
                    as int),
            decreases norm@.len() - i,
        {
            let row = &norm[i];
            let acc_res = Account::add_new_account(
                store,
                row.id.clone(),
                row.name.clone(),
                row.currency.clone(),
                row.description.clone(),
            );
            let acc_created = acc_res.is_ok();
            let outs = Snapshot::update_snapshots(store, &row.id, &row.amounts);
            proof {
                assert(Seq::new(
                    row.amounts@.len(),
                    |k: int| (row.amounts@[k].0@, row.amounts@[k].1),
                ) =~= norm@[i as int]@.amounts);
            }
            let mut created: usize = 0;
            let mut j: usize = 0;
            while j < outs.len()
                invariant
                    0 <= j <= outs@.len(),
                    created as int == spec_count_created(outs@.take(j as int)),
                    created <= j,
                decreases outs@.len() - j,
            {
                if outs[j] == SnapOutcome::Created {
                    created = created + 1;
                }
                proof {
                    assert(outs@.take(j + 1 as int).drop_last() =~= outs@.take(j as int));
                    assert(outs@.take(j + 1 as int).last() == outs@[j as int]);
                }
                j += 1;
            }
            proof {
                assert(outs@.take(outs@.len() as int) =~= outs@);
            }
            let skipped = outs.len() - created;
            proof {
                let m_big: int = usize::MAX as int;
                assert(rep@.snapshots_created + rep@.snapshots_skipped + outs@.len() <= (i as int
                    + 1) * m_big) by {
                    assert((i as int + 1) * m_big == (i as int) * m_big + m_big)
                        by (nonlinear_arith);
                };
                lemma_mul_inequality(i as int + 1, m_big, m_big);
                lemma_mul_upper_bound(m_big, u64::MAX as int, m_big, u64::MAX as int);
            }
            if acc_created {
                rep.accounts_created = rep.accounts_created + 1;
            } else {
                rep.accounts_skipped = rep.accounts_skipped + 1;
            }
            rep.snapshots_created = rep.snapshots_created + created as u128;
            rep.snapshots_skipped = rep.snapshots_skipped + skipped as u128;
            proof {
                assert(rows.take(i + 1 as int).drop_last() =~= rows.take(i as int));
                assert(rows.take(i + 1 as int).last() == rows[i as int]);
                assert(spec_sync_rows(old(store)@, rows.take(i + 1 as int)) == Ok::<
                    (StoreModel, SyncCounts),
                    NormalizeError,
                >((store@, rep@)));
            }
            i += 1;
        }
        proof {
            assert(rows.take(rows.len() as int) =~= rows);
        }
        Ok(rep)
    }

    /// Removes every account row. When the backing store enforces the
    /// foreign key from snapshots, the caller must have deleted the
    /// snapshots first.
    pub fn delete_accounts(store: &mut Store)
        requires
            old(store)@.wf(),
        ensures
            final(store)@.wf(),
            final(store)@.accounts.len() == 0,
            final(store)@.snapshots == old(store)@.snapshots,
    {
        store.accounts.clear();
        proof {
            assert(final(store)@.snapshots =~= old(store)@.snapshots);
        }
    }
}

/// The counts a sync run reports, as unbounded integers.
pub struct SyncCounts {
    pub accounts_created: int,
    pub accounts_skipped: int,
    pub snapshots_created: int,
    pub snapshots_skipped: int,
}

/// What one sync run did: how many accounts it created, how many it
/// skipped as conflicts, how many snapshots it created, and how many it
/// skipped (conflict or invalid date).
#[derive(Debug)]
pub struct SyncReport {
    pub accounts_created: u128,
    pub accounts_skipped: u128,
    pub snapshots_created: u128,
    pub snapshots_skipped: u128,
}

impl View for SyncReport {
    type V = SyncCounts;

    open spec fn view(&self) -> SyncCounts {
        SyncCounts {
            accounts_created: self.accounts_created as int,
            accounts_skipped: self.accounts_skipped as int,
            snapshots_created: self.snapshots_created as int,
            snapshots_skipped: self.snapshots_skipped as int,
        }
    }
}

/// How many entries of an outcome list were created.
pub open spec fn spec_count_created(outs: Seq<SnapOutcome>) -> int
    decreases outs.len(),
{
    if outs.len() == 0 {
        0
    } else {
        spec_count_created(outs.drop_last()) + if outs.last() == SnapOutcome::Created {
            1int
        } else {
            0int
        }
    }
}

/// The account identity a normalized row names.
pub open spec fn spec_account_of_row(r: NormalizedRowModel) -> AccountModel {
    AccountModel { id: r.id, name: r.name, currency: r.currency, description: r.description }
}

/// What syncing one table row does: normalize it, upsert the account, then
/// upsert every dated amount, and add what happened to the counts.
pub open spec fn spec_sync_row(m: StoreModel, c: SyncCounts, row: JsonValue) -> Result<
    (StoreModel, SyncCounts),
    NormalizeError,
> {
    match row {
        JsonValue::Object(pairs) => match spec_normalize_fields(pairs@) {
            Err(e) => Err(e),
            Ok(r) => {
                let (m1, created) = spec_upsert_account(m, spec_account_of_row(r));
                let (m2, outs) = spec_bulk_upsert(m1, r.id, r.amounts);
                let sc = spec_count_created(outs);
                Ok(
                    (
                        m2,
                        SyncCounts {
                            accounts_created: c.accounts_created + if created {
                                1int
                            } else {
                                0int
                            },
                            accounts_skipped: c.accounts_skipped + if created {
                                0int
                            } else {
                                1int
                            },
                            snapshots_created: c.snapshots_created + sc,
                            snapshots_skipped: c.snapshots_skipped + (outs.len() - sc),
                        },
                    ),
                )
            },
        },
        _ => Err(NormalizeError::InvalidPayloadShape),
    }
}

/// What syncing a whole table does: the rows folded in order, stopping at
/// the first fatal row.
pub open spec fn spec_sync_rows(m: StoreModel, rows: Seq<JsonValue>) -> Result<
    (StoreModel, SyncCounts),
    NormalizeError,
>
    decreases rows.len(),
{
    if rows.len() == 0 {
        Ok(
            (
                m,
                SyncCounts {
                    accounts_created: 0,
                    accounts_skipped: 0,
                    snapshots_created: 0,
                    snapshots_skipped: 0,
                },
            ),
        )
    } else {
        match spec_sync_rows(m, rows.drop_last()) {
            Err(e) => Err(e),
            Ok(mc) => spec_sync_row(mc.0, mc.1, rows.last()),
        }
    }
}

/// Once a prefix of the rows fails, the whole sync fails the same way.
pub proof fn lemma_sync_error_persists(m: StoreModel, rows: Seq<JsonValue>, k: int)
    requires
        0 <= k <= rows.len(),
        spec_sync_rows(m, rows.take(k)) is Err,
    ensures
        spec_sync_rows(m, rows) == spec_sync_rows(m, rows.take(k)),
    decreases rows.len(),
{
    if rows.len() > k {
        assert(rows.drop_last().take(k) =~= rows.take(k));
        lemma_sync_error_persists(m, rows.drop_last(), k);
    } else {
        assert(rows.take(k) =~= rows);
    }
}

} // verus!
