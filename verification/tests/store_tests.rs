use fi_ledger::account::Account;
use fi_ledger::date::Date;
use fi_ledger::delete_data;
use fi_ledger::snapshot::Snapshot;
use fi_ledger::store::{RepoError, SnapOutcome, SnapshotError, Store};

fn s(x: &str) -> String {
    x.to_string()
}

#[test]
fn account_upsert_first_write_wins() {
    let mut store = Store::new();
    let created = Account::add_new_account(&mut store, s("a1"), s("Cash"), s("USD"), s("checking"));
    let acc = created.unwrap();
    assert_eq!(acc.id, "a1");
    assert_eq!(acc.name, "Cash");
    let second =
        Account::add_new_account(&mut store, s("a1"), s("Other"), s("EUR"), s("savings"));
    assert_eq!(second.unwrap_err(), RepoError::Conflict);
    let all = Account::list_all(&store);
    assert_eq!(all.len(), 1);
    assert_eq!(all[0].name, "Cash");
    assert_eq!(all[0].currency, "USD");
    assert_eq!(all[0].description, "checking");
}

#[test]
fn snapshot_upsert_first_write_wins() {
    let mut store = Store::new();
    Account::add_new_account(&mut store, s("a1"), s("Cash"), s("USD"), s("checking")).unwrap();
    let first = Snapshot::create_new_snapshot(&mut store, s("a1"), s("2024-01-01"), 100);
    let snap = first.unwrap();
    assert_eq!(snap.account_id, "a1");
    assert_eq!(snap.date, Date { year: 2024, month: 1, day: 1 });
    assert_eq!(snap.amount, 100);
    let second = Snapshot::create_new_snapshot(&mut store, s("a1"), s("2024-01-01"), 200);
    assert_eq!(second.unwrap_err(), SnapshotError::Conflict);
    let all = Snapshot::list_all(&store);
    assert_eq!(all.len(), 1);
    assert_eq!(all[0].amount, 100);
}

#[test]
fn snapshot_rejects_invalid_date() {
    let mut store = Store::new();
    let res = Snapshot::create_new_snapshot(&mut store, s("a1"), s("not-a-date"), 5);
    assert_eq!(res.unwrap_err(), SnapshotError::InvalidDate);
    assert!(Snapshot::list_all(&store).is_empty());
}

#[test]
fn date_parser_validates_calendar() {
    let mut store = Store::new();
    let leap = Snapshot::create_new_snapshot(&mut store, s("a1"), s("2024-02-29"), 1).unwrap();
    assert_eq!(leap.date, Date { year: 2024, month: 2, day: 29 });
    let plain = Snapshot::create_new_snapshot(&mut store, s("a1"), s("2015-09-18"), 2).unwrap();
    assert_eq!(plain.date, Date { year: 2015, month: 9, day: 18 });
    for bad in ["2023-02-29", "2023-13-01", "2023-01-32", "", "foo"] {
        let res = Snapshot::create_new_snapshot(&mut store, s("a1"), s(bad), 3);
        assert_eq!(res.unwrap_err(), SnapshotError::InvalidDate);
    }
    assert_eq!(Snapshot::list_all(&store).len(), 2);
}

#[test]
fn bulk_upsert_reports_each_outcome() {
    let mut store = Store::new();
    let entries = vec![
        (s("2024-01-01"), 10),
        (s("2024-01-01"), 20),
        (s("bad-date"), 30),
        (s("2024-01-02"), 40),
    ];
    let outcomes = Snapshot::update_snapshots(&mut store, &s("a1"), &entries);
    assert_eq!(
        outcomes,
        vec![
            SnapOutcome::Created,
            SnapOutcome::Conflict,
            SnapOutcome::InvalidDate,
            SnapOutcome::Created,
        ]
    );
    let all = Snapshot::list_all(&store);
    assert_eq!(all.len(), 2);
    assert_eq!(all[0].amount, 10);
    assert_eq!(all[1].amount, 40);
}

#[test]
fn delete_all_leaves_both_relations_empty() {
    let mut store = Store::new();
    Account::add_new_account(&mut store, s("a1"), s("Cash"), s("USD"), s("checking")).unwrap();
    Snapshot::create_new_snapshot(&mut store, s("a1"), s("2024-01-01"), 100).unwrap();
    delete_data(&mut store);
    assert!(Account::list_all(&store).is_empty());
    assert!(Snapshot::list_all(&store).is_empty());
}

#[test]
fn snapshot_ids_are_distinct() {
    let mut store = Store::new();
    Snapshot::create_new_snapshot(&mut store, s("a1"), s("2024-01-01"), 1).unwrap();
    Snapshot::create_new_snapshot(&mut store, s("a1"), s("2024-01-02"), 2).unwrap();
    let all = Snapshot::list_all(&store);
    assert_eq!(all.len(), 2);
    assert_ne!(all[0].id, all[1].id);
}
