use fi_ledger::account::Account;
use fi_ledger::currency::Currency;
use fi_ledger::json::JsonValue;
use fi_ledger::normalize::NormalizeError;
use fi_ledger::report::latest_sum;
use fi_ledger::snapshot::Snapshot;
use fi_ledger::store::Store;

fn s(x: &str) -> String {
    x.to_string()
}

fn row(id: &str, name: &str, currency: &str, kind: &str, amounts: &[(&str, i64)]) -> JsonValue {
    let mut pairs = vec![
        (s("id"), JsonValue::Str(s(id))),
        (s("Name"), JsonValue::Str(s(name))),
        (s("Currency"), JsonValue::Str(s(currency))),
        (s("Type"), JsonValue::Str(s(kind))),
    ];
    for (date, amount) in amounts {
        pairs.push((s(date), JsonValue::IntNumber(*amount)));
    }
    JsonValue::Object(pairs)
}

#[test]
fn sync_creates_accounts_and_snapshots() {
    let mut store = Store::new();
    let payload = JsonValue::Array(vec![
        row("a", "Cash", "USD", "checking", &[("2024-01-01", 100), ("2024-02-01", 120)]),
        row("b", "Bank", "USD", "savings", &[("2024-01-15", 50)]),
    ]);
    let rep = Account::sync(&mut store, &payload).unwrap();
    assert_eq!(rep.accounts_created, 2);
    assert_eq!(rep.accounts_skipped, 0);
    assert_eq!(rep.snapshots_created, 3);
    assert_eq!(rep.snapshots_skipped, 0);
    assert_eq!(Account::list_all(&store).len(), 2);
    assert_eq!(Snapshot::list_all(&store).len(), 3);
}

#[test]
fn sync_twice_is_idempotent() {
    let mut store = Store::new();
    let payload = JsonValue::Array(vec![
        row("a", "Cash", "USD", "checking", &[("2024-01-01", 100)]),
    ]);
    Account::sync(&mut store, &payload).unwrap();
    let changed = JsonValue::Array(vec![
        row("a", "Renamed", "EUR", "other", &[("2024-01-01", 999)]),
    ]);
    let rep = Account::sync(&mut store, &changed).unwrap();
    assert_eq!(rep.accounts_created, 0);
    assert_eq!(rep.accounts_skipped, 1);
    assert_eq!(rep.snapshots_created, 0);
    assert_eq!(rep.snapshots_skipped, 1);
    // First write wins everywhere.
    let accounts = Account::list_all(&store);
    assert_eq!(accounts[0].name, "Cash");
    assert_eq!(accounts[0].currency, "USD");
    let snapshots = Snapshot::list_all(&store);
    assert_eq!(snapshots[0].amount, 100);
}

#[test]
fn sync_round_trip_preserves_amounts() {
    let mut store = Store::new();
    let payload = JsonValue::Array(vec![
        row("a", "Cash", "USD", "checking", &[("2024-01-01", i64::from(i32::MAX))]),
        row("b", "Debt", "USD", "loan", &[("2024-01-01", i64::from(i32::MIN))]),
    ]);
    Account::sync(&mut store, &payload).unwrap();
    let table = Snapshot::latest_per_account(&store, "USD");
    assert_eq!(table[0].0.amount, i32::MAX);
    assert_eq!(table[1].0.amount, i32::MIN);
    let points = Snapshot::history(&store, "USD").unwrap();
    assert_eq!(points[0].total, i64::from(i32::MAX) + i64::from(i32::MIN));
    let rep = latest_sum(&store, &Currency::USD).unwrap();
    assert_eq!(rep.total, i64::from(i32::MAX) + i64::from(i32::MIN));
}

#[test]
fn sync_rejects_non_array_payload() {
    let mut store = Store::new();
    let res = Account::sync(&mut store, &JsonValue::Str(s("nope")));
    assert_eq!(res.unwrap_err(), NormalizeError::InvalidPayloadShape);
    assert!(Account::list_all(&store).is_empty());
}

#[test]
fn sync_rejects_non_object_row() {
    let mut store = Store::new();
    let payload = JsonValue::Array(vec![
        row("a", "Cash", "USD", "checking", &[("2024-01-01", 1)]),
        JsonValue::IntNumber(3),
    ]);
    let res = Account::sync(&mut store, &payload);
    assert_eq!(res.unwrap_err(), NormalizeError::InvalidPayloadShape);
    // A fatal error leaves the store untouched.
    assert!(Account::list_all(&store).is_empty());
    assert!(Snapshot::list_all(&store).is_empty());
}

#[test]
fn sync_rejects_malformed_amount() {
    let mut store = Store::new();
    let payload = JsonValue::Array(vec![row(
        "a",
        "Cash",
        "USD",
        "checking",
        &[("2024-01-01", i64::MAX)],
    )]);
    let res = Account::sync(&mut store, &payload);
    assert_eq!(res.unwrap_err(), NormalizeError::MalformedAmount);
    assert!(Account::list_all(&store).is_empty());
}

#[test]
fn sync_counts_invalid_dates_as_skipped() {
    let mut store = Store::new();
    let payload = JsonValue::Array(vec![row(
        "a",
        "Cash",
        "USD",
        "checking",
        &[("2024-01-01", 1), ("never", 2)],
    )]);
    let rep = Account::sync(&mut store, &payload).unwrap();
    assert_eq!(rep.snapshots_created, 1);
    assert_eq!(rep.snapshots_skipped, 1);
    assert_eq!(Snapshot::list_all(&store).len(), 1);
}

#[test]
fn sync_empty_array_reports_nothing() {
    let mut store = Store::new();
    let rep = Account::sync(&mut store, &JsonValue::Array(Vec::new())).unwrap();
    assert_eq!(rep.accounts_created, 0);
    assert_eq!(rep.accounts_skipped, 0);
    assert_eq!(rep.snapshots_created, 0);
    assert_eq!(rep.snapshots_skipped, 0);
}
