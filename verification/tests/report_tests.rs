use fi_ledger::account::Account;
use fi_ledger::currency::Currency;
use fi_ledger::date::Date;
use fi_ledger::report::{history_report, latest_sum, net_worth, ExchangeRates};
use fi_ledger::snapshot::Snapshot;
use fi_ledger::store::{ReportError, Store};

fn s(x: &str) -> String {
    x.to_string()
}

fn two_account_store() -> Store {
    let mut store = Store::new();
    Account::add_new_account(&mut store, s("a"), s("A"), s("USD"), s("checking")).unwrap();
    Account::add_new_account(&mut store, s("b"), s("B"), s("USD"), s("savings")).unwrap();
    Snapshot::create_new_snapshot(&mut store, s("a"), s("2024-01-01"), 100).unwrap();
    Snapshot::create_new_snapshot(&mut store, s("a"), s("2024-02-01"), 120).unwrap();
    Snapshot::create_new_snapshot(&mut store, s("b"), s("2024-01-15"), 50).unwrap();
    store
}

#[test]
fn latest_per_account_picks_max_date() {
    let store = two_account_store();
    let table = Snapshot::latest_per_account(&store, "USD");
    assert_eq!(table.len(), 2);
    assert_eq!(table[0].1.id, "a");
    assert_eq!(table[0].0.amount, 120);
    assert_eq!(table[0].0.date, Date { year: 2024, month: 2, day: 1 });
    assert_eq!(table[1].1.id, "b");
    assert_eq!(table[1].0.amount, 50);
}

#[test]
fn latest_sum_totals_latest_amounts() {
    let store = two_account_store();
    let rep = latest_sum(&store, &Currency::USD).unwrap();
    assert_eq!(rep.total, 170);
    assert_eq!(rep.lines.len(), 2);
    let rep_eur = latest_sum(&store, &Currency::EUR).unwrap();
    assert_eq!(rep_eur.total, 0);
    assert!(rep_eur.lines.is_empty());
}

#[test]
fn latest_ignores_other_currencies() {
    let mut store = two_account_store();
    Account::add_new_account(&mut store, s("c"), s("C"), s("EUR"), s("cash")).unwrap();
    Snapshot::create_new_snapshot(&mut store, s("c"), s("2024-03-01"), 999).unwrap();
    let rep = latest_sum(&store, &Currency::USD).unwrap();
    assert_eq!(rep.total, 170);
}

#[test]
fn history_sums_by_date_ascending() {
    let store = two_account_store();
    let points = Snapshot::history(&store, "USD").unwrap();
    assert_eq!(points.len(), 3);
    assert_eq!(points[0].date, Date { year: 2024, month: 1, day: 1 });
    assert_eq!(points[0].total, 100);
    assert_eq!(points[1].date, Date { year: 2024, month: 1, day: 15 });
    assert_eq!(points[1].total, 50);
    assert_eq!(points[2].date, Date { year: 2024, month: 2, day: 1 });
    assert_eq!(points[2].total, 120);
}

#[test]
fn history_groups_same_date_across_accounts() {
    let mut store = Store::new();
    Account::add_new_account(&mut store, s("a"), s("A"), s("USD"), s("x")).unwrap();
    Account::add_new_account(&mut store, s("b"), s("B"), s("USD"), s("y")).unwrap();
    Snapshot::create_new_snapshot(&mut store, s("a"), s("2024-01-01"), 30).unwrap();
    Snapshot::create_new_snapshot(&mut store, s("b"), s("2024-01-01"), 12).unwrap();
    let points = Snapshot::history(&store, "USD").unwrap();
    assert_eq!(points.len(), 1);
    assert_eq!(points[0].total, 42);
}

#[test]
fn history_report_improving() {
    let mut store = Store::new();
    Account::add_new_account(&mut store, s("a"), s("A"), s("USD"), s("x")).unwrap();
    Snapshot::create_new_snapshot(&mut store, s("a"), s("2024-01-01"), 100).unwrap();
    Snapshot::create_new_snapshot(&mut store, s("a"), s("2024-02-01"), 120).unwrap();
    let points = Snapshot::history(&store, "USD").unwrap();
    let lines = history_report(&points);
    assert_eq!(lines.len(), 2);
    assert_eq!(lines[0].diff, None);
    assert_eq!(lines[0].diff_percent, None);
    assert_eq!(lines[0].improving, None);
    assert_eq!(lines[1].diff, Some(20));
    assert_eq!(lines[1].diff_percent, Some(120));
    assert_eq!(lines[1].improving, Some(true));
}

#[test]
fn history_report_declining() {
    let mut store = Store::new();
    Account::add_new_account(&mut store, s("a"), s("A"), s("USD"), s("x")).unwrap();
    Snapshot::create_new_snapshot(&mut store, s("a"), s("2024-01-01"), 120).unwrap();
    Snapshot::create_new_snapshot(&mut store, s("a"), s("2024-02-01"), 100).unwrap();
    let points = Snapshot::history(&store, "USD").unwrap();
    let lines = history_report(&points);
    assert_eq!(lines[1].diff, Some(-20));
    assert_eq!(lines[1].diff_percent, Some(83));
    assert_eq!(lines[1].improving, Some(false));
}

#[test]
fn history_report_zero_previous_total() {
    let mut store = Store::new();
    Account::add_new_account(&mut store, s("a"), s("A"), s("USD"), s("x")).unwrap();
    Snapshot::create_new_snapshot(&mut store, s("a"), s("2024-01-01"), 0).unwrap();
    Snapshot::create_new_snapshot(&mut store, s("a"), s("2024-02-01"), 5).unwrap();
    let points = Snapshot::history(&store, "USD").unwrap();
    let lines = history_report(&points);
    assert_eq!(lines[1].diff, Some(5));
    assert_eq!(lines[1].diff_percent, None);
    assert_eq!(lines[1].improving, Some(true));
}

fn full_rates() -> ExchangeRates {
    ExchangeRates {
        base: s("USD"),
        rates: vec![(s("EUR"), 500_000), (s("JPY"), 100_000_000)],
    }
}

#[test]
fn net_worth_converts_and_totals() {
    let mut store = Store::new();
    Account::add_new_account(&mut store, s("u"), s("Wallet"), s("USD"), s("cash")).unwrap();
    Account::add_new_account(&mut store, s("e"), s("Bank"), s("EUR"), s("checking")).unwrap();
    Account::add_new_account(&mut store, s("j"), s("Yen"), s("JPY"), s("cash")).unwrap();
    Snapshot::create_new_snapshot(&mut store, s("u"), s("2024-01-01"), 50).unwrap();
    Snapshot::create_new_snapshot(&mut store, s("e"), s("2024-01-01"), 100).unwrap();
    Snapshot::create_new_snapshot(&mut store, s("j"), s("2024-01-01"), 1000).unwrap();
    let rep = net_worth(&store, &Currency::USD, &full_rates()).unwrap();
    assert_eq!(rep.base, Currency::USD);
    assert_eq!(rep.base_lines.len(), 1);
    assert_eq!(rep.base_lines[0].0.amount, 50);
    assert_eq!(rep.sections.len(), 2);
    assert_eq!(rep.sections[0].currency, Currency::EUR);
    assert_eq!(rep.sections[0].rate_micro, 500_000);
    assert_eq!(rep.sections[0].lines.len(), 1);
    // 100 EUR at 0.5 EUR per USD converts to 200 USD.
    assert_eq!(rep.sections[0].lines[0].2, 200);
    assert_eq!(rep.sections[1].currency, Currency::JPY);
    // 1000 JPY at 100 JPY per USD converts to 10 USD.
    assert_eq!(rep.sections[1].lines[0].2, 10);
    assert_eq!(rep.total, 260);
}

#[test]
fn net_worth_rounds_half_away_from_zero() {
    let mut store = Store::new();
    Account::add_new_account(&mut store, s("e"), s("Bank"), s("EUR"), s("x")).unwrap();
    Snapshot::create_new_snapshot(&mut store, s("e"), s("2024-01-01"), 5).unwrap();
    // 5 EUR at 2 EUR per USD is 2.5 USD: rounds to 3.
    let rates = ExchangeRates { base: s("USD"), rates: vec![(s("EUR"), 2_000_000), (s("JPY"), 1)] };
    let rep = net_worth(&store, &Currency::USD, &rates).unwrap();
    assert_eq!(rep.sections[0].lines[0].2, 3);
    assert_eq!(rep.total, 3);
}

#[test]
fn net_worth_converts_negative_amounts() {
    let mut store = Store::new();
    Account::add_new_account(&mut store, s("e"), s("Debt"), s("EUR"), s("loan")).unwrap();
    Snapshot::create_new_snapshot(&mut store, s("e"), s("2024-01-01"), -5).unwrap();
    let rates = ExchangeRates { base: s("USD"), rates: vec![(s("EUR"), 2_000_000), (s("JPY"), 1)] };
    let rep = net_worth(&store, &Currency::USD, &rates).unwrap();
    assert_eq!(rep.sections[0].lines[0].2, -3);
    assert_eq!(rep.total, -3);
}

#[test]
fn net_worth_requires_both_rates() {
    let store = Store::new();
    let missing = ExchangeRates { base: s("USD"), rates: vec![(s("EUR"), 500_000)] };
    match net_worth(&store, &Currency::USD, &missing) {
        Err(e) => assert_eq!(e, ReportError::ExchangeRateUnavailable),
        Ok(_) => panic!("expected a missing-rate error"),
    }
    let zero = ExchangeRates { base: s("USD"), rates: vec![(s("EUR"), 0), (s("JPY"), 1)] };
    match net_worth(&store, &Currency::USD, &zero) {
        Err(e) => assert_eq!(e, ReportError::ExchangeRateUnavailable),
        Ok(_) => panic!("expected a zero-rate error"),
    }
}

#[test]
fn rate_lookup_finds_first_match() {
    let rates = ExchangeRates {
        base: s("USD"),
        rates: vec![(s("EUR"), 1), (s("EUR"), 2), (s("JPY"), 3)],
    };
    assert_eq!(rates.rate_of("EUR"), Some(1));
    assert_eq!(rates.rate_of("JPY"), Some(3));
    assert_eq!(rates.rate_of("GBP"), None);
}
