use fi_ledger::cli::Cli;
use fi_ledger::currency::Currency;

#[test]
fn currency_codes() {
    assert_eq!(Currency::EUR.as_str(), "EUR");
    assert_eq!(Currency::JPY.as_str(), "JPY");
    assert_eq!(Currency::USD.as_str(), "USD");
}

#[test]
fn currency_the_others() {
    assert_eq!(Currency::EUR.the_others(), [Currency::JPY, Currency::USD]);
    assert_eq!(Currency::JPY.the_others(), [Currency::EUR, Currency::USD]);
    assert_eq!(Currency::USD.the_others(), [Currency::EUR, Currency::JPY]);
}

#[test]
fn currency_from_symbol() {
    for sym in ["eu", "eur", "euro", "EUR"] {
        assert_eq!(Currency::from_str(sym), Currency::EUR);
    }
    for sym in ["jp", "jpy", "yen", "JPY"] {
        assert_eq!(Currency::from_str(sym), Currency::JPY);
    }
    for sym in ["us", "usd", "dollar", "USD"] {
        assert_eq!(Currency::from_str(sym), Currency::USD);
    }
}

#[test]
fn currency_try_from_unknown_symbol() {
    assert_eq!(Currency::try_from_str("gbp"), None);
    assert_eq!(Currency::try_from_str(""), None);
    assert_eq!(Currency::try_from_str("Eur"), None);
    assert_eq!(Currency::try_from_str("usd"), Some(Currency::USD));
}

#[test]
fn cli_commands_carry_their_symbol() {
    let cmd = Cli::Pull { currency: "all".to_string() };
    match cmd {
        Cli::Pull { currency } => assert_eq!(currency, "all"),
        _ => panic!("wrong command"),
    }
    let cmd = Cli::Sum { currency: "usd".to_string() };
    match cmd {
        Cli::Sum { currency } => assert_eq!(currency, "usd"),
        _ => panic!("wrong command"),
    }
    assert!(matches!(Cli::Delete, Cli::Delete));
}
