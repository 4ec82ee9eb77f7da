use fi_ledger::json::JsonValue;
use fi_ledger::normalize::{normalize_row, NormalizeError};

fn pair(k: &str, v: JsonValue) -> (String, JsonValue) {
    (k.to_string(), v)
}

#[test]
fn normalize_basic_row() {
    let pairs = vec![
        pair("id", JsonValue::Str("a1".to_string())),
        pair("Name", JsonValue::Str("Cash".to_string())),
        pair("Currency", JsonValue::Str("USD".to_string())),
        pair("Type", JsonValue::Str("checking".to_string())),
        pair("2024-01-01", JsonValue::IntNumber(100)),
        pair("2024-02-01", JsonValue::IntNumber(150)),
    ];
    let row = normalize_row(&pairs).unwrap();
    assert_eq!(row.id, "a1");
    assert_eq!(row.name, "Cash");
    assert_eq!(row.currency, "USD");
    assert_eq!(row.description, "checking");
    assert_eq!(row.amounts.len(), 2);
    assert_eq!(row.amounts[0], ("2024-01-01".to_string(), 100));
    assert_eq!(row.amounts[1], ("2024-02-01".to_string(), 150));
    assert!(row.skipped.is_empty());
}

#[test]
fn normalize_rejects_amount_out_of_range() {
    let pairs = vec![
        pair("id", JsonValue::Str("a1".to_string())),
        pair("2024-01-01", JsonValue::IntNumber(i64::from(i32::MAX) + 1)),
    ];
    assert!(matches!(normalize_row(&pairs), Err(NormalizeError::MalformedAmount)));
    let pairs = vec![pair("2024-01-01", JsonValue::IntNumber(i64::from(i32::MIN) - 1))];
    assert!(matches!(normalize_row(&pairs), Err(NormalizeError::MalformedAmount)));
}

#[test]
fn normalize_accepts_extreme_i32_amounts() {
    let pairs = vec![
        pair("2024-01-01", JsonValue::IntNumber(i64::from(i32::MAX))),
        pair("2024-01-02", JsonValue::IntNumber(i64::from(i32::MIN))),
    ];
    let row = normalize_row(&pairs).unwrap();
    assert_eq!(row.amounts[0].1, i32::MAX);
    assert_eq!(row.amounts[1].1, i32::MIN);
}

#[test]
fn normalize_rejects_fractional_number() {
    let pairs = vec![pair("2024-01-01", JsonValue::OtherNumber)];
    assert!(matches!(normalize_row(&pairs), Err(NormalizeError::MalformedAmount)));
}

#[test]
fn normalize_skips_non_numeric_field() {
    let pairs = vec![
        pair("id", JsonValue::Str("a1".to_string())),
        pair("note", JsonValue::Str("hello".to_string())),
        pair("flag", JsonValue::Bool(true)),
        pair("nothing", JsonValue::Null),
        pair("2024-01-01", JsonValue::IntNumber(7)),
    ];
    let row = normalize_row(&pairs).unwrap();
    assert_eq!(row.amounts, vec![("2024-01-01".to_string(), 7)]);
    assert_eq!(
        row.skipped,
        vec!["note".to_string(), "flag".to_string(), "nothing".to_string()]
    );
}

#[test]
fn normalize_rejects_non_string_recognized_key() {
    let pairs = vec![pair("id", JsonValue::IntNumber(3))];
    assert!(matches!(normalize_row(&pairs), Err(NormalizeError::InvalidPayloadShape)));
    let pairs = vec![pair("Name", JsonValue::Null)];
    assert!(matches!(normalize_row(&pairs), Err(NormalizeError::InvalidPayloadShape)));
}

#[test]
fn normalize_repeated_key_last_write_wins() {
    let pairs = vec![
        pair("2024-01-01", JsonValue::IntNumber(1)),
        pair("2024-01-01", JsonValue::IntNumber(2)),
        pair("Name", JsonValue::Str("a".to_string())),
        pair("Name", JsonValue::Str("b".to_string())),
    ];
    let row = normalize_row(&pairs).unwrap();
    assert_eq!(row.amounts, vec![("2024-01-01".to_string(), 2)]);
    assert_eq!(row.name, "b");
}

#[test]
fn normalize_empty_row() {
    let pairs: Vec<(String, JsonValue)> = Vec::new();
    let row = normalize_row(&pairs).unwrap();
    assert_eq!(row.id, "");
    assert_eq!(row.name, "");
    assert_eq!(row.currency, "");
    assert_eq!(row.description, "");
    assert!(row.amounts.is_empty());
    assert!(row.skipped.is_empty());
}
