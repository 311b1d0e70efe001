use stonks::ledger::{apply_operation, replay, sort_by_date, OperationKind, Transaction};
use stonks::report::{
    average_price, average_prices, calculate_position, decode_record, IntegrityError, RawRecord,
};

const DAY: i64 = 86_400_000;
const UNIT: u64 = 10_000;

fn record(kind: &str, quantity: i64, price_units: u64, date: i64) -> RawRecord {
    RawRecord {
        kind: Some(String::from(kind)),
        quantity: Some(quantity),
        price: Some(price_units),
        date: Some(date),
    }
}

#[test]
fn scenario_a_single_buy() {
    let records = vec![record("Buy", 10, 100 * UNIT, DAY)];
    let report = calculate_position(String::from("AAPL"), &records, 10 * DAY);
    assert_eq!(report.position.ticker, "AAPL");
    assert_eq!(report.position.quantity, 10);
    assert_eq!(report.position.cost_value, 1000 * UNIT as u128);
    assert_eq!(report.position.average_price, 100 * UNIT as u128);
    assert_eq!(report.skipped, 0);
}

#[test]
fn scenario_b_two_buys_weighted_average() {
    let records = vec![
        record("Buy", 10, 100 * UNIT, DAY),
        record("Buy", 10, 200 * UNIT, 2 * DAY),
    ];
    let report = calculate_position(String::from("AAPL"), &records, 10 * DAY);
    assert_eq!(report.position.quantity, 20);
    assert_eq!(report.position.cost_value, 3000 * UNIT as u128);
    assert_eq!(report.position.average_price, 150 * UNIT as u128);
}

#[test]
fn scenario_c_sell_keeps_average() {
    let records = vec![
        record("Buy", 10, 100 * UNIT, DAY),
        record("Buy", 10, 200 * UNIT, 2 * DAY),
        record("Sell", 5, 500 * UNIT, 3 * DAY),
    ];
    let report = calculate_position(String::from("AAPL"), &records, 10 * DAY);
    assert_eq!(report.position.quantity, 15);
    assert_eq!(report.position.cost_value, 2250 * UNIT as u128);
    assert_eq!(report.position.average_price, 150 * UNIT as u128);
}

#[test]
fn scenario_d_full_liquidation() {
    let records = vec![
        record("Buy", 10, 100 * UNIT, DAY),
        record("Buy", 10, 200 * UNIT, 2 * DAY),
        record("Sell", 5, 500 * UNIT, 3 * DAY),
        record("Sell", 15, 1, 4 * DAY),
    ];
    let report = calculate_position(String::from("AAPL"), &records, 10 * DAY);
    assert_eq!(report.position.quantity, 0);
    assert_eq!(report.position.cost_value, 0);
    assert_eq!(report.position.average_price, 0);
    assert_eq!(report.skipped, 0);
}

#[test]
fn scenario_e_cutoff_excludes_later_buy() {
    let records = vec![
        record("Buy", 10, 100 * UNIT, DAY),
        record("Buy", 10, 300 * UNIT, 10 * DAY),
    ];
    let report = calculate_position(String::from("AAPL"), &records, 5 * DAY);
    assert_eq!(report.position.quantity, 10);
    assert_eq!(report.position.average_price, 100 * UNIT as u128);
    assert_eq!(report.skipped, 0);
}

#[test]
fn cutoff_is_inclusive() {
    let records = vec![record("Buy", 10, 100 * UNIT, 5 * DAY)];
    let report = calculate_position(String::from("AAPL"), &records, 5 * DAY);
    assert_eq!(report.position.quantity, 10);
}

#[test]
fn late_record_never_influences_position() {
    let base = vec![
        record("Buy", 10, 100 * UNIT, DAY),
        record("Sell", 4, 70 * UNIT, 2 * DAY),
    ];
    let mut with_late = vec![
        record("Buy", 10, 100 * UNIT, DAY),
        record("Sell", 4, 70 * UNIT, 2 * DAY),
    ];
    with_late.insert(1, record("Buy", 99, 999 * UNIT, 8 * DAY));
    let a = calculate_position(String::from("AAPL"), &base, 3 * DAY);
    let b = calculate_position(String::from("AAPL"), &with_late, 3 * DAY);
    assert_eq!(a.position.quantity, b.position.quantity);
    assert_eq!(a.position.cost_value, b.position.cost_value);
    assert_eq!(a.position.average_price, b.position.average_price);
    assert_eq!(a.skipped, b.skipped);
}

#[test]
fn repeated_reads_agree() {
    let records = vec![
        record("Buy", 7, 31 * UNIT, DAY),
        record("Sell", 2, 40 * UNIT, 2 * DAY),
    ];
    let a = calculate_position(String::from("X"), &records, 9 * DAY);
    let b = calculate_position(String::from("X"), &records, 9 * DAY);
    assert_eq!(a.position.quantity, b.position.quantity);
    assert_eq!(a.position.cost_value, b.position.cost_value);
    assert_eq!(a.position.average_price, b.position.average_price);
    assert_eq!(a.skipped, b.skipped);
}

#[test]
fn records_are_replayed_in_date_order() {
    // stored out of order: the sell is dated after the buys and must be
    // replayed last even though the store returned it first
    let records = vec![
        record("Sell", 5, 1, 3 * DAY),
        record("Buy", 10, 100 * UNIT, DAY),
        record("Buy", 10, 200 * UNIT, 2 * DAY),
    ];
    let report = calculate_position(String::from("AAPL"), &records, 10 * DAY);
    assert_eq!(report.position.quantity, 15);
    assert_eq!(report.position.cost_value, 2250 * UNIT as u128);
    assert_eq!(report.skipped, 0);
}

#[test]
fn equal_dates_keep_stored_order() {
    let txs = vec![
        Transaction { kind: OperationKind::Buy, quantity: 1, price: 5, date: 7 },
        Transaction { kind: OperationKind::Buy, quantity: 2, price: 6, date: 7 },
        Transaction { kind: OperationKind::Buy, quantity: 3, price: 4, date: 3 },
    ];
    let sorted = sort_by_date(&txs);
    assert_eq!(sorted.len(), 3);
    assert_eq!(sorted[0].date, 3);
    assert_eq!(sorted[1].price, 5);
    assert_eq!(sorted[2].price, 6);
}

#[test]
fn oversell_is_skipped_not_applied() {
    let records = vec![
        record("Buy", 10, 100 * UNIT, DAY),
        record("Sell", 15, 1, 2 * DAY),
    ];
    let report = calculate_position(String::from("AAPL"), &records, 10 * DAY);
    assert_eq!(report.position.quantity, 10);
    assert_eq!(report.position.average_price, 100 * UNIT as u128);
    assert_eq!(report.skipped, 1);
}

#[test]
fn sell_into_empty_position_is_skipped() {
    let records = vec![record("Sell", 5, 100 * UNIT, DAY)];
    let report = calculate_position(String::from("AAPL"), &records, 10 * DAY);
    assert_eq!(report.position.quantity, 0);
    assert_eq!(report.position.cost_value, 0);
    assert_eq!(report.skipped, 1);
}

#[test]
fn decode_accepts_any_letter_case() {
    let r = decode_record(&record("bUy", 3, 2 * UNIT, DAY)).unwrap();
    assert_eq!(r.kind, OperationKind::Buy);
    let r = decode_record(&record("SELL", 3, 2 * UNIT, DAY)).unwrap();
    assert_eq!(r.kind, OperationKind::Sell);
}

#[test]
fn decode_missing_field() {
    let mut r = record("Buy", 3, 2 * UNIT, DAY);
    r.price = None;
    assert_eq!(decode_record(&r), Err(IntegrityError::MissingField));
    let mut r = record("Buy", 3, 2 * UNIT, DAY);
    r.kind = None;
    assert_eq!(decode_record(&r), Err(IntegrityError::MissingField));
}

#[test]
fn decode_unknown_kind() {
    let r = record("Hold", 3, 2 * UNIT, DAY);
    assert_eq!(decode_record(&r), Err(IntegrityError::UnknownKind));
}

#[test]
fn decode_non_positive_quantity() {
    assert_eq!(
        decode_record(&record("Buy", 0, 2 * UNIT, DAY)),
        Err(IntegrityError::NonPositiveQuantity)
    );
    assert_eq!(
        decode_record(&record("Sell", -4, 2 * UNIT, DAY)),
        Err(IntegrityError::NonPositiveQuantity)
    );
}

#[test]
fn malformed_record_is_skipped_and_counted() {
    let records = vec![
        record("Buy", 10, 100 * UNIT, DAY),
        record("Hold", 3, 2 * UNIT, 2 * DAY),
        record("Buy", 10, 200 * UNIT, 3 * DAY),
    ];
    let report = calculate_position(String::from("AAPL"), &records, 10 * DAY);
    assert_eq!(report.position.quantity, 20);
    assert_eq!(report.position.average_price, 150 * UNIT as u128);
    assert_eq!(report.skipped, 1);
}

#[test]
fn apply_operation_buy_and_sell() {
    let buy = Transaction { kind: OperationKind::Buy, quantity: 4, price: 25 * UNIT, date: 0 };
    let (q, c) = apply_operation(0, 0, &buy).unwrap();
    assert_eq!(q, 4);
    assert_eq!(c, 100 * UNIT as u128);
    let sell = Transaction { kind: OperationKind::Sell, quantity: 1, price: 7, date: 0 };
    let (q, c) = apply_operation(q, c, &sell).unwrap();
    assert_eq!(q, 3);
    assert_eq!(c, 75 * UNIT as u128);
    let oversell = Transaction { kind: OperationKind::Sell, quantity: 9, price: 7, date: 0 };
    assert!(apply_operation(q, c, &oversell).is_none());
}

#[test]
fn replay_counts_unappliable_transactions() {
    let txs = vec![
        Transaction { kind: OperationKind::Sell, quantity: 1, price: 0, date: 0 },
        Transaction { kind: OperationKind::Buy, quantity: 2, price: 3 * UNIT, date: 1 },
    ];
    let (q, c, skipped) = replay(&txs);
    assert_eq!(q, 2);
    assert_eq!(c, 6 * UNIT as u128);
    assert_eq!(skipped, 1);
}

#[test]
fn average_price_of_ledger() {
    let records = vec![
        record("Buy", 10, 100 * UNIT, DAY),
        record("Buy", 10, 200 * UNIT, 2 * DAY),
    ];
    assert_eq!(average_price(&records, 10 * DAY), 150 * UNIT as u128);
}

#[test]
fn average_prices_for_many_tickers() {
    let ledgers = vec![
        (
            String::from("AAPL"),
            vec![record("Buy", 10, 100 * UNIT, DAY)],
        ),
        (
            String::from("MSFT"),
            vec![
                record("Buy", 1, 40 * UNIT, DAY),
                record("Buy", 1, 60 * UNIT, 2 * DAY),
            ],
        ),
    ];
    let out = average_prices(&ledgers, 10 * DAY);
    assert_eq!(out.len(), 2);
    assert_eq!(out[0].0, "AAPL");
    assert_eq!(out[0].1, 100 * UNIT as u128);
    assert_eq!(out[1].0, "MSFT");
    assert_eq!(out[1].1, 50 * UNIT as u128);
}

#[test]
fn empty_ledger_has_zero_average() {
    let records: Vec<RawRecord> = Vec::new();
    let report = calculate_position(String::from("AAPL"), &records, DAY);
    assert_eq!(report.position.quantity, 0);
    assert_eq!(report.position.cost_value, 0);
    assert_eq!(report.position.average_price, 0);
    assert_eq!(report.skipped, 0);
}

#[test]
fn zero_cost_position_has_zero_average() {
    let records = vec![record("Buy", 10, 0, DAY)];
    let report = calculate_position(String::from("AAPL"), &records, 10 * DAY);
    assert_eq!(report.position.quantity, 10);
    assert_eq!(report.position.cost_value, 0);
    assert_eq!(report.position.average_price, 0);
}

#[test]
fn average_truncates_at_fixed_scale() {
    // 10 / 3 = 3.3333... -> 3.3333 at four fractional digits
    let records = vec![record("Buy", 3, 100 * UNIT / 30, DAY)];
    let report = calculate_position(String::from("X"), &records, 10 * DAY);
    assert_eq!(report.position.quantity, 3);
    assert_eq!(report.position.average_price, 33_333);
}
