//! Tests for the helpers: sanitization, minute truncation and the windowed
//! scan.
use finnhub_ws::RollingData;
use finnhub_ws::stock_handle::SymbolLog;
use finnhub_ws::utils::find_items;
use finnhub_ws::utils::floor_to_minute;
use finnhub_ws::utils::sanitize_string;

#[test]
fn check_sanitize_string_with_semi_colons() {
    let string = "BINANCE:BTCUSDT";
    let got = sanitize_string(string);
    assert_eq!(got, "BINANCE_BTCUSDT".to_string())
}

#[test]
fn check_sanitize_string_with_special_char() {
    let string = "M$FT";
    let got = sanitize_string(string);
    assert_eq!(got, "M_FT".to_string())
}

#[test]
fn given_a_string_with_no_special_char_expect_same_string() {
    let string = "Hello";
    let got = sanitize_string(string);
    assert_eq!(got, "Hello".to_string())
}

#[test]
fn floor_to_minute_truncates_within_the_minute() {
    // 22:07:38.376 truncates to 22:07:00.000
    assert_eq!(floor_to_minute(1658441258376), 1658441220000);
    assert_eq!(floor_to_minute(1658441220000), 1658441220000);
    assert_eq!(floor_to_minute(59_999), 0);
    assert_eq!(floor_to_minute(60_000), 60_000);
}

fn record(price: i64, timestamp: i64, write_timestamp: i64) -> RollingData {
    RollingData {
        symbol: "BINANCE:BTCUSDT".to_string(),
        price,
        timestamp,
        write_timestamp,
    }
}

fn mock_log() -> SymbolLog {
    let mut log = SymbolLog::new();
    let rows = [
        record(230_610_500, 1658441258376, 1658441270794),
        record(230_601_600, 1658441258197, 1658441270794),
        record(230_610_400, 1658441258362, 1658441270795),
        record(230_608_800, 1658441258330, 1658441270797),
        record(230_610_500, 1658441258362, 1658441270797),
        record(230_608_900, 1658441258340, 1658441270814),
        record(230_585_900, 1658441258404, 1658441271008),
        record(230_617_900, 1658441258466, 1658441271009),
    ];
    for r in rows {
        let _ = log.append(r);
    }
    log
}

#[test]
fn given_file_with_data_expect_vec_with_matching_records() {
    let log = mock_log();
    let got = find_items(&log, 1658441258000, 1);
    let expected = vec![
        record(230_610_500, 1658441258376, 1658441270794),
        record(230_601_600, 1658441258197, 1658441270794),
        record(230_610_400, 1658441258362, 1658441270795),
        record(230_608_800, 1658441258330, 1658441270797),
        record(230_610_500, 1658441258362, 1658441270797),
        record(230_608_900, 1658441258340, 1658441270814),
        record(230_585_900, 1658441258404, 1658441271008),
        record(230_617_900, 1658441258466, 1658441271009),
    ];
    assert_eq!(got, expected);
}

#[test]
fn given_empty_file_expect_empty_vec() {
    let log = SymbolLog::new();
    let got = find_items(&log, 1658441258000, 1);
    let expected: Vec<RollingData> = vec![];
    assert_eq!(got, expected);
}

#[test]
fn given_future_timestamp_expect_empty_vec() {
    let log = mock_log();
    let got = find_items(&log, 1658860842000, 1);
    let expected: Vec<RollingData> = vec![];
    assert_eq!(got, expected);
}

#[test]
fn scan_window_is_idempotent() {
    let log = mock_log();
    let first = find_items(&log, 1658441258000, 1);
    let second = find_items(&log, 1658441258000, 1);
    assert_eq!(first, second);
    assert_eq!(first.len(), 8);
}
