//! End-to-end aggregation scenarios: scan plus candlestick, scan plus mean.
use finnhub_ws::RollingData;
use finnhub_ws::candlestick::Candlestick;
use finnhub_ws::candlestick::calculate_candlestick;
use finnhub_ws::mean::calculate_mean_data;
use finnhub_ws::stock_handle::SymbolLog;
use finnhub_ws::utils::find_items;

fn appl(price: i64, timestamp: i64, write_timestamp: i64) -> RollingData {
    RollingData {
        symbol: "APPL".to_string(),
        price,
        timestamp,
        write_timestamp,
    }
}

/// Two ticks for APPL with quoted prices 172.5 and 173.5 (fixed-point
/// ten-thousandths), both written inside the same one-minute window.
fn two_tick_log() -> SymbolLog {
    let mut log = SymbolLog::new();
    let _ = log.append(appl(1_725_000, 1658441258376, 1658441270794));
    let _ = log.append(appl(1_735_000, 1658441258197, 1658441270798));
    log
}

#[test]
fn two_ticks_yield_expected_candlestick() {
    let log = two_tick_log();
    let items = find_items(&log, 1658441258000, 1);
    let got = calculate_candlestick(&items, 1658441280376);
    let expected = Candlestick {
        stock_symbol: "APPL".to_string(),
        minute_of_hour: 1658441280000,
        open_price: 1_725_000,
        close_price: 1_735_000,
        highest_price: 1_735_000,
        lowest_price: 1_725_000,
        total_transactions: 2,
    };
    assert_eq!(got, Some(expected));
}

#[test]
fn two_ticks_yield_expected_mean() {
    let log = two_tick_log();
    let items = find_items(&log, 1658441258000, 15);
    let got = calculate_mean_data(&items).expect("two records in window");
    assert_eq!(got.symbol, "APPL");
    assert_eq!(got.transactions, 2);
    assert_eq!(got.mean_price, 1_730_000);
    assert_eq!(got.start_time, 1658441270794);
    assert_eq!(got.end_time, 1658441270798);
}

#[test]
fn empty_log_yields_no_summaries() {
    let log = SymbolLog::new();
    let items = find_items(&log, 1658441258000, 1);
    assert!(calculate_candlestick(&items, 1658441280376).is_none());
    let items15 = find_items(&log, 1658441258000, 15);
    assert!(calculate_mean_data(&items15).is_none());
}

#[test]
fn tick_past_window_end_falls_into_the_next_window() {
    let mut log = SymbolLog::new();
    // one millisecond past the end of the window starting 22:07:00
    let _ = log.append(appl(1_725_000, 1658441258376, 1658441280000));
    let in_first = find_items(&log, 1658441258000, 1);
    assert!(in_first.is_empty());
    assert!(calculate_candlestick(&in_first, 1658441280376).is_none());
    let in_next = find_items(&log, 1658441280000, 1);
    assert_eq!(in_next.len(), 1);
    let cs = calculate_candlestick(&in_next, 1658441340376).expect("record in next window");
    assert_eq!(cs.total_transactions, 1);
    assert_eq!(cs.open_price, 1_725_000);
}

#[test]
fn record_at_window_start_is_included() {
    let mut log = SymbolLog::new();
    let _ = log.append(appl(1_725_000, 1658441258376, 1658441220000));
    let items = find_items(&log, 1658441258999, 1);
    assert_eq!(items.len(), 1);
}

#[test]
fn mean_of_negative_prices_rounds_down() {
    let mut log = SymbolLog::new();
    let _ = log.append(appl(-5, 1, 10));
    let _ = log.append(appl(-4, 2, 20));
    let items = find_items(&log, 0, 1);
    let got = calculate_mean_data(&items).expect("two records");
    // (-5 + -4) / 2 rounds toward minus infinity
    assert_eq!(got.mean_price, -5);
    assert_eq!(got.start_time, 10);
    assert_eq!(got.end_time, 20);
}

#[test]
fn candlestick_extremes_over_unordered_prices() {
    let mut log = SymbolLog::new();
    let _ = log.append(appl(30, 1, 10));
    let _ = log.append(appl(10, 2, 11));
    let _ = log.append(appl(40, 3, 12));
    let _ = log.append(appl(20, 4, 13));
    let items = find_items(&log, 0, 1);
    let cs = calculate_candlestick(&items, 60_000).expect("four records");
    assert_eq!(cs.open_price, 30);
    assert_eq!(cs.close_price, 20);
    assert_eq!(cs.highest_price, 40);
    assert_eq!(cs.lowest_price, 10);
    assert_eq!(cs.total_transactions, 4);
    assert_eq!(cs.minute_of_hour, 60_000);
}

#[test]
fn candlestick_default_is_zero_valued() {
    let placeholder = Candlestick::default();
    assert_eq!(placeholder.stock_symbol, "");
    assert_eq!(placeholder.minute_of_hour, 0);
    assert_eq!(placeholder.open_price, 0);
    assert_eq!(placeholder.close_price, 0);
    assert_eq!(placeholder.highest_price, 0);
    assert_eq!(placeholder.lowest_price, 0);
    assert_eq!(placeholder.total_transactions, 0);
    assert_eq!(placeholder.to_row(), ",0,0,0,0,0,0\n");
}

#[test]
fn summary_rows_have_the_documented_field_order() {
    let cs = Candlestick {
        stock_symbol: "APPL".to_string(),
        minute_of_hour: 1658441280000,
        open_price: 1_725_000,
        close_price: 1_735_000,
        highest_price: 1_735_000,
        lowest_price: 1_725_000,
        total_transactions: 2,
    };
    assert_eq!(
        cs.to_row(),
        "APPL,1658441280000,1725000,1735000,1735000,1725000,2\n"
    );
    let log = two_tick_log();
    let items = find_items(&log, 1658441258000, 15);
    let mean = calculate_mean_data(&items).expect("two records");
    assert_eq!(
        mean.to_row(),
        "APPL,1658441270794,1658441270798,1730000,2\n"
    );
}
