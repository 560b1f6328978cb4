//! Tests for the feed-side data types: tickers and subscription requests.
use finnhub_ws::TickerInfo;
use finnhub_ws::SubscribeInfo;

// 2022-07-21 22:07:38.376 UTC as a millisecond epoch.
const DATE_MS: i64 = 1658441258376;

#[test]
fn given_arguments_should_create_valid_ticker_info() {
    let conditions: Vec<String> = vec!["".to_string()];
    let ticker = TickerInfo::new("BINANCE:BTCUSDT", 238_415_100, 10_000, DATE_MS, conditions);
    assert_eq!(ticker.symbol, "BINANCE:BTCUSDT");
}

#[test]
fn should_create_default_ticker_info() {
    let ticker = TickerInfo::default();
    assert_eq!(ticker.symbol, "");
    assert_eq!(ticker.conditions, Some(vec![]));
    assert_eq!(ticker.volume, 0);
    assert_eq!(ticker.price, 0);
    assert_eq!(ticker.time, 0);
}

#[test]
fn given_a_ticker_it_should_serialize_it() {
    let conditions: Vec<String> = vec![];
    let ticker = TickerInfo::new("BINANCE:BTCUSDT", 238_415_100, 10_000, DATE_MS, conditions);
    let fields = ticker.vectorize(1658441270794);
    assert_eq!(
        fields,
        vec![
            "BINANCE:BTCUSDT".to_string(),
            "238415100".to_string(),
            "1658441258376".to_string(),
            "1658441270794".to_string(),
        ]
    );
    let headers = ticker.get_headers();
    assert_eq!(
        headers,
        vec![
            "Symbol".to_string(),
            "Price".to_string(),
            "Timestamp".to_string(),
            "WriteTimestamp".to_string(),
        ]
    );
}

#[test]
fn subscribe_info_has_fixed_message_type() {
    let info = SubscribeInfo::new("AAPL");
    assert_eq!(info.stock_symbol, "AAPL");
    assert_eq!(info.message_type, "subscribe");
}

#[test]
fn subscribe_info_serializes_to_wire_form() {
    let info = SubscribeInfo::new("BINANCE:BTCUSDT");
    assert_eq!(
        info.to_json(),
        "{\"type\":\"subscribe\",\"symbol\":\"BINANCE:BTCUSDT\"}"
    );
}
