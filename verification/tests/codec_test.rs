//! Tests for the row grammar: decimal forms and tick rows.
use finnhub_ws::RollingData;
use finnhub_ws::codec::encode_tick_row;
use finnhub_ws::codec::fmt_i64;
use finnhub_ws::codec::fmt_u64;
use finnhub_ws::codec::parse_i64;
use finnhub_ws::codec::parse_tick_row;
use finnhub_ws::codec::tick_header_row;

#[test]
fn decimal_forms_are_canonical() {
    assert_eq!(fmt_u64(0), "0");
    assert_eq!(fmt_u64(7), "7");
    assert_eq!(fmt_u64(1234567890), "1234567890");
    assert_eq!(fmt_i64(0), "0");
    assert_eq!(fmt_i64(-7), "-7");
    assert_eq!(fmt_i64(i64::MAX), "9223372036854775807");
    assert_eq!(fmt_i64(i64::MIN), "-9223372036854775808");
}

#[test]
fn parse_accepts_exactly_the_canonical_forms() {
    assert_eq!(parse_i64("0"), Some(0));
    assert_eq!(parse_i64("7"), Some(7));
    assert_eq!(parse_i64("-7"), Some(-7));
    assert_eq!(parse_i64("1234567890"), Some(1234567890));
    assert_eq!(parse_i64("9223372036854775807"), Some(i64::MAX));
    assert_eq!(parse_i64("-9223372036854775808"), Some(i64::MIN));
    assert_eq!(parse_i64(""), None);
    assert_eq!(parse_i64("-"), None);
    assert_eq!(parse_i64("-0"), None);
    assert_eq!(parse_i64("01"), None);
    assert_eq!(parse_i64("1x2"), None);
    assert_eq!(parse_i64(" 1"), None);
    assert_eq!(parse_i64("9223372036854775808"), None);
    assert_eq!(parse_i64("-9223372036854775809"), None);
    assert_eq!(parse_i64("99999999999999999999999"), None);
}

#[test]
fn number_round_trip_holds_on_samples() {
    for n in [0i64, 1, -1, 42, -42, 1_725_000, i64::MAX, i64::MIN] {
        assert_eq!(parse_i64(&fmt_i64(n)), Some(n));
    }
}

#[test]
fn tick_rows_round_trip() {
    let rec = RollingData {
        symbol: "BINANCE:BTCUSDT".to_string(),
        price: 230_610_500,
        timestamp: 1658441258376,
        write_timestamp: 1658441270794,
    };
    let row = encode_tick_row(&rec);
    assert_eq!(row, "BINANCE:BTCUSDT,230610500,1658441258376,1658441270794\n");
    let parsed = parse_tick_row(&row[..row.len() - 1]).expect("row parses");
    assert_eq!(parsed, rec);
}

#[test]
fn malformed_tick_lines_are_rejected() {
    assert!(parse_tick_row("").is_none());
    assert!(parse_tick_row("APPL,1,2").is_none());
    assert!(parse_tick_row("APPL,1,2,3,4").is_none());
    assert!(parse_tick_row("APPL,x,2,3").is_none());
    assert!(parse_tick_row("APPL,1,2,03").is_none());
    assert!(parse_tick_row("APPL,1,2,3\n").is_none());
}

#[test]
fn header_row_is_fixed() {
    assert_eq!(tick_header_row(), "Symbol,Price,Timestamp,WriteTimestamp\n");
}
