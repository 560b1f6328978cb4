//! Tests for the per-symbol log, the handles, and message routing.
use finnhub_ws::ParseError;
use finnhub_ws::Response;
use finnhub_ws::RollingData;
use finnhub_ws::TickerInfo;
use finnhub_ws::codec::parse_tick_row;
use finnhub_ws::stock_handle::StockHandle;
use finnhub_ws::stock_handle::SymbolLog;
use finnhub_ws::stock_handle::initialize_mapper;
use finnhub_ws::stock_handle::parse_message;

fn record(symbol: &str, price: i64, timestamp: i64, write_timestamp: i64) -> RollingData {
    RollingData {
        symbol: symbol.to_string(),
        price,
        timestamp,
        write_timestamp,
    }
}

#[test]
fn first_append_writes_the_header_first() {
    let mut log = SymbolLog::new();
    assert!(log.is_empty());
    let rows = log.append(record("APPL", 1_725_000, 5, 10));
    assert_eq!(
        rows,
        vec![
            "Symbol,Price,Timestamp,WriteTimestamp\n".to_string(),
            "APPL,1725000,5,10\n".to_string(),
        ]
    );
    assert!(!log.is_empty());
    let rows2 = log.append(record("APPL", 1_735_000, 6, 11));
    assert_eq!(rows2, vec!["APPL,1735000,6,11\n".to_string()]);
    assert_eq!(log.record_count(), 2);
}

#[test]
fn appended_rows_parse_back_as_single_records() {
    // interleaved appends from two logical writers: every row the log hands
    // out parses back as exactly the record that was appended
    let mut log = SymbolLog::new();
    let writers = [
        record("APPL", 1_725_000, 1, 10),
        record("MSFT", 2_000_000, 2, 11),
        record("APPL", 1_726_000, 3, 12),
        record("MSFT", 2_001_000, 4, 13),
    ];
    for r in writers {
        let copy = r.duplicate();
        let rows = log.append(r);
        let line = rows.last().expect("data row");
        let trimmed = &line[..line.len() - 1];
        let parsed = parse_tick_row(trimmed).expect("row parses");
        assert_eq!(parsed, copy);
    }
}

#[test]
fn encoded_log_reads_back_as_the_same_log() {
    let mut log = SymbolLog::new();
    let mut text = String::new();
    for rows in [
        log.append(record("APPL", 1_725_000, 1, 10)),
        log.append(record("APPL", -42, 2, 11)),
        log.append(record("APPL", 0, 3, 12)),
    ] {
        for row in rows {
            text.push_str(&row);
        }
    }
    let reloaded = SymbolLog::from_encoded(&text).expect("well-formed text");
    assert_eq!(reloaded.record_count(), 3);
    assert_eq!(
        reloaded.get(0),
        &record("APPL", 1_725_000, 1, 10)
    );
    assert_eq!(reloaded.get(1), &record("APPL", -42, 2, 11));
    assert_eq!(reloaded.get(2), &record("APPL", 0, 3, 12));
}

#[test]
fn empty_text_is_an_empty_store() {
    let log = SymbolLog::from_encoded("").expect("empty text");
    assert!(log.is_empty());
}

#[test]
fn malformed_rows_abort_the_read() {
    let header = "Symbol,Price,Timestamp,WriteTimestamp\n";
    let bad_field_count = format!("{}APPL,1,2\n", header);
    assert!(matches!(
        SymbolLog::from_encoded(&bad_field_count),
        Err(ParseError::MalformedRecord)
    ));
    let bad_number = format!("{}APPL,1x,2,3\n", header);
    assert!(matches!(
        SymbolLog::from_encoded(&bad_number),
        Err(ParseError::MalformedRecord)
    ));
    let unterminated = format!("{}APPL,1,2,3", header);
    assert!(matches!(
        SymbolLog::from_encoded(&unterminated),
        Err(ParseError::MalformedRecord)
    ));
    let headerless = "APPL";
    assert!(matches!(
        SymbolLog::from_encoded(headerless),
        Err(ParseError::MalformedRecord)
    ));
}

#[test]
fn given_an_array_of_stocks_it_should_create_the_mapper() {
    let stocks = vec!["abc".to_string(), "def".to_string(), "ghi".to_string()];
    let mapper = initialize_mapper(&stocks);
    assert_eq!(mapper.len(), 3);
    for (handle, stock) in mapper.iter().zip(stocks.iter()) {
        assert_eq!(&handle.stock_symbol, stock);
        assert!(handle.initialized);
        assert!(handle.log.is_empty());
    }
}

#[test]
fn initialize_runs_once() {
    let mut handle = StockHandle::new("AAPL");
    let (header, placeholder) = handle.initialize();
    assert_eq!(
        header,
        Some("Symbol,Price,Timestamp,WriteTimestamp\n".to_string())
    );
    let placeholder = placeholder.expect("placeholder on first initialization");
    assert_eq!(placeholder.total_transactions, 0);
    let (header2, placeholder2) = handle.initialize();
    assert!(header2.is_none());
    assert!(placeholder2.is_none());
}

fn tick(symbol: &str, price: i64, time: i64) -> TickerInfo {
    TickerInfo::new(symbol, price, 0, time, vec![])
}

#[test]
fn parse_message_routes_ticks_to_their_handles() {
    let stocks = vec!["AAPL".to_string(), "MSFT".to_string()];
    let mut mapper = initialize_mapper(&stocks);
    let resp = Response {
        transaction_type: "trade",
        transaction_data: vec![
            tick("AAPL", 1_725_000, 1),
            tick("MSFT", 2_000_000, 2),
            tick("UNKNOWN", 3_000_000, 3),
            tick("AAPL", 1_726_000, 4),
        ],
    };
    let rows = parse_message(&resp, &mut mapper, 100);
    assert_eq!(mapper[0].log.record_count(), 2);
    assert_eq!(mapper[1].log.record_count(), 1);
    assert_eq!(mapper[0].log.get(0), &record("AAPL", 1_725_000, 1, 100));
    assert_eq!(mapper[0].log.get(1), &record("AAPL", 1_726_000, 4, 100));
    assert_eq!(mapper[1].log.get(0), &record("MSFT", 2_000_000, 2, 100));
    assert_eq!(rows.len(), 3);
    assert_eq!(rows[0].handle_index, 0);
    assert_eq!(rows[0].line, "AAPL,1725000,1,100\n");
    assert_eq!(rows[1].handle_index, 1);
    assert_eq!(rows[1].line, "MSFT,2000000,2,100\n");
    assert_eq!(rows[2].handle_index, 0);
    assert_eq!(rows[2].line, "AAPL,1726000,4,100\n");
}

#[test]
fn worker_steps_compose_scan_and_aggregation() {
    let stocks = vec!["APPL".to_string()];
    let mut mapper = initialize_mapper(&stocks);
    let resp = Response {
        transaction_type: "trade",
        transaction_data: vec![
            tick("APPL", 1_725_000, 1658441258376),
            tick("APPL", 1_735_000, 1658441258397),
        ],
    };
    let _ = parse_message(&resp, &mut mapper, 1658441270794);
    let cs = mapper[0]
        .candlestick_step(1658441258000, 1658441280376)
        .expect("records in window");
    assert_eq!(cs.open_price, 1_725_000);
    assert_eq!(cs.close_price, 1_735_000);
    assert_eq!(cs.total_transactions, 2);
    let mean = mapper[0].mean_step(1658441258000).expect("records in window");
    assert_eq!(mean.mean_price, 1_730_000);
    assert_eq!(mean.transactions, 2);
    // an empty window writes nothing
    assert!(mapper[0].candlestick_step(0, 0).is_none());
    assert!(mapper[0].mean_step(0).is_none());
}
