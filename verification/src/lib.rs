//! Windowed stock-tick analysis with a verified core.
//!
//! The library ingests per-symbol price ticks into an append-only log
//! (mirrored to durable storage by the caller), and recomputes windowed
//! summary statistics — a one-minute OHLC candlestick and a trailing
//! fifteen-minute mean price — by scanning the log for records that fall
//! inside the current window.
//!
//! Prices are held as fixed-point integers (ten-thousandths of the quote
//! currency, see [`PRICE_SCALE`]) and timestamps as milliseconds since the
//! Unix epoch, so every computation is exact and verifiable.
use vstd::prelude::*;

pub mod candlestick;
pub mod cli;
pub mod codec;
pub mod mean;
pub mod stock_handle;
pub mod utils;

verus! {

/// Fixed-point price unit: one price unit is 1/10000 of the quote currency,
/// so a quoted price of `172.5` is stored as `1_725_000`.
pub const PRICE_SCALE: i64 = 10000;

/// True when a character may appear in a stored field: fields are joined by
/// commas and rows end with a newline, so neither may occur inside a field.
pub open spec fn field_char(c: char) -> bool {
    c != ',' && c != '\n'
}

/// True when `s` can stand as one field of a delimited row.
pub open spec fn wf_field(s: Seq<char>) -> bool {
    forall|i: int| 0 <= i < s.len() ==> field_char(#[trigger] s[i])
}

/// What can go wrong when stored rows are read back.
#[derive(Clone, Copy, Debug, PartialEq, Eq, Structural)]
pub enum ParseError {
    /// a stored row failed to parse during a scan; the whole read is
    /// abandoned rather than skipping the row
    MalformedRecord,
}

/// The mathematical values of a sequence of records, element for element.
pub open spec fn record_views(s: Seq<RollingData>) -> Seq<RollingDataView> {
    s.map_values(|r: RollingData| r@)
}

/// One tick as it is persisted to (and read back from) a symbol's rolling
/// log: the symbol, the fixed-point price, the source-assigned transaction
/// time and the time the record was written, both in epoch milliseconds.
#[derive(Debug, PartialEq)]
pub struct RollingData {
    /// stock symbol of the transaction being written
    pub symbol: String,
    /// fixed-point price of the stock at the time of the transaction
    pub price: i64,
    /// millisecond timestamp of the transaction
    pub timestamp: i64,
    /// millisecond timestamp of writing the transaction to the log
    pub write_timestamp: i64,
}

/// The mathematical value of a [`RollingData`] record.
pub ghost struct RollingDataView {
    pub symbol: Seq<char>,
    pub price: int,
    pub timestamp: int,
    pub write_timestamp: int,
}

impl View for RollingData {
    type V = RollingDataView;

    open spec fn view(&self) -> RollingDataView {
        RollingDataView {
            symbol: self.symbol@,
            price: self.price as int,
            timestamp: self.timestamp as int,
            write_timestamp: self.write_timestamp as int,
        }
    }
}

impl RollingDataView {
    /// A record is well formed when its symbol can stand as a row field and
    /// its numbers fit the machine integers they are stored in.
    pub open spec fn wf(self) -> bool {
        &&& wf_field(self.symbol)
        &&& i64::MIN <= self.price <= i64::MAX
        &&& i64::MIN <= self.timestamp <= i64::MAX
        &&& i64::MIN <= self.write_timestamp <= i64::MAX
    }
}

impl RollingData {
    /// An exact copy of the record; its mathematical value is unchanged.
    pub fn duplicate(&self) -> (r: RollingData)
        ensures
            r@ == self@,
    {
        RollingData {
            symbol: self.symbol.clone(),
            price: self.price,
            timestamp: self.timestamp,
            write_timestamp: self.write_timestamp,
        }
    }
}

/// `TickerInfo` is the payload of one transaction in a successful feed
/// response: the symbol, fixed-point price and volume, the millisecond
/// transaction time, and the exchange's condition codes, if any.
pub struct TickerInfo {
    /// symbol: represents the stock symbol
    pub symbol: String,
    /// price: fixed-point price of the stock at ticker's time
    pub price: i64,
    /// volume: fixed-point number of stocks of the transaction
    pub volume: i64,
    /// time: the time of the transaction as a millisecond epoch
    pub time: i64,
    /// conditions: the type of transaction, or comments
    pub conditions: Option<Vec<String>>,
}

impl TickerInfo {
    /// A zero-valued ticker: empty symbol, zero price, volume and time, and
    /// an empty condition list.
    pub fn default() -> (r: TickerInfo)
        ensures
            r.symbol@ == Seq::<char>::empty(),
            r.price == 0,
            r.volume == 0,
            r.time == 0,
            r.conditions matches Some(cs) && cs@ == Seq::<String>::empty(),
    {
        TickerInfo {
            symbol: String::new(),
            price: 0,
            volume: 0,
            time: 0,
            conditions: Some(Vec::new()),
        }
    }

    /// Builds a ticker from the symbol, its fixed-point price and volume,
    /// the millisecond transaction time and the condition codes.
    pub fn new(
        symbol: &str,
        price: i64,
        volume: i64,
        date_time: i64,
        conditions: Vec<String>,
    ) -> (r: TickerInfo)
        ensures
            r.symbol@ == symbol@,
            r.price == price,
            r.volume == volume,
            r.time == date_time,
            r.conditions matches Some(cs) && cs@ == conditions@,
    {
        TickerInfo {
            symbol: symbol.to_owned(),
            price,
            volume,
            time: date_time,
            conditions: Some(conditions),
        }
    }
}

/// `SubscribeInfo` holds the information sent to the feed to subscribe to a
/// stock symbol.
pub struct SubscribeInfo<'a> {
    /// the kind of request; always `"subscribe"`
    pub message_type: &'a str,
    /// the stock symbol to subscribe to
    pub stock_symbol: &'a str,
}

/// The wire form of a subscription request: a fixed two-field object
/// holding the request kind and the stock symbol.
pub open spec fn spec_subscribe_json(message_type: Seq<char>, symbol: Seq<char>) -> Seq<char> {
    "{\"type\":\""@ + message_type + "\",\"symbol\":\""@ + symbol + "\"}"@
}

impl<'a> SubscribeInfo<'a> {
    /// Builds the subscription request for one stock symbol.
    pub fn new(symbol: &'a str) -> (r: SubscribeInfo<'a>)
        ensures
            r.message_type@ == "subscribe"@,
            r.stock_symbol@ == symbol@,
    {
        SubscribeInfo { message_type: "subscribe", stock_symbol: symbol }
    }

    /// The request as the text sent to the feed. Symbols are plain exchange
    /// codes, so the fields are inserted as they stand.
    pub fn to_json(&self) -> (s: String)
        ensures
            s@ == spec_subscribe_json(self.message_type@, self.stock_symbol@),
    {
        let mut s = String::from_str("{\"type\":\"");
        s.append(self.message_type);
        s.append("\",\"symbol\":\"");
        s.append(self.stock_symbol);
        s.append("\"}");
        proof {
            assert(s@ =~= spec_subscribe_json(self.message_type@, self.stock_symbol@));
        }
        s
    }
}

impl TickerInfo {
    /// The ticker's row fields for its rolling log, in field order: the
    /// symbol, the fixed-point price, the transaction time, and the write
    /// time `now`.
    pub fn vectorize(&self, now: i64) -> (r: Vec<String>)
        ensures
            r@.len() == 4,
            r@[0]@ == self.symbol@,
            r@[1]@ == codec::spec_fmt_int(self.price as int),
            r@[2]@ == codec::spec_fmt_int(self.time as int),
            r@[3]@ == codec::spec_fmt_int(now as int),
    {
        let mut r: Vec<String> = Vec::new();
        r.push(codec::clone_string(&self.symbol));
        r.push(codec::fmt_i64(self.price));
        r.push(codec::fmt_i64(self.time));
        r.push(codec::fmt_i64(now));
        r
    }

    /// The field names of a rolling log's header row, in field order.
    pub fn get_headers(&self) -> (r: Vec<String>)
        ensures
            r@.len() == 4,
            r@[0]@ == "Symbol"@,
            r@[1]@ == "Price"@,
            r@[2]@ == "Timestamp"@,
            r@[3]@ == "WriteTimestamp"@,
    {
        let mut r: Vec<String> = Vec::new();
        r.push(String::from_str("Symbol"));
        r.push(String::from_str("Price"));
        r.push(String::from_str("Timestamp"));
        r.push(String::from_str("WriteTimestamp"));
        r
    }
}

/// `Response` is a successful feed message: a batch of zero or more
/// transactions, possibly for different symbols.
pub struct Response<'a> {
    /// the kind of message; `"trade"` for transaction data
    pub transaction_type: &'a str,
    /// the transactions carried by the message, in feed order
    pub transaction_data: Vec<TickerInfo>,
}

impl<'a> Response<'a> {
    /// An empty trade response.
    pub fn default() -> (r: Response<'a>)
        ensures
            r.transaction_type@ == "trade"@,
            r.transaction_data@ == Seq::<TickerInfo>::empty(),
    {
        Response { transaction_type: "trade", transaction_data: Vec::new() }
    }
}

/// `Ping` is a keep-alive message from the feed; it is acknowledged and not
/// persisted.
pub struct Ping<'a> {
    /// the kind of message; `"ping"` for a keep-alive
    pub action_type: &'a str,
}

/// `WsError` is an error payload from the feed; it is surfaced and does not
/// stop ingestion of later messages.
pub struct WsError<'a> {
    /// the feed's description of the error
    pub message: &'a str,
}

/// The three possible feed message shapes, resolved once at the boundary:
/// transaction data, an error payload, or a keep-alive.
pub enum WsMessage<'a> {
    /// a successful batch of transactions
    Response(Response<'a>),
    /// an error payload from the feed
    Error(WsError<'a>),
    /// a keep-alive check from the feed
    Ping(Ping<'a>),
}

} // verus!
